//! The sessions that a client has opened, and the default one among them.

use super::types::{SessionId, SessionInfo};
use std::collections::HashMap;
use vstd::std_specs::iter::IteratorSpec;
use vstd::prelude::*;
use vstd::std_specs::hash::group_hash_axioms;

verus! {

broadcast use group_hash_axioms;

/// There is no default session.
#[derive(Debug, Clone, Copy, PartialEq, Eq, Structural)]
pub struct NoDefaultSession;

impl NoDefaultSession {
    /// What is said of the error.
    pub fn message(self) -> (r: &'static str)
        ensures
            r@ == "no default session available"@,
    {
        "no default session available"
    }
}

/// The open sessions, by their ids, and the id of the default session.
pub struct SessionManager {
    sessions: HashMap<SessionId, SessionInfo>,
    default_id: SessionId,
}

impl View for SessionManager {
    type V = Map<SessionId, SessionInfo>;

    closed spec fn view(&self) -> Map<SessionId, SessionInfo> {
        self.sessions@
    }
}

/// What is known of a session when it is created.
pub open spec fn fresh_info(id: SessionId) -> SessionInfo {
    SessionInfo { id, cluster_name: None, db_version: None }
}

/// The default session once a session is created: the new one where it is the only one.
pub open spec fn default_after(
    sessions: Map<SessionId, SessionInfo>,
    default: SessionId,
    id: SessionId,
) -> SessionId {
    if sessions.insert(id, fresh_info(id)).dom().len() == 1 {
        id
    } else {
        default
    }
}

/// The first session becomes the default, and stays it when a second is created.
pub proof fn law_first_session_is_default(default: SessionId, a: SessionId, b: SessionId)
    ensures
        default_after(Map::empty(), default, a) == a,
        default_after(Map::empty().insert(a, fresh_info(a)), a, b) == a,
{
    let one = Map::<SessionId, SessionInfo>::empty().insert(a, fresh_info(a));
    assert(one.dom() =~= set![a]);
    if a != b {
        assert(one.insert(b, fresh_info(b)).dom() =~= set![a, b]);
        assert(set![a, b].len() == 2);
    }
}

impl SessionManager {
    /// The id of the default session; 0 stands for none.
    pub closed spec fn default_of(self) -> SessionId {
        self.default_id
    }

    /// A manager without sessions.
    pub fn new() -> (manager: SessionManager)
        ensures
            manager@ == Map::<SessionId, SessionInfo>::empty(),
            manager.default_of() == 0,
    {
        SessionManager { sessions: HashMap::new(), default_id: 0 }
    }

    /// Keeps a session that the driver has created. A session that is the only
    /// one becomes the default.
    pub fn create_session(&mut self, session_id: SessionId)
        ensures
            final(self)@ == old(self)@.insert(session_id, fresh_info(session_id)),
            final(self).default_of() == default_after(
                old(self)@,
                old(self).default_of(),
                session_id,
            ),
    {
        let info: SessionInfo = SessionInfo {
            id: session_id,
            cluster_name: None,
            db_version: None,
        };
        self.sessions.insert(session_id, info);
        if self.sessions.len() == 1 {
            self.default_id = session_id;
        }
    }

    /// Forgets a session. The default stays what it is.
    pub fn close_session(&mut self, session_id: SessionId)
        ensures
            final(self)@ == old(self)@.remove(session_id),
            final(self).default_of() == old(self).default_of(),
    {
        self.sessions.remove(&session_id);
        assert(self@ =~= old(self)@.remove(session_id));
    }

    /// The id of the default session; 0 stands for none.
    pub fn default_session(&self) -> (id: SessionId)
        ensures
            id == self.default_of(),
    {
        self.default_id
    }

    /// Makes a session the default.
    pub fn set_default_session(&mut self, session_id: SessionId)
        ensures
            final(self)@ == old(self)@,
            final(self).default_of() == session_id,
    {
        self.default_id = session_id;
    }

    /// The id of the default session, which must be there: what a statement
    /// is prepared, executed or batched on where no session is named.
    pub fn require_default(&self) -> (r: Result<SessionId, NoDefaultSession>)
        ensures
            if self.default_of() == 0 {
                r == Err::<SessionId, NoDefaultSession>(NoDefaultSession)
            } else {
                r == Ok::<SessionId, NoDefaultSession>(self.default_of())
            },
    {
        if self.default_id == 0 {
            Err(NoDefaultSession)
        } else {
            Ok(self.default_id)
        }
    }

    /// The open sessions, in no particular order.
    pub fn list_sessions(&self) -> (list: Vec<&SessionInfo>)
        ensures
            list@.unref().to_set() == self@.values(),
            list@.len() == self@.dom().len(),
    {
        let mut list: Vec<&SessionInfo> = Vec::new();
        for info in it: self.sessions.values()
            invariant
                list@ =~= it.seq().take(it.index() as int),
                it.index() == it.seq().len() ==> list@ =~= it.seq(),
                it.seq().unref().to_set() == self.sessions@.values(),
                it.seq().len() == self.sessions@.dom().len(),
        {
            list.push(info);
        }
        list
    }
}

/// A session that is created becomes the default exactly if no other is
/// there; the default stays what it is otherwise.
pub proof fn law_only_session_becomes_default(
    sessions: Map<SessionId, SessionInfo>,
    default: SessionId,
    id: SessionId,
    other: SessionId,
)
    requires
        sessions.dom().finite(),
    ensures
        (forall|k: SessionId| sessions.contains_key(k) ==> k == id) ==> default_after(
            sessions,
            default,
            id,
        ) == id,
        other != id && sessions.contains_key(other) ==> default_after(sessions, default, id)
            == default,
{
    let keys = sessions.insert(id, fresh_info(id)).dom();
    assert(keys =~= sessions.dom().insert(id));
    if forall|k: SessionId| sessions.contains_key(k) ==> k == id {
        assert(keys =~= set![id]);
    }
    if other != id && sessions.contains_key(other) && keys.len() == 1 {
        assert(keys.contains(id) && keys.contains(other));
        vstd::set::axiom_set_remove_len(keys, id);
        assert(keys.remove(id).contains(other));
        vstd::set::axiom_set_remove_len(keys.remove(id), other);
    }
}

} // verus!
