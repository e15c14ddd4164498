//! The container that the driver adapter runs in: how it is started, stopped
//! and asked for its state.

use crate::driver_adapter::config::{parent_of, parent_path};
use crate::number::{decimal, decimal_text};
use crate::text::{
    both, contains_text, from_utf8_lossy, joined, lemma_texts_push, occurs, same_text, texts,
    trim, trimmed, utf8_lossy,
};
use vstd::prelude::*;
use vstd::string::*;

verus! {

/// How the container is run.
#[derive(Debug)]
pub struct DockerConfig {
    /// The image of the driver.
    pub image: String,
    /// The path of the Unix domain socket.
    pub socket_path: String,
    /// The name of the container; without one it is named after the process.
    pub container_name: Option<String>,
    /// The environment variable that holds the path of the socket in the container.
    pub socket_env_name: String,
    /// More environment variables of the container.
    pub extra_envs: Vec<(String, String)>,
}

impl Default for DockerConfig {
    fn default() -> (config: DockerConfig)
        ensures
            config.image@ == "scylladb/latte-driver:latest"@,
            config.socket_path@ == "/tmp/latte-driver.sock"@,
            config.container_name is None,
            config.socket_env_name@ == "LATTE_DRIVER_SOCKET"@,
            config.extra_envs@.len() == 0,
    {
        DockerConfig {
            image: "scylladb/latte-driver:latest".to_owned(),
            socket_path: "/tmp/latte-driver.sock".to_owned(),
            container_name: None,
            socket_env_name: "LATTE_DRIVER_SOCKET".to_owned(),
            extra_envs: Vec::new(),
        }
    }
}

/// Why the container cannot be started or stopped.
#[derive(Debug)]
pub enum DockerError {
    /// The path of the socket has no directory.
    NoParent,
    /// The path of the socket has no file name.
    NoFileName,
    /// The container did not start, for this reason.
    RunFailed(String),
    /// The container did not stop, for this reason.
    StopFailed(String),
}

/// The last component that `std::path::Path::file_name` gives for a path.
pub uninterp spec fn file_name_of(path: Seq<char>) -> Option<Seq<char>>;

/// `std::path::Path::file_name`: the last component of a path, if it is a
/// normal one. For a Unix path this depends on the path alone and has a name.
#[verifier::external_body]
pub(crate) fn file_name(path: &str) -> (r: Option<String>)
    ensures
        match r {
            Some(name) => file_name_of(path@) == Some(name@),
            None => file_name_of(path@) is None,
        },
{
    let name = std::path::Path::new(path).file_name();
    name.map(|n| n.to_string_lossy().into_owned())
}

/// The arguments that set environment variables.
pub open spec fn env_args(envs: Seq<(String, String)>) -> Seq<Seq<char>>
    decreases envs.len(),
{
    if envs.len() == 0 {
        Seq::empty()
    } else {
        env_args(envs.drop_last()) + seq!["-e"@, envs.last().0@ + "="@ + envs.last().1@]
    }
}

/// The name of the container.
pub open spec fn name_of(config: DockerConfig, pid: u32) -> Seq<char> {
    match config.container_name {
        Some(name) => name@,
        None => "latte-driver-"@ + decimal(pid as nat),
    }
}

/// The arguments that make the container run as a user.
pub open spec fn user_args(user: Option<(u32, u32)>) -> Seq<Seq<char>> {
    match user {
        Some((uid, gid)) => seq!["--user"@, decimal(uid as nat) + ":"@ + decimal(gid as nat)],
        None => Seq::empty(),
    }
}

/// The arguments of the command that starts the container.
pub open spec fn run_command(
    config: DockerConfig,
    directory: Seq<char>,
    file: Seq<char>,
    pid: u32,
    user: Option<(u32, u32)>,
) -> Seq<Seq<char>> {
    seq![
        "run"@,
        "--rm"@,
        "-d"@,
        "--name"@,
        name_of(config, pid),
        "-v"@,
        directory + ":/sockets"@,
        "-e"@,
        config.socket_env_name@ + "=/sockets/"@ + file,
    ] + env_args(config.extra_envs@) + user_args(user) + seq!["--network=host"@, config.image@]
}

/// Appends a text.
fn push_text(list: &mut Vec<String>, text: String)
    ensures
        texts(final(list)@) == texts(old(list)@).push(text@),
{
    proof {
        lemma_texts_push(list@, text);
    }
    list.push(text);
}

/// Appends the arguments that set environment variables.
fn push_envs(list: &mut Vec<String>, envs: &Vec<(String, String)>)
    ensures
        texts(final(list)@) == texts(old(list)@) + env_args(envs@),
{
    let mut i: usize = 0;
    assert(texts(list@) =~= texts(old(list)@) + env_args(envs@.take(0)));
    while i < envs.len()
        invariant
            i <= envs@.len(),
            texts(list@) == texts(old(list)@) + env_args(envs@.take(i as int)),
        decreases envs@.len() - i,
    {
        push_text(list, "-e".to_owned());
        push_text(list, joined(envs[i].0.as_str(), "=", envs[i].1.as_str()));
        proof {
            let now = envs@.take(i + 1);
            assert(now.drop_last() =~= envs@.take(i as int));
            assert(texts(list@) =~= texts(old(list)@) + env_args(now));
        }
        i = i + 1;
    }
    assert(envs@.take(i as int) =~= envs@);
}

/// What the bytes of an output spell, without the white space around it.
fn output_text(output: &[u8]) -> (r: String)
    ensures
        r@ == trim(utf8_lossy(output@)),
{
    let text: String = from_utf8_lossy(output);
    trimmed(text.as_str())
}

/// The container of the driver.
pub struct DockerManager {
    config: DockerConfig,
    id: Option<String>,
}

impl DockerManager {
    /// How the container is run.
    pub closed spec fn settings(self) -> DockerConfig {
        self.config
    }

    /// The id of the container, while it runs.
    pub closed spec fn running(self) -> Option<Seq<char>> {
        match self.id {
            Some(id) => Some(id@),
            None => None,
        }
    }

    /// A container that is not started.
    pub fn new(config: DockerConfig) -> (manager: DockerManager)
        ensures
            manager.settings() == config,
            manager.running() is None,
    {
        DockerManager { config, id: None }
    }

    /// The directory of the socket, which must be there before the container starts.
    pub fn socket_directory(&self) -> (r: Result<String, DockerError>)
        ensures
            match parent_of(self.settings().socket_path@) {
                Some(directory) => r is Ok && r->Ok_0@ == directory,
                None => r matches Err(DockerError::NoParent),
            },
    {
        match parent_path(self.config.socket_path.as_str()) {
            Some(directory) => Ok(directory),
            None => Err(DockerError::NoParent),
        }
    }

    /// The arguments of the command that starts the container, for a process
    /// with an id and, where they are known, the ids of its user and group.
    pub fn start_args(&self, pid: u32, user: Option<(u32, u32)>) -> (r: Result<
        Vec<String>,
        DockerError,
    >)
        ensures
            match (
                parent_of(self.settings().socket_path@),
                file_name_of(self.settings().socket_path@),
            ) {
                (None, _) => r matches Err(DockerError::NoParent),
                (_, None) => r matches Err(DockerError::NoFileName),
                (Some(directory), Some(file)) => r is Ok && texts(r->Ok_0@) == run_command(
                    self.settings(),
                    directory,
                    file,
                    pid,
                    user,
                ),
            },
    {
        let directory: String = match self.socket_directory() {
            Ok(directory) => directory,
            Err(e) => {
                return Err(e);
            },
        };
        let file: String = match file_name(self.config.socket_path.as_str()) {
            Some(file) => file,
            None => {
                return Err(DockerError::NoFileName);
            },
        };
        let args: Vec<String> = command_args(
            &self.config,
            directory.as_str(),
            file.as_str(),
            pid,
            user,
        );
        Ok(args)
    }

    /// Takes up what the command that starts the container came back with.
    pub fn started(&mut self, success: bool, stdout: &[u8], stderr: &[u8]) -> (r: Result<
        (),
        DockerError,
    >)
        ensures
            final(self).settings() == old(self).settings(),
            success ==> r is Ok && final(self).running() == Some(trim(utf8_lossy(stdout@))),
            !success ==> final(self).running() == old(self).running() && (r matches Err(
                DockerError::RunFailed(text),
            ) && text@ == utf8_lossy(stderr@)),
    {
        if !success {
            return Err(DockerError::RunFailed(from_utf8_lossy(stderr)));
        }
        self.id = Some(output_text(stdout));
        Ok(())
    }

    /// Forgets the container that runs, and gives its id: that of the container to stop.
    pub fn take_container(&mut self) -> (r: Option<String>)
        ensures
            match r {
                Some(id) => old(self).running() == Some(id@),
                None => old(self).running() is None,
            },
            final(self).running() is None,
            final(self).settings() == old(self).settings(),
    {
        let mut id: Option<String> = None;
        std::mem::swap(&mut self.id, &mut id);
        id
    }

    /// The path of the socket.
    pub fn socket_path(&self) -> (path: &String)
        ensures
            path@ == self.settings().socket_path@,
    {
        &self.config.socket_path
    }

    /// The id of the container, while it runs.
    pub fn container_id(&self) -> (r: Option<&str>)
        ensures
            match r {
                Some(id) => self.running() == Some(id@),
                None => self.running() is None,
            },
    {
        match &self.id {
            Some(id) => Some(id.as_str()),
            None => None,
        }
    }
}

/// The arguments of the command that starts the container.
pub fn command_args(
    config: &DockerConfig,
    directory: &str,
    file: &str,
    pid: u32,
    user: Option<(u32, u32)>,
) -> (args: Vec<String>)
    ensures
        texts(args@) == run_command(*config, directory@, file@, pid, user),
{
    let name: String = match &config.container_name {
        Some(name) => name.clone(),
        None => both("latte-driver-", decimal_text(pid as u64).as_str()),
    };
    let mut args: Vec<String> = Vec::new();
    assert(texts(args@) =~= Seq::empty());
    push_text(&mut args, "run".to_owned());
    push_text(&mut args, "--rm".to_owned());
    push_text(&mut args, "-d".to_owned());
    push_text(&mut args, "--name".to_owned());
    push_text(&mut args, name);
    push_text(&mut args, "-v".to_owned());
    push_text(&mut args, both(directory, ":/sockets"));
    push_text(&mut args, "-e".to_owned());
    push_text(&mut args, joined(config.socket_env_name.as_str(), "=/sockets/", file));
    push_envs(&mut args, &config.extra_envs);
    if let Some((uid, gid)) = user {
        push_text(&mut args, "--user".to_owned());
        push_text(
            &mut args,
            joined(decimal_text(uid as u64).as_str(), ":", decimal_text(gid as u64).as_str()),
        );
    }
    push_text(&mut args, "--network=host".to_owned());
    push_text(&mut args, config.image.clone());
    assert(texts(args@) =~= run_command(*config, directory@, file@, pid, user));
    args
}

/// Takes up what the command that stops the container came back with. A
/// container that is gone already is no failure.
pub fn stopped(success: bool, stderr: &[u8]) -> (r: Result<(), DockerError>)
    ensures
        r is Ok <==> success || occurs(utf8_lossy(stderr@), "No such container"@),
        r matches Err(e) ==> (e matches DockerError::StopFailed(text) && text@ == utf8_lossy(
            stderr@,
        )),
{
    if success {
        return Ok(());
    }
    let text: String = from_utf8_lossy(stderr);
    if contains_text(text.as_str(), "No such container") {
        return Ok(());
    }
    Err(DockerError::StopFailed(text))
}

/// Whether a container runs, by what the command that inspects it came back with.
pub fn is_running(success: bool, stdout: &[u8]) -> (r: bool)
    ensures
        r == (success && trim(utf8_lossy(stdout@)) == "true"@),
{
    if !success {
        return false;
    }
    let text: String = output_text(stdout);
    same_text(text.as_str(), "true")
}

/// The arguments from a place on hand over a variable: a flag, and then its name and its value.
pub open spec fn hands_over(args: Seq<Seq<char>>, at: int, env: (String, String)) -> bool {
    args[at] == "-e"@ && args[at + 1] == env.0@ + "="@ + env.1@
}

/// Every variable of the environment is handed over, in its order.
pub proof fn law_environment_is_handed_over(envs: Seq<(String, String)>)
    ensures
        env_args(envs).len() == 2 * envs.len(),
        forall|i: int|
            0 <= i < envs.len() ==> hands_over(env_args(envs), 2 * i, #[trigger] envs[i]),
    decreases envs.len(),
{
    if envs.len() > 0 {
        let init = envs.drop_last();
        law_environment_is_handed_over(init);
        let args = env_args(envs);
        let before = env_args(init);
        let env = envs.last();
        let last = seq!["-e"@, env.0@ + "="@ + env.1@];
        assert(args == before + last);
        assert forall|i: int| 0 <= i < envs.len() implies hands_over(
            args,
            2 * i,
            #[trigger] envs[i],
        ) by {
            if i < envs.len() - 1 {
                assert(hands_over(before, 2 * i, init[i]));
                assert(args[2 * i] == before[2 * i]);
                assert(args[2 * i + 1] == before[2 * i + 1]);
            } else {
                assert(args[2 * i] == last[0]);
                assert(args[2 * i + 1] == last[1]);
            }
        }
    }
}

/// A container is started in the background under its name, with the
/// directory of the socket, the socket itself, its environment and its user;
/// its image is the last argument.
pub proof fn law_container_is_started(
    config: DockerConfig,
    directory: Seq<char>,
    file: Seq<char>,
    pid: u32,
    user: Option<(u32, u32)>,
)
    ensures
        ({
            let args = run_command(config, directory, file, pid, user);
            let n = 9 + 2 * config.extra_envs@.len() as int;
            &&& args.len() == n + 2 + if user is Some {
                2int
            } else {
                0
            }
            &&& args[0] == "run"@ && args[1] == "--rm"@ && args[2] == "-d"@
            &&& args[3] == "--name"@ && args[4] == (match config.container_name {
                Some(name) => name@,
                None => "latte-driver-"@ + decimal(pid as nat),
            })
            &&& args[5] == "-v"@ && args[6] == directory + ":/sockets"@
            &&& args[7] == "-e"@ && args[8] == config.socket_env_name@ + "=/sockets/"@ + file
            &&& forall|i: int|
                0 <= i < config.extra_envs@.len() ==> hands_over(
                    args,
                    9 + 2 * i,
                    #[trigger] config.extra_envs@[i],
                )
            &&& user matches Some((uid, gid)) ==> args[n] == "--user"@ && args[n + 1] == decimal(
                uid as nat,
            ) + ":"@ + decimal(gid as nat)
            &&& args[args.len() - 2] == "--network=host"@
            &&& args.last() == config.image@
        }),
{
    let envs = config.extra_envs@;
    law_environment_is_handed_over(envs);
    let args = run_command(config, directory, file, pid, user);
    let vars = env_args(envs);
    assert forall|i: int| 0 <= i < envs.len() implies hands_over(
        args,
        9 + 2 * i,
        #[trigger] envs[i],
    ) by {
        assert(hands_over(vars, 2 * i, envs[i]));
        assert(args[9 + 2 * i] == vars[2 * i]);
        assert(args[10 + 2 * i] == vars[2 * i + 1]);
    }
}

} // verus!
