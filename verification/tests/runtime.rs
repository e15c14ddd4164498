//! What runs around the requests: streams, batches of writes, sessions, the
//! container of a driver, and the calls of a workload.

use latte_ipc::exec::workload::{
    convert_error, counts_as_failure, decide_after_call, finish_call, makes_a_call, seed_of,
    AfterCall, CallError, CallOutcome, ContextRefMut, FnRef, FnStatsCollector, FunctionRouter,
    ProgramMetadata, Returned, SessionRef, ValidationStrategy,
};
use latte_ipc::ipc::batching::{Batching, Event, Next, Phase};
use latte_ipc::ipc::docker::{is_running, stopped, DockerConfig, DockerError, DockerManager};
use latte_ipc::ipc::pending::Pending;
use latte_ipc::ipc::session_manager::SessionManager;
use latte_ipc::scripting::connect::{
    driver_container, ipc_session_config, location, preference, ConnectionConf, Preference,
};
use latte_ipc::value::{Consistency, SerialConsistency};

#[test]
fn requests_wait_on_their_streams() {
    let mut pending = Pending::new();
    assert_eq!(pending.take_stream(), 0);
    assert_eq!(pending.take_stream(), 1);
    pending.insert(0, 10);
    pending.insert(1, 11);
    assert_eq!(pending.len(), 2);
    assert_eq!(pending.remove(0), Some(10));
    assert_eq!(pending.remove(0), None);
    pending.insert(1, 12);
    assert_eq!(pending.remove(1), Some(12));
    pending.insert(5, 1);
    pending.clear();
    assert_eq!(pending.len(), 0);
    assert_eq!(pending.remove(5), None);
}

#[test]
fn streams_come_back_after_all_others() {
    let mut pending = Pending::new();
    let first = pending.take_stream();
    let mut last = first;
    for n in 1..0x1_0000u32 {
        let id = pending.take_stream();
        assert_ne!(id, first);
        if n == 0x8000 {
            assert_eq!(last, i16::MAX);
            assert_eq!(id, i16::MIN);
        }
        last = id;
    }
    assert_eq!(pending.take_stream(), first);
}

#[test]
fn writers_flush_before_they_wait() {
    let client = Batching::client();
    assert_eq!(
        client.next(Phase::Waiting, Event::Written(10)),
        Next { flush: false, phase: Phase::Collecting }
    );
    assert_eq!(
        client.next(Phase::Collecting, Event::Written(4095)),
        Next { flush: false, phase: Phase::Collecting }
    );
    assert_eq!(
        client.next(Phase::Collecting, Event::Written(4096)),
        Next { flush: true, phase: Phase::Waiting }
    );
    assert_eq!(
        Batching::handle().next(Phase::Collecting, Event::Written(32768)),
        Next { flush: true, phase: Phase::Collecting }
    );
    assert_eq!(
        client.next(Phase::Collecting, Event::Idle),
        Next { flush: true, phase: Phase::Waiting }
    );
    assert_eq!(
        client.next(Phase::Collecting, Event::WriteFailed),
        Next { flush: false, phase: Phase::Ended }
    );
    assert_eq!(
        Batching::server().next(Phase::Collecting, Event::WriteFailed),
        Next { flush: true, phase: Phase::Ended }
    );
}

#[test]
fn the_first_session_is_the_default() {
    let mut manager = SessionManager::new();
    assert_eq!(manager.default_session(), 0);
    assert!(manager.require_default().is_err());
    manager.create_session(4);
    manager.create_session(5);
    assert_eq!(manager.default_session(), 4);
    assert_eq!(manager.require_default().ok(), Some(4));
    manager.set_default_session(5);
    assert_eq!(manager.default_session(), 5);
    manager.close_session(5);
    assert_eq!(manager.list_sessions().len(), 1);
    assert_eq!(manager.list_sessions()[0].id, 4);
}

#[test]
fn the_container_is_started_with_these_arguments() {
    let mut config = DockerConfig::default();
    config.extra_envs = vec![("A".to_string(), "b".to_string())];
    let manager = DockerManager::new(config);
    assert_eq!(manager.socket_directory().ok(), Some("/tmp".to_string()));
    let args = manager.start_args(42, Some((1000, 100))).expect("the path is complete");
    assert_eq!(
        args,
        [
            "run",
            "--rm",
            "-d",
            "--name",
            "latte-driver-42",
            "-v",
            "/tmp:/sockets",
            "-e",
            "LATTE_DRIVER_SOCKET=/sockets/latte-driver.sock",
            "-e",
            "A=b",
            "--user",
            "1000:100",
            "--network=host",
            "scylladb/latte-driver:latest",
        ]
    );
}

#[test]
fn containers_that_cannot_be_started() {
    let with_path = |path: &str| {
        let mut config = DockerConfig::default();
        config.socket_path = path.to_string();
        DockerManager::new(config)
    };
    assert!(matches!(with_path("/").start_args(1, None), Err(DockerError::NoParent)));
    assert!(matches!(with_path("a/..").start_args(1, None), Err(DockerError::NoFileName)));
    let mut manager = with_path("/tmp/x.sock");
    assert!(matches!(
        manager.started(false, b"", b"no such image"),
        Err(DockerError::RunFailed(m)) if m == "no such image"
    ));
    assert!(manager.container_id().is_none());
    assert!(manager.started(true, b" abc\n", b"").is_ok());
    assert_eq!(manager.container_id(), Some("abc"));
    assert_eq!(manager.socket_path(), "/tmp/x.sock");
    assert_eq!(manager.take_container(), Some("abc".to_string()));
    assert_eq!(manager.take_container(), None);
    assert!(stopped(true, b"").is_ok());
    assert!(stopped(false, b"Error: No such container: abc").is_ok());
    assert!(matches!(
        stopped(false, b"denied \xFF"),
        Err(DockerError::StopFailed(m)) if m == "denied \u{FFFD}"
    ));
    assert!(is_running(true, b"true\n"));
    assert!(!is_running(true, b"false\n"));
    assert!(!is_running(false, b"true\n"));
}

fn connection() -> ConnectionConf {
    ConnectionConf {
        addresses: vec!["a:1".to_string(), "b:2".to_string()],
        count: 3,
        request_timeout_ms: 5000,
        consistency: Consistency::LocalQuorum,
        serial_consistency: SerialConsistency::LocalSerial,
        user: "u".to_string(),
        password: "p".to_string(),
        datacenter: Some("dc".to_string()),
        rack: None,
        ssl: false,
        ssl_peer_verification: true,
        ssl_ca_cert_file: Some("ca".to_string()),
        ssl_cert_file: None,
        ssl_key_file: None,
    }
}

#[test]
fn connections_are_configured() {
    let session = ipc_session_config(&connection());
    assert_eq!(session.contact_points.as_deref(), Some("a:1,b:2"));
    assert_eq!(session.username.as_deref(), Some("u"));
    assert_eq!(session.connections_per_shard, Some(3));
    assert_eq!(session.consistency.as_deref(), Some("LocalQuorum"));
    assert_eq!(session.ssl_ca_cert, None);
    let mut secure = connection();
    secure.ssl = true;
    let session = ipc_session_config(&secure);
    assert_eq!(session.ssl_enabled, Some(true));
    assert_eq!(session.ssl_ca_cert.as_deref(), Some("ca"));
    assert!(matches!(preference(&connection()), Preference::Datacenter(dc) if dc == "dc"));
    assert_eq!(location(&connection()), ("dc".to_string(), String::new()));
    let container = driver_container("image", "/tmp/s.sock");
    assert_eq!(container.image, "image");
    assert_eq!(container.socket_path, "/tmp/s.sock");
}

#[test]
fn functions_are_known_by_their_hashes() {
    let a = FnRef::new("run");
    let b = FnRef::new("run");
    let c = FnRef::new("load");
    assert_eq!(a.hash, b.hash);
    assert_ne!(a.hash, c.hash);
    assert_eq!(a.copy().name, "run");
    let mut meta = ProgramMetadata::new();
    assert!(!meta.has_load());
    meta.register(c);
    assert!(meta.has_load());
    assert!(!meta.has_schema());
    assert!(!meta.has_prepare());
    assert!(!meta.has_erase());
    assert!(!meta.has_function(&a));
}

#[test]
fn calls_are_counted() {
    let run = FnRef::new("run");
    let mut stats = FnStatsCollector::new(vec![FnRef::new("load"), FnRef::new("run")], 0u64);
    let retry = ValidationStrategy::Retry;
    let next = finish_call(&mut stats, &run, 10, CallOutcome::Signalled, retry, 0, 2);
    assert_eq!(next, AfterCall::ReportAndRetry);
    let next = finish_call(&mut stats, &run, 20, CallOutcome::Completed, retry, 1, 2);
    assert_eq!(next, AfterCall::Done);
    assert_eq!(stats.fn_stats[0].call_count, 0);
    assert_eq!(stats.fn_stats[1].call_count, 2);
    assert_eq!(stats.fn_stats[1].error_count, 1);
    assert_eq!(stats.fn_stats[1].call_latency, [10, 20]);
    let taken = stats.take(7);
    assert_eq!(taken.start_time, 0);
    assert_eq!(taken.fn_stats[1].call_count, 2);
    assert_eq!(stats.start_time, 7);
    assert_eq!(stats.fn_stats[1].call_count, 0);
    stats.operation_completed(&run, 1);
    stats.operation_failed(&run, 2);
    assert_eq!(stats.fn_stats[1].call_count, 2);
    stats.reset(9);
    assert_eq!(stats.start_time, 9);
    assert_eq!(stats.fn_stats[1].error_count, 0);
    assert_eq!(stats.functions()[1].name, "run");
}

/// How often a function is called, and how the cycle ends.
fn cycle(outcomes: &[CallOutcome], strategy: ValidationStrategy) -> (usize, AfterCall) {
    let mut calls = 0;
    loop {
        let limit = outcomes.len() as u64;
        let next = decide_after_call(outcomes[calls], strategy, calls as u64, limit);
        calls += 1;
        if next != AfterCall::ReportAndRetry {
            return (calls, next);
        }
    }
}

#[test]
fn failures_are_repeated_to_the_limit() {
    let failing = [CallOutcome::Signalled; 4];
    assert_eq!(cycle(&failing, ValidationStrategy::Retry), (4, AfterCall::ReportAndGiveUp));
    assert_eq!(cycle(&failing[..1], ValidationStrategy::Retry), (1, AfterCall::ReportAndGiveUp));
    assert_eq!(cycle(&failing, ValidationStrategy::FailFast), (1, AfterCall::Abort));
    assert_eq!(cycle(&failing, ValidationStrategy::Ignore), (1, AfterCall::ReportAndFinish));
    let signalled = CallOutcome::Signalled;
    let mends = [signalled, signalled, CallOutcome::Completed, signalled];
    assert_eq!(cycle(&mends, ValidationStrategy::Retry), (3, AfterCall::Done));
    let breaks = [signalled, CallOutcome::Failed, signalled];
    assert_eq!(cycle(&breaks, ValidationStrategy::Retry), (2, AfterCall::Abort));
    assert!(!makes_a_call(0));
}

#[test]
fn failures_are_handled_as_asked() {
    let after = |o: CallOutcome, s: ValidationStrategy, n: u64| decide_after_call(o, s, n, 3);
    assert_eq!(
        after(CallOutcome::Overloaded, ValidationStrategy::FailFast, 0),
        AfterCall::Done
    );
    assert_eq!(after(CallOutcome::Failed, ValidationStrategy::Ignore, 0), AfterCall::Abort);
    assert_eq!(
        after(CallOutcome::Signalled, ValidationStrategy::FailFast, 0),
        AfterCall::Abort
    );
    assert_eq!(
        after(CallOutcome::Signalled, ValidationStrategy::Ignore, 0),
        AfterCall::ReportAndFinish
    );
    assert_eq!(
        after(CallOutcome::Signalled, ValidationStrategy::Retry, 1),
        AfterCall::ReportAndRetry
    );
    assert_eq!(
        after(CallOutcome::Signalled, ValidationStrategy::Retry, 2),
        AfterCall::ReportAndGiveUp
    );
    assert!(counts_as_failure(CallOutcome::Overloaded));
    assert!(!counts_as_failure(CallOutcome::Completed));
    assert!(makes_a_call(1));
}

#[test]
fn results_of_calls() {
    let plain: Result<u8, CallError<u8>> = convert_error("f", Returned::Plain(1));
    assert!(matches!(plain, Ok(1)));
    let success: Result<u8, CallError<u8>> = convert_error("f", Returned::Success(2));
    assert!(matches!(success, Ok(2)));
    let cassandra: Result<u8, CallError<u8>> = convert_error("f", Returned::Cassandra(3));
    assert!(matches!(cassandra, Err(CallError::Cassandra(3))));
    let failure: Result<u8, CallError<u8>> =
        convert_error("f", Returned::Failure("why".to_string()));
    assert!(matches!(
        failure,
        Err(CallError::FunctionResult(f, why)) if f == "f" && why == "why"
    ));
}

#[test]
fn functions_are_chosen() {
    let router = FunctionRouter::new(vec![FnRef::new("a")]);
    assert!(router.is_single_function());
    assert_eq!(router.get_single().name, "a");
    let router = FunctionRouter::new(vec![FnRef::new("a"), FnRef::new("b")]);
    assert!(!router.is_single_function());
    assert_eq!(router.select(1).name, "b");
    assert_eq!(seed_of(-1), u64::MAX);
    assert_eq!(seed_of(5), 5);
}

#[test]
fn contexts_are_borrowed() {
    let mut context = 5;
    assert_eq!(*SessionRef::new(&context).context(), 5);
    *ContextRefMut::new(&mut context).context = 6;
    assert_eq!(context, 6);
}
