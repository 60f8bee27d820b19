use sandboxfs::dispatch::cleanup_result;
use sandboxfs::dispatch::reply;
use sandboxfs::dispatch::should_stop;
use sandboxfs::dispatch::socket_is_active;
use sandboxfs::dispatch::OutsideTask;
use sandboxfs::dispatch::Step;
use sandboxfs::error::Error;
use sandboxfs::grant::ReadWriteGrantLifetime;
use sandboxfs::grant::ReadWriteGrantLifetimeRequest;
use sandboxfs::grant::ReadWriteGrantOptions;
use sandboxfs::grant_allow::GrantEvidence;
use sandboxfs::host::HostPath;
use sandboxfs::ipc::Request;
use sandboxfs::ipc::Response;
use sandboxfs::log::format_log_line;
use sandboxfs::log::LogTime;
use sandboxfs::metadata::MetadataObjectKey;
use sandboxfs::metadata::NO_LAYER;
use sandboxfs::operation::MetadataOperation;
use sandboxfs::operation::PendingOperationKind;
use sandboxfs::operation::ReadWriteOperation;
use sandboxfs::path::SandboxPath;
use sandboxfs::pending::PendingDecision;
use sandboxfs::pending::PendingMetadataRequest;
use sandboxfs::pending::PendingReadWriteRequest;
use sandboxfs::pending::PendingRequest;
use sandboxfs::pending::RequesterIdentity;
use sandboxfs::policy::PolicyPattern;
use sandboxfs::policy::ProtectionKind;
use sandboxfs::process_info::ProcessIdentityEvidence;
use sandboxfs::runtime::RuntimePaths;
use sandboxfs::sandbox::AttachMount;
use sandboxfs::sandbox::TrustedPathScope;
use sandboxfs::session::answer;
use sandboxfs::session::failure;
use sandboxfs::session::validate_name;
use sandboxfs::session::Notice;
use sandboxfs::session::Outcome;
use sandboxfs::session::SessionState;
use sandboxfs::time::Timestamp;

const TIME: LogTime = LogTime {
    year: 2026,
    month: 6,
    day: 29,
    hour: 13,
    minute: 55,
    second: 12,
    microsecond: 42,
};

const REQUESTER: ProcessIdentityEvidence = ProcessIdentityEvidence {
    pid: 4321,
    start_time: 99,
};

/// A session with a log and waiters that are kept in memory.
struct Host {
    session: SessionState,
    log: String,
    log_stopped: bool,
    notices: Vec<Notice>,
    tree: Option<Vec<ProcessIdentityEvidence>>,
    identity: Option<ProcessIdentityEvidence>,
}

impl Host {
    fn new(name: &str) -> Host {
        let runtime = RuntimePaths::for_tests(HostPath::new("/run/test"), None);
        Host {
            session: SessionState::new_session(runtime, name).unwrap(),
            log: String::new(),
            log_stopped: false,
            notices: Vec::new(),
            tree: None,
            identity: None,
        }
    }

    fn finish(&mut self, outcome: Outcome) -> Response {
        assert_eq!(outcome.log_path.as_str(), "/run/test/a.log");
        let mut failed = None;
        for event in &outcome.events {
            if self.log_stopped {
                failed = Some("log writer stopped".to_string());
            } else {
                self.log.push_str(&format_log_line(TIME, event.id, &event.body));
                self.log.push('\n');
            }
        }
        for notice in &outcome.notices {
            self.notices.push(*notice);
        }
        answer(outcome.response, failed)
    }

    fn outside(&mut self, task: OutsideTask) -> Result<Response, Error> {
        match task {
            OutsideTask::Shutdown { name } => {
                let start = self.session.destroy_begin(&name)?;
                for mountpoint in &start.mountpoints {
                    self.detach(&name, mountpoint)?;
                }
                let response = self.finish(start.canceled);
                self.session.destroy_commit(&name);
                Ok(response)
            }
            OutsideTask::Detach { name, mountpoint } => {
                self.detach(&name, &HostPath::new(&mountpoint))
            }
            OutsideTask::Mount { name, local, on_fs } => {
                let outcome = self
                    .session
                    .mount_layer(&name, HostPath::new(&local), on_fs)?;
                Ok(self.finish(outcome))
            }
            OutsideTask::CancelView { name, mountpoint } => {
                let outcome = self
                    .session
                    .cancel_mountpoint(&name, &HostPath::new(&mountpoint))?;
                Ok(self.finish(outcome))
            }
            OutsideTask::AllowWithGrant {
                name, id, options, ..
            } => {
                let evidence = GrantEvidence {
                    now: Timestamp {
                        secs: 1000,
                        nanos: 0,
                    },
                    tree: self.tree.take(),
                    identity: self.identity,
                };
                let outcome = self
                    .session
                    .allow_read_write_grant(&name, id, options, evidence)?;
                Ok(self.finish(outcome))
            }
            other => panic!("unexpected {other:?}"),
        }
    }

    fn detach(&mut self, name: &str, mountpoint: &HostPath) -> Result<Response, Error> {
        let start = self.session.detach_begin(name, mountpoint)?;
        self.finish(start.canceled);
        start.mounted?;
        let outcome = self
            .session
            .detach_commit(name, mountpoint, start.attach_id, start.log_path);
        Ok(self.finish(outcome))
    }

    fn handle(&mut self, request: Request) -> Response {
        match self.session.handle(request) {
            Step::Reply { result } => reply(result),
            Step::Finish { result } => match result {
                Ok(outcome) => self.finish(outcome),
                Err(error) => failure(&error),
            },
            Step::Outside { task } => {
                let result = self.outside(task);
                reply(result)
            }
        }
    }

    fn decided(&self, id: u64) -> Option<PendingDecision> {
        self.notices
            .iter()
            .find(|notice| notice.id == id)
            .map(|notice| notice.decision)
    }

    fn assert_no_pending_request(&self) {
        assert!(!self.session.registry.pending.contains_key(&1));
        assert!(!self.session.registry.pending_waiters.contains(&1));
    }

    fn assert_no_pending_read_write_request(&self) {
        assert!(!self.session.registry.pending_read_write.contains_key(&1));
        assert!(!self.session.registry.pending_waiters.contains(&1));
    }
}

fn at(text: &str) -> SandboxPath {
    SandboxPath::new(text).unwrap()
}

fn chmod_request(id: u64, attach_id: Option<u64>) -> PendingMetadataRequest {
    PendingMetadataRequest {
        id,
        sandbox: "a".to_string(),
        attach_id,
        operation: MetadataOperation::Chmod {
            path: at("/data/file"),
            mode: 0o444,
        },
        object: MetadataObjectKey {
            layer_id: 1,
            relative_path: "file".to_string(),
        },
        kinds: vec![PendingOperationKind::Mode],
        pid: 123,
        uid: 1000,
        gid: 1000,
        description: "path=/data/file SETATTR mode=0444".to_string(),
    }
}

fn read_request(id: u64, path: &str, pid: u32) -> PendingReadWriteRequest {
    PendingReadWriteRequest::new(
        id,
        "a".to_string(),
        ReadWriteOperation::ReadFile { path: at(path) },
        pid,
        1000,
        1000,
    )
}

fn session_with_pending_request() -> Host {
    let mut host = Host::new("a");
    let registry = &mut host.session.registry;
    registry.next_operation_id = 2;
    registry.insert_pending_request(chmod_request(1, None));
    registry.pending_waiters.insert(1);
    host
}

fn session_with_pending_read_write_request() -> Host {
    let mut host = Host::new("a");
    let registry = &mut host.session.registry;
    registry.next_operation_id = 2;
    registry.insert_pending_read_write_request(
        read_request(1, "/data/file", 4321).with_process_identity(Some(REQUESTER)),
    );
    registry.pending_waiters.insert(1);
    host
}

fn allow(id: u64, do_nothing: bool, grant: Option<ReadWriteGrantOptions>) -> Request {
    Request::Allow {
        name: "a".to_string(),
        id,
        do_nothing,
        grant,
    }
}

fn one_shot() -> Option<ReadWriteGrantOptions> {
    Some(ReadWriteGrantOptions {
        path: None,
        lifetime: ReadWriteGrantLifetimeRequest::OneShot,
        tree: false,
    })
}

fn for_a_minute(path: Option<SandboxPath>, tree: bool) -> Option<ReadWriteGrantOptions> {
    Some(ReadWriteGrantOptions {
        path,
        lifetime: ReadWriteGrantLifetimeRequest::Duration { seconds: 60 },
        tree,
    })
}

#[test]
fn new_session_contains_named_sandbox() {
    let host = Host::new("a");
    assert!(host
        .session
        .registry
        .sandboxes
        .contains_key(&"a".to_string()));
}

#[test]
fn names_are_checked() {
    for name in ["", "a/b", "a\0"] {
        assert_eq!(
            validate_name(name).unwrap_err().message(),
            format!("invalid sandbox name: {name}")
        );
    }
    assert!(validate_name("demo-1").is_ok());
    let runtime = RuntimePaths::for_tests(HostPath::new("/run/test"), None);
    assert!(SessionState::new_session(runtime, "a/b").is_err());
}

#[test]
fn detach_unknown_mountpoint_fails() {
    let mut host = Host::new("a");
    match host.handle(Request::Detach {
        name: "a".to_string(),
        mountpoint: "/tmp/m".to_string(),
    }) {
        Response::Error { message } => {
            assert_eq!(message, "mountpoint is not attached to sandbox a: /tmp/m");
        }
        other => panic!("unexpected {other:?}"),
    }
}

#[test]
fn destroy_unknown_sandbox_fails() {
    let mut host = Host::new("a");
    match host.handle(Request::Shutdown {
        name: "b".to_string(),
    }) {
        Response::Error { message } => assert!(message.contains("sandbox not found")),
        other => panic!("unexpected {other:?}"),
    }
}

#[test]
fn allow_notifies_waiter_even_if_decision_log_fails() {
    let mut host = session_with_pending_request();
    host.log_stopped = true;
    match host.handle(allow(1, true, None)) {
        Response::Error { message } => assert!(message.contains("log writer stopped")),
        other => panic!("unexpected {other:?}"),
    }
    assert_eq!(host.decided(1), Some(PendingDecision::DoNothing));
    host.assert_no_pending_request();
}

#[test]
fn deny_notifies_waiter_even_if_decision_log_fails() {
    let mut host = session_with_pending_request();
    host.log_stopped = true;
    match host.handle(Request::Deny {
        name: "a".to_string(),
        id: 1,
    }) {
        Response::Error { message } => assert!(message.contains("log writer stopped")),
        other => panic!("unexpected {other:?}"),
    }
    assert_eq!(host.decided(1), Some(PendingDecision::Deny));
    host.assert_no_pending_request();
}

#[test]
fn allow_logs_fresh_decision_id_and_request_id() {
    let mut host = session_with_pending_request();
    assert!(matches!(host.handle(allow(1, false, None)), Response::Done));
    assert!(host.log.contains(" id=2 decision request=1 ALLOW"));
    assert_eq!(host.decided(1), Some(PendingDecision::Apply));
}

#[test]
fn allow_do_nothing_logs_fresh_decision_id_and_request_id() {
    let mut host = session_with_pending_request();
    assert!(matches!(host.handle(allow(1, true, None)), Response::Done));
    assert!(host.log.contains(" id=2 decision request=1 ALLOW_DO_NOTHING"));
    assert_eq!(host.decided(1), Some(PendingDecision::DoNothing));
}

#[test]
fn deny_logs_fresh_decision_id_and_request_id() {
    let mut host = session_with_pending_request();
    assert!(matches!(
        host.handle(Request::Deny {
            name: "a".to_string(),
            id: 1
        }),
        Response::Done
    ));
    assert!(host.log.contains(" id=2 decision request=1 DENY"));
    assert_eq!(host.decided(1), Some(PendingDecision::Deny));
}

#[test]
fn pending_lists_metadata_and_read_write_requests_sorted_by_id() {
    let mut host = session_with_pending_request();
    host.session
        .registry
        .insert_pending_read_write_request(read_request(3, "/data/file", 123));
    match host.handle(Request::Pending {
        name: "a".to_string(),
    }) {
        Response::Pending { items } => {
            assert_eq!(
                items.iter().map(PendingRequest::id).collect::<Vec<_>>(),
                vec![1, 3]
            );
            assert!(matches!(items[0], PendingRequest::Metadata(_)));
            assert!(matches!(items[1], PendingRequest::ReadWrite(_)));
            assert_eq!(items[1].description(), "path=/data/file READ file");
        }
        other => panic!("unexpected {other:?}"),
    }
}

#[test]
fn allow_logs_and_notifies_read_write_request() {
    let mut host = session_with_pending_read_write_request();
    assert!(matches!(host.handle(allow(1, false, None)), Response::Done));
    assert!(host.log.contains(" id=2 decision request=1 ALLOW"));
    assert_eq!(host.decided(1), Some(PendingDecision::Apply));
    host.assert_no_pending_read_write_request();
}

#[test]
fn allow_do_nothing_logs_and_notifies_read_write_request() {
    let mut host = session_with_pending_read_write_request();
    assert!(matches!(host.handle(allow(1, true, None)), Response::Done));
    assert!(host.log.contains(" id=2 decision request=1 ALLOW_DO_NOTHING"));
    assert_eq!(host.decided(1), Some(PendingDecision::DoNothing));
    host.assert_no_pending_read_write_request();
}

#[test]
fn grant_options_reject_metadata_requests_without_consuming_them() {
    let mut host = session_with_pending_request();
    match host.handle(allow(1, false, one_shot())) {
        Response::Error { message } => assert!(message.contains("read/write grant options")),
        other => panic!("unexpected {other:?}"),
    }
    assert_eq!(host.decided(1), None);
    assert!(host.session.registry.pending.contains_key(&1));
}

#[test]
fn grant_options_exclude_do_nothing() {
    let mut host = session_with_pending_read_write_request();
    assert!(matches!(
        host.handle(allow(1, true, one_shot())),
        Response::Error { .. }
    ));
    match host.handle(allow(
        1,
        false,
        Some(ReadWriteGrantOptions {
            path: None,
            lifetime: ReadWriteGrantLifetimeRequest::Duration { seconds: 0 },
            tree: false,
        }),
    )) {
        Response::Error { message } => assert_eq!(message, "duration must be greater than zero"),
        other => panic!("unexpected {other:?}"),
    }
    assert!(host.session.registry.pending_read_write.contains_key(&1));
}

#[test]
fn read_write_one_shot_grant_consumes_selected_when_it_is_earliest_match() {
    let mut host = session_with_pending_read_write_request();
    assert!(matches!(
        host.handle(allow(1, false, one_shot())),
        Response::Done
    ));
    assert!(host.log.contains(" id=2 decision request=1 ALLOW"));
    assert!(host.log.contains(
        " grant-created grant=3 kind=READ path=/data/file subject=exact subject_count=1 lifetime=one-shot"
    ));
    assert!(host.log.contains(" grant-consumed grant=3 lifetime=one-shot"));
    assert_eq!(host.decided(1), Some(PendingDecision::Apply));
    assert!(host.session.registry.pending_read_write.is_empty());
    assert!(host.session.registry.read_write_grants.is_empty());
}

#[test]
fn read_write_reusable_grant_downgrades_without_requester_identity() {
    let mut host = session_with_pending_read_write_request();
    {
        let pending = host
            .session
            .registry
            .pending_read_write
            .get_mut(&1)
            .unwrap();
        pending.pid = u32::MAX;
        pending.process_identity = None;
    }
    match host.handle(allow(1, false, for_a_minute(None, false))) {
        Response::Warning { message } => {
            assert!(message.contains("requester identity unavailable"));
        }
        other => panic!("unexpected {other:?}"),
    }
    assert!(host
        .log
        .contains("decision request=1 ALLOW downgraded=grantless"));
    assert!(host.log.contains("requester identity unavailable"));
    assert_eq!(host.decided(1), Some(PendingDecision::Apply));
    assert!(host.session.registry.pending_read_write.is_empty());
    assert!(host.session.registry.read_write_grants.is_empty());
}

#[test]
fn read_write_one_shot_grant_releases_earliest_matching_pending_request_only() {
    let mut host = session_with_pending_read_write_request();
    {
        let registry = &mut host.session.registry;
        registry.insert_pending_read_write_request(
            read_request(2, "/data/file", 4321).with_process_identity(Some(REQUESTER)),
        );
        registry.pending_waiters.insert(2);
        registry.next_operation_id = 3;
    }
    assert!(matches!(
        host.handle(allow(2, false, one_shot())),
        Response::Done
    ));
    assert_eq!(host.decided(1), Some(PendingDecision::Apply));
    assert_eq!(host.decided(2), None);
    let registry = &host.session.registry;
    assert!(!registry.pending_read_write.contains_key(&1));
    assert!(registry.pending_read_write.contains_key(&2));
    assert!(registry.read_write_grants.is_empty());
}

#[test]
fn read_write_duration_grant_releases_all_matching_pending_requests_and_persists() {
    let mut host = session_with_pending_read_write_request();
    {
        let registry = &mut host.session.registry;
        registry.insert_pending_read_write_request(
            read_request(2, "/data/other", 4321).with_process_identity(Some(REQUESTER)),
        );
        registry.pending_waiters.insert(2);
        registry.next_operation_id = 3;
    }
    assert!(matches!(
        host.handle(allow(1, false, for_a_minute(Some(at("/data/**")), false))),
        Response::Done
    ));
    assert_eq!(host.decided(1), Some(PendingDecision::Apply));
    assert_eq!(host.decided(2), Some(PendingDecision::Apply));
    let registry = &host.session.registry;
    assert!(registry.pending_read_write.is_empty());
    assert_eq!(registry.read_write_grants.len(), 1);
    assert!(matches!(
        registry.read_write_grants.values().next().unwrap().lifetime,
        ReadWriteGrantLifetime::Duration {
            expires_at_epoch_ms: 1_060_000
        }
    ));
}

#[test]
fn tree_grants_name_the_processes_below_the_requester() {
    let mut host = session_with_pending_read_write_request();
    host.tree = Some(vec![
        REQUESTER,
        ProcessIdentityEvidence {
            pid: 5000,
            start_time: 100,
        },
    ]);
    assert!(matches!(
        host.handle(allow(1, false, for_a_minute(None, true))),
        Response::Done
    ));
    assert!(host.log.contains("subject=process-tree subject_count=2"));
    assert_eq!(host.session.registry.read_write_grants.len(), 1);
}

#[test]
fn deny_logs_and_notifies_read_write_request() {
    let mut host = session_with_pending_read_write_request();
    assert!(matches!(
        host.handle(Request::Deny {
            name: "a".to_string(),
            id: 1
        }),
        Response::Done
    ));
    assert!(host.log.contains(" id=2 decision request=1 DENY"));
    assert_eq!(host.decided(1), Some(PendingDecision::Deny));
    host.assert_no_pending_read_write_request();
}

#[test]
fn cancel_logs_and_notifies_metadata_request() {
    let mut host = session_with_pending_request();
    assert!(matches!(
        host.handle(Request::Cancel {
            name: "a".to_string(),
            id: 1
        }),
        Response::Done
    ));
    assert!(host.log.contains(" id=2 cancel request=1 reason=explicit"));
    assert_eq!(host.decided(1), Some(PendingDecision::Cancel));
    host.assert_no_pending_request();
}

#[test]
fn cancel_logs_and_notifies_read_write_request() {
    let mut host = session_with_pending_read_write_request();
    assert!(matches!(
        host.handle(Request::Cancel {
            name: "a".to_string(),
            id: 1
        }),
        Response::Done
    ));
    assert!(host.log.contains(" id=2 cancel request=1 reason=explicit"));
    assert_eq!(host.decided(1), Some(PendingDecision::Cancel));
    host.assert_no_pending_read_write_request();
}

#[test]
fn cancel_all_logs_and_notifies_metadata_and_read_write_requests() {
    let mut host = Host::new("a");
    {
        let registry = &mut host.session.registry;
        registry.insert_pending_request(chmod_request(1, None));
        registry.insert_pending_read_write_request(read_request(2, "/data/secret", 124));
        registry.pending_waiters.insert(1);
        registry.pending_waiters.insert(2);
        registry.next_operation_id = 3;
    }
    assert!(matches!(
        host.handle(Request::CancelAll {
            name: "a".to_string(),
            mountpoint: None
        }),
        Response::Done
    ));
    assert!(host
        .log
        .contains(" id=3 cancel scope=sandbox reason=cancel-all count=2"));
    assert!(host.log.contains(" id=4 cancel request=1 reason=cancel-all"));
    assert!(host.log.contains(" id=5 cancel request=2 reason=cancel-all"));
    assert_eq!(host.decided(1), Some(PendingDecision::Cancel));
    assert_eq!(host.decided(2), Some(PendingDecision::Cancel));
    let registry = &host.session.registry;
    assert!(registry.pending.is_empty());
    assert!(registry.pending_read_write.is_empty());
    assert!(registry.pending_waiters.is_empty());
    assert!(registry.pending_index.is_empty());
}

#[test]
fn cancel_all_mountpoint_scope_cancels_only_matching_attach_requests() {
    let mut host = Host::new("a");
    {
        let registry = &mut host.session.registry;
        let sandbox = registry.sandboxes.get_mut(&"a".to_string()).unwrap();
        sandbox.attaches.insert(
            HostPath::new("/tmp/mnt"),
            AttachMount {
                id: 7,
                mountpoint: HostPath::new("/tmp/mnt"),
                temporary: false,
                active: true,
            },
        );
        registry.insert_pending_request(chmod_request(1, Some(7)));
        registry.insert_pending_read_write_request(PendingReadWriteRequest::new_with_attach_path(
            2,
            "a".to_string(),
            Some(8),
            ReadWriteOperation::ReadFile {
                path: at("/data/other"),
            },
            at("/data/other"),
            RequesterIdentity {
                pid: 124,
                uid: 1000,
                gid: 1000,
            },
        ));
        registry.insert_pending_read_write_request(read_request(3, "/data/no-attach", 125));
        registry.pending_waiters.insert(1);
        registry.pending_waiters.insert(2);
        registry.pending_waiters.insert(3);
        registry.next_operation_id = 9;
    }
    assert!(matches!(
        host.handle(Request::CancelAll {
            name: "a".to_string(),
            mountpoint: Some("/tmp/mnt".to_string())
        }),
        Response::Done
    ));
    assert!(host
        .log
        .contains(" id=9 cancel attach=7 scope=attached-view reason=cancel-all count=1"));
    assert!(host
        .log
        .contains(" id=10 cancel request=1 attach=7 reason=cancel-all"));
    assert_eq!(host.decided(1), Some(PendingDecision::Cancel));
    assert_eq!(host.decided(2), None);
    assert_eq!(host.decided(3), None);
    let registry = &host.session.registry;
    assert!(!registry.pending.contains_key(&1));
    assert!(registry.pending_read_write.contains_key(&2));
    assert!(registry.pending_read_write.contains_key(&3));
    assert!(!registry.pending_waiters.contains(&1));
    assert!(registry.pending_waiters.contains(&2));
    assert!(registry.pending_waiters.contains(&3));
}

#[test]
fn concurrent_pending_views_do_not_consume_request() {
    let mut host = session_with_pending_request();
    for _ in 0..24 {
        match host.handle(Request::Pending {
            name: "a".to_string(),
        }) {
            Response::Pending { items } => {
                assert_eq!(items.len(), 1);
                assert_eq!(items[0].id(), 1);
                assert_eq!(items[0].description(), "path=/data/file SETATTR mode=0444");
            }
            other => panic!("unexpected {other:?}"),
        }
    }
    assert!(matches!(host.handle(allow(1, false, None)), Response::Done));
    assert_eq!(host.decided(1), Some(PendingDecision::Apply));
    host.assert_no_pending_request();
}

#[test]
fn destroy_cleans_pending_indexes_and_notifies_waiters() {
    let mut host = Host::new("a");
    {
        let registry = &mut host.session.registry;
        for (id, operation, kinds) in [
            (
                1,
                MetadataOperation::Chmod {
                    path: at("/data/file"),
                    mode: 0o444,
                },
                vec![PendingOperationKind::Mode],
            ),
            (
                2,
                MetadataOperation::Chown {
                    path: at("/data/file"),
                    uid: Some(1000),
                    gid: None,
                },
                vec![PendingOperationKind::Uid],
            ),
            (
                3,
                MetadataOperation::Chattr {
                    path: at("/data/file"),
                    flags: 0x10,
                },
                vec![PendingOperationKind::Flags],
            ),
        ] {
            registry.insert_pending_request(PendingMetadataRequest {
                description: operation.event_body(),
                operation,
                kinds,
                ..chmod_request(id, None)
            });
            registry.pending_waiters.insert(id);
        }
        registry.insert_pending_read_write_request(read_request(4, "/data/file", 123));
        registry.pending_waiters.insert(4);
    }
    assert!(matches!(
        host.handle(Request::Shutdown {
            name: "a".to_string()
        }),
        Response::Done
    ));
    for id in 1..=4 {
        assert_eq!(host.decided(id), Some(PendingDecision::Cancel));
    }
    let registry = &host.session.registry;
    assert!(registry.pending.is_empty());
    assert!(registry.pending_read_write.is_empty());
    assert!(registry.pending_waiters.is_empty());
    assert!(registry.pending_index.is_empty());
    assert!(registry.sandboxes.is_empty());
}

fn session_with_a_layer_and_a_request() -> Host {
    let mut host = Host::new("a");
    assert!(matches!(
        host.handle(Request::Mount {
            name: "a".to_string(),
            local: "/srv/data".to_string(),
            on_fs: at("/data")
        }),
        Response::Done
    ));
    let registry = &mut host.session.registry;
    registry.insert_pending_request(chmod_request(2, None));
    registry.next_operation_id = 3;
    host
}

#[test]
fn allow_applies_without_waiter_and_logs_decision() {
    let mut host = session_with_a_layer_and_a_request();
    assert!(matches!(host.handle(allow(2, false, None)), Response::Done));
    let registry = &host.session.registry;
    let sandbox = registry.sandboxes.get(&"a".to_string()).unwrap();
    let change = sandbox
        .metadata_override_for_path(&at("/data/file"))
        .unwrap();
    assert_eq!(change.mode, Some(0o444));
    assert!(!registry.pending.contains_key(&2));
    assert!(host.log.contains("decision request=2 ALLOW"));
}

#[test]
fn allow_do_nothing_without_waiter_does_not_apply_override() {
    let mut host = session_with_a_layer_and_a_request();
    assert!(matches!(host.handle(allow(2, true, None)), Response::Done));
    let registry = &host.session.registry;
    let sandbox = registry.sandboxes.get(&"a".to_string()).unwrap();
    assert!(sandbox
        .metadata_override_for_path(&at("/data/file"))
        .is_none());
    assert!(!registry.pending.contains_key(&2));
    assert!(host.log.contains("decision request=2 ALLOW_DO_NOTHING"));
}

#[test]
fn a_decision_names_a_pending_request_of_the_sandbox() {
    let mut host = session_with_pending_request();
    match host.handle(allow(9, false, None)) {
        Response::Error { message } => assert_eq!(message, "pending operation not found: 9"),
        other => panic!("unexpected {other:?}"),
    }
    assert!(matches!(
        host.handle(Request::Deny {
            name: "b".to_string(),
            id: 1
        }),
        Response::Error { .. }
    ));
    assert!(host.session.registry.pending.contains_key(&1));
    assert!(host.notices.is_empty());
    assert!(host.log.is_empty());
}

#[test]
fn layers_and_rules_are_logged() {
    let mut host = Host::new("a");
    let name = || "a".to_string();
    assert!(matches!(
        host.handle(Request::Mount {
            name: name(),
            local: "/srv/data".to_string(),
            on_fs: at("/data")
        }),
        Response::Done
    ));
    assert!(matches!(
        host.handle(Request::Hide {
            name: name(),
            on_fs: at("/data/secret")
        }),
        Response::Done
    ));
    assert!(matches!(
        host.handle(Request::Protect {
            name: name(),
            kind: ProtectionKind::Read,
            pattern: PolicyPattern::new("/data/**").unwrap()
        }),
        Response::Done
    ));
    match host.handle(Request::ListProtection {
        name: name(),
        include_read: true,
        include_write: false,
        include_metadata: false,
        include_xattr: false,
    }) {
        Response::ProtectionRules { items } => {
            assert_eq!(items.len(), 1);
            assert_eq!(items[0].pattern.as_str(), "/data/**");
        }
        other => panic!("unexpected {other:?}"),
    }
    assert!(matches!(
        host.handle(Request::Bypass {
            name: name(),
            kind: ProtectionKind::Read,
            pattern: PolicyPattern::new("/data/open").unwrap()
        }),
        Response::Done
    ));
    match host.handle(Request::ListBypass {
        name: name(),
        include_read: true,
        include_write: true,
        include_metadata: true,
        include_xattr: true,
    }) {
        Response::PassthroughRules { items } => assert_eq!(items.len(), 1),
        other => panic!("unexpected {other:?}"),
    }
    assert!(matches!(
        host.handle(Request::Unprotect {
            name: name(),
            kind: ProtectionKind::Write,
            pattern: PolicyPattern::new("/data/**").unwrap()
        }),
        Response::Done
    ));
    assert!(matches!(
        host.handle(Request::Umount {
            name: name(),
            on_fs: at("/data")
        }),
        Response::Done
    ));
    assert!(matches!(
        host.handle(Request::Umount {
            name: name(),
            on_fs: at("/data")
        }),
        Response::Error { .. }
    ));
    let lines: Vec<&str> = host.log.lines().collect();
    assert_eq!(lines.len(), 6);
    for (i, line) in lines.iter().enumerate() {
        assert!(line.contains(&format!(" id={} ", i + 1)), "{line}");
    }
}

#[test]
fn a_view_is_attached_and_detached() {
    let mut host = Host::new("a");
    let mountpoint = HostPath::new("/mnt/a");
    let ticket = host.session.attach_begin("a", &mountpoint).unwrap();
    let outcome = host
        .session
        .attach_commit("a", HostPath::new("/mnt/a"), false, ticket);
    host.finish(outcome.unwrap());
    assert!(host.session.attach_begin("a", &mountpoint).is_err());
    assert_eq!(host.session.registry.attach_index().len(), 1);
    assert!(matches!(
        host.handle(Request::Detach {
            name: "a".to_string(),
            mountpoint: "/mnt/a".to_string()
        }),
        Response::Done
    ));
    assert!(host.session.mounts.is_empty());
    assert!(host.session.registry.attach_index().is_empty());
}

#[test]
fn trusted_operations_have_a_token() {
    let mut host = Host::new("a");
    let id = host.session.trusted_begin("a").unwrap();
    let mountpoint = host.session.runtime.tmp_mount_dir("a", id);
    assert_eq!(mountpoint.as_str(), "/run/test/tmp/a-1");
    let response = host.session.trusted_commit(
        "a",
        "chmod",
        id,
        mountpoint,
        vec![TrustedPathScope {
            path: at("/data/file"),
            recursive: false,
        }],
        77,
    );
    let token = match response {
        Response::Trusted {
            token,
            operation_id,
            ..
        } => {
            assert_eq!(operation_id, 1);
            token
        }
        other => panic!("unexpected {other:?}"),
    };
    assert!(matches!(
        host.handle(Request::RegisterTrustedPid {
            token: token.clone(),
            pid: 5,
            uid: 6
        }),
        Response::Done
    ));
    assert!(matches!(
        host.handle(Request::RegisterTrustedPid {
            token: "none".to_string(),
            pid: 5,
            uid: 6
        }),
        Response::Error { .. }
    ));
    let ended = host.session.trusted_end(&token).unwrap();
    assert_eq!(ended.pid, Some(5));
    assert!(host.session.trusted_end(&token).is_err());
}

#[test]
fn sessions_stop_after_a_shutdown_that_worked() {
    assert!(should_stop(true, &Response::Done));
    assert!(!should_stop(false, &Response::Done));
    assert!(!should_stop(
        true,
        &Response::Error {
            message: "no".to_string()
        }
    ));
    assert!(cleanup_result(Ok(Response::Done)).is_ok());
    assert!(cleanup_result(Err(Error::Message("gone".to_string()))).is_ok());
    assert!(matches!(
        cleanup_result(Err(Error::Io("broken".to_string()))),
        Err(Error::Io(_))
    ));
    assert!(socket_is_active("/run/a.sock").message().contains("/run/a.sock"));
    let mut host = Host::new("a");
    assert!(matches!(host.handle(Request::Ping), Response::Done));
    match host.handle(Request::LogPath {
        name: "a".to_string(),
    }) {
        Response::Text { text } => assert_eq!(text, "/run/test/a.log"),
        other => panic!("unexpected {other:?}"),
    }
}

#[test]
fn scenario_mappings_and_hide_rules_are_listed_and_logged() {
    let mut host = Host::new("a");
    let mount = |local: &str| Request::Mount {
        name: "a".to_string(),
        local: local.to_string(),
        on_fs: at("/app"),
    };
    assert!(matches!(host.handle(mount("/srv/old")), Response::Done));
    assert!(matches!(
        host.handle(Request::Hide {
            name: "a".to_string(),
            on_fs: at("/app/cache")
        }),
        Response::Done
    ));
    assert!(matches!(host.handle(mount("/srv/new")), Response::Done));
    match host.handle(Request::ListMounts {
        name: "a".to_string(),
    }) {
        Response::Text { text } => {
            assert!(text.contains("/srv/old on /app"));
            assert!(text.contains("hide /app/cache"));
            assert!(text.contains("/srv/new on /app"));
        }
        other => panic!("unexpected {other:?}"),
    }
    assert!(host.log.contains("] id="));
    assert!(host.log.contains("mount local="));
    assert!(host.log.contains("hide path=/app/cache"));
}

#[test]
fn scenario_wrong_detach_reports_user_facing_error_without_attach() {
    let mut host = Host::new("a");
    match host.handle(Request::Detach {
        name: "a".to_string(),
        mountpoint: "/srv/wrong".to_string(),
    }) {
        Response::Error { message } => assert!(message.contains("not attached")),
        other => panic!("unexpected {other:?}"),
    }
}

#[test]
fn a_view_is_detached_however_its_mountpoint_is_written() {
    let mut host = Host::new("a");
    let ticket = host
        .session
        .attach_begin("a", &HostPath::new("/mnt/a"))
        .unwrap();
    let outcome = host
        .session
        .attach_commit("a", HostPath::new("/mnt/a"), false, ticket);
    host.finish(outcome.unwrap());
    assert_eq!(
        host.session
            .attach_begin("a", &HostPath::new("/mnt//a/"))
            .unwrap_err()
            .message(),
        "mountpoint already attached: /mnt//a/"
    );
    assert_eq!(
        host.session
            .detach_begin("a", &HostPath::new("/mnt"))
            .err()
            .unwrap()
            .message(),
        "mountpoint is not attached to sandbox a: /mnt"
    );
    assert!(host.detach("a", &HostPath::new("/mnt/a/")).is_ok());
    assert!(host.session.mounts.is_empty());
    assert!(host.session.registry.attach_index().is_empty());
}

#[test]
fn mountpoints_are_taken_down_part_by_part_in_order() {
    let mut host = Host::new("a");
    for mountpoint in ["/mnt/b", "/mnt/a.b", "/mnt/a/c", "/mnt/..", "/mnt/!"] {
        let ticket = host
            .session
            .attach_begin("a", &HostPath::new(mountpoint))
            .unwrap();
        let outcome = host
            .session
            .attach_commit("a", HostPath::new(mountpoint), false, ticket);
        host.finish(outcome.unwrap());
    }
    let start = host.session.destroy_begin("a").unwrap();
    let listed: Vec<&str> = start.mountpoints.iter().map(|path| path.as_str()).collect();
    assert_eq!(listed, ["/mnt/..", "/mnt/!", "/mnt/a/c", "/mnt/a.b", "/mnt/b"]);
}

#[test]
fn allowing_a_request_without_an_object_says_what_is_missing() {
    let mut host = Host::new("a");
    let mut about_none = chmod_request(1, None);
    about_none.object = MetadataObjectKey {
        layer_id: NO_LAYER,
        relative_path: "data/file".to_string(),
    };
    let registry = &mut host.session.registry;
    registry.next_operation_id = 3;
    registry.insert_pending_request(about_none);
    registry.insert_pending_request(chmod_request(2, None));

    let error = host.session.allow_once("a", 1, false).err().unwrap();
    assert_eq!(error.message(), "path not found or not real: /data/file");
    let error = host.session.allow_once("a", 2, false).err().unwrap();
    assert_eq!(error.message(), "metadata layer not found for path: /data/file");
    assert!(host.session.registry.pending.is_empty());
    assert!(host.session.registry.pending_index.is_empty());
}
