use sandboxfs::attr::stable_ino;
use sandboxfs::attr::Errno;
use sandboxfs::attr::FileAttr;
use sandboxfs::attr::FileType;
use sandboxfs::attr::HostMetadata;
use sandboxfs::attr::ROOT_INO;
use sandboxfs::authorize::decided_errno;
use sandboxfs::authorize::read_errno;
use sandboxfs::authorize::read_write_decision;
use sandboxfs::authorize::Authorization;
use sandboxfs::authorize::ReadWriteDecision;
use sandboxfs::fs::directory_page;
use sandboxfs::fs::OpenPlan;
use sandboxfs::fs::SandboxFs;
use sandboxfs::fs::SetAttrPlan;
use sandboxfs::grant::ReadWriteAccessGrant;
use sandboxfs::grant::ReadWriteGrantLifetime;
use sandboxfs::grant::ReadWriteGrantSubject;
use sandboxfs::host::HostPath;
use sandboxfs::log::format_log_line;
use sandboxfs::log::LogTime;
use sandboxfs::metadata_request::metadata_errno;
use sandboxfs::metadata_request::MetadataStep;
use sandboxfs::operation::MetadataOperation;
use sandboxfs::operation::ReadWriteOperation;
use sandboxfs::path::SandboxPath;
use sandboxfs::pending::PendingDecision;
use sandboxfs::pending::RequesterIdentity;
use sandboxfs::policy::PolicyPattern;
use sandboxfs::policy::ProtectionKind;
use sandboxfs::process_info::ProcessIdentityEvidence;
use sandboxfs::registry::SandboxRegistry;
use sandboxfs::registry::TrustedOperation;
use sandboxfs::sandbox::Sandbox;
use sandboxfs::sandbox::TrustedPathScope;
use sandboxfs::session::LogEvent;
use sandboxfs::session::Notice;
use sandboxfs::time::epoch_millis;
use sandboxfs::time::Timestamp;

const TIME: LogTime = LogTime {
    year: 2026,
    month: 6,
    day: 29,
    hour: 13,
    minute: 55,
    second: 12,
    microsecond: 42,
};

const NOW: Timestamp = Timestamp {
    secs: 1_750_000_000,
    nanos: 0,
};

const REQUESTER: RequesterIdentity = RequesterIdentity {
    pid: 123,
    uid: 1000,
    gid: 1000,
};

const IDENTITY: ProcessIdentityEvidence = ProcessIdentityEvidence {
    pid: 123,
    start_time: 7,
};

fn at(text: &str) -> SandboxPath {
    SandboxPath::new(text).unwrap()
}

fn a_file(mode: u32) -> HostMetadata {
    HostMetadata {
        mode: 0o100000 | mode,
        size: 5,
        blocks: 8,
        atime: 1,
        atime_nsec: 2,
        mtime: 3,
        mtime_nsec: 4,
        ctime: 5,
        ctime_nsec: 6,
        nlink: 1,
        uid: 1000,
        gid: 1000,
        rdev: 0,
        blksize: 4096,
        is_dir: false,
        is_symlink: false,
        is_file: true,
    }
}

/// A file system over one layer, with a log that is kept in memory.
struct Host {
    registry: SandboxRegistry,
    fs: SandboxFs,
    log: String,
    notices: Vec<Notice>,
}

impl Host {
    fn new() -> Host {
        let mut sandbox = Sandbox::new("demo".to_string(), HostPath::new("/logs/demo.log"));
        sandbox.add_layer(HostPath::new("/local"), at("/data"));
        let mut registry = SandboxRegistry::new();
        registry.sandboxes.insert("demo".to_string(), sandbox);
        Host {
            registry,
            fs: SandboxFs::new("demo".to_string()),
            log: String::new(),
            notices: Vec::new(),
        }
    }

    fn protecting(kind: ProtectionKind, pattern: &str) -> Host {
        let mut host = Host::new();
        host.sandbox()
            .protect(kind, PolicyPattern::new(pattern).unwrap());
        host
    }

    fn sandbox(&mut self) -> &mut Sandbox {
        self.registry.sandboxes.get_mut(&"demo".to_string()).unwrap()
    }

    fn write(&mut self, event: &LogEvent) {
        self.log.push_str(&format_log_line(TIME, event.id, &event.body));
        self.log.push('\n');
    }

    /// Starts a read or write that has one effect; gives the number of the
    /// request where it waits.
    fn authorize(
        &mut self,
        requester: RequesterIdentity,
        operation: ReadWriteOperation,
        identity: Option<ProcessIdentityEvidence>,
    ) -> Option<u64> {
        let ids = self.authorize_all(requester, operation, identity);
        assert!(ids.len() <= 1);
        ids.first().copied()
    }

    /// Starts a read or write; gives the numbers of the requests that wait.
    fn authorize_all(
        &mut self,
        requester: RequesterIdentity,
        operation: ReadWriteOperation,
        identity: Option<ProcessIdentityEvidence>,
    ) -> Vec<u64> {
        let dirs = self
            .fs
            .authorization_targets(&self.registry, &operation)
            .iter()
            .map(|_| false)
            .collect();
        match self
            .fs
            .authorize_read_write(&mut self.registry, requester, operation, &dirs, identity, NOW)
            .unwrap()
        {
            Authorization::Free => Vec::new(),
            Authorization::Granted { log_path, events } => {
                assert_eq!(log_path.as_str(), "/logs/demo.log");
                for event in &events {
                    self.write(event);
                }
                Vec::new()
            }
            Authorization::Ask {
                log_path,
                events,
                asks,
            } => {
                assert_eq!(log_path.as_str(), "/logs/demo.log");
                for event in &events {
                    self.write(event);
                }
                let mut ids = Vec::new();
                for ask in asks {
                    self.write(&ask.event);
                    ids.push(
                        self.fs
                            .commit_read_write_request(&mut self.registry, ask.request, false)
                            .unwrap(),
                    );
                }
                ids
            }
        }
    }

    fn resolve(&mut self, id: u64, decision: PendingDecision) -> ReadWriteDecision {
        assert!(self
            .registry
            .remove_pending_read_write_request(id)
            .is_some());
        assert!(self.registry.pending_waiters.remove(&id));
        read_write_decision(decision)
    }

    fn ask(&mut self, step: MetadataStep) -> u64 {
        match step {
            MetadataStep::Ask {
                log_path,
                events,
                notices,
                request,
            } => {
                assert_eq!(log_path.as_str(), "/logs/demo.log");
                for event in &events {
                    self.write(event);
                }
                self.notices.extend(notices);
                self.fs
                    .commit_metadata_request(&mut self.registry, request, false)
                    .unwrap()
            }
            other => panic!("expected a pending request: {other:?}"),
        }
    }

    fn begin(&mut self, requester: RequesterIdentity, operation: MetadataOperation) -> u64 {
        let step = self
            .fs
            .begin_metadata_request(&mut self.registry, requester, operation)
            .unwrap();
        self.ask(step)
    }

    fn attr(&mut self, path: &str, mode: u32) -> Result<FileAttr, Errno> {
        self.fs
            .attr_for_path(&self.registry, &at(path), Ok(a_file(mode)), 1000, 1000)
    }

    fn decided(&self, id: u64) -> Option<PendingDecision> {
        self.notices
            .iter()
            .find(|notice| notice.id == id)
            .map(|notice| notice.decision)
    }

    fn pending_ids(&self) -> Vec<u64> {
        self.registry.pending.keys().copied().collect()
    }
}

fn read(path: &str) -> ReadWriteOperation {
    ReadWriteOperation::ReadFile { path: at(path) }
}

fn chmod(path: &str, mode: u16) -> MetadataOperation {
    MetadataOperation::Chmod {
        path: at(path),
        mode,
    }
}

fn grant(pattern: &str, lifetime: ReadWriteGrantLifetime) -> ReadWriteAccessGrant {
    ReadWriteAccessGrant {
        id: 42,
        sandbox: "demo".to_string(),
        kind: ProtectionKind::Read,
        path_pattern: at(pattern),
        subject: ReadWriteGrantSubject::Exact { identity: IDENTITY },
        lifetime,
        created_at_epoch_ms: epoch_millis(NOW),
    }
}

#[test]
fn protected_read_file_waits_for_decision_and_then_reads() {
    let mut host = Host::protecting(ProtectionKind::Read, "/data/file");
    let id = host.authorize(REQUESTER, read("/data/file"), None).unwrap();
    {
        let pending = host.registry.pending_read_write.get(&id).unwrap();
        assert_eq!(pending.kind, ProtectionKind::Read);
        assert_eq!(pending.path.as_str(), "/data/file");
        assert_eq!(pending.description, "path=/data/file READ file");
    }
    assert!(host
        .log
        .contains(&format!(" id={id} pending path=/data/file READ file")));
    assert_eq!(
        host.resolve(id, PendingDecision::Apply),
        ReadWriteDecision::Proceed
    );
    assert_eq!(read_errno(ReadWriteDecision::Proceed), None);
}

#[test]
fn protected_read_matching_duration_grant_proceeds_without_pending_request() {
    let mut host = Host::protecting(ProtectionKind::Read, "/data/**");
    host.registry.insert_read_write_grant(grant(
        "/data/**",
        ReadWriteGrantLifetime::Duration {
            expires_at_epoch_ms: epoch_millis(NOW) + 60_000,
        },
    ));
    assert_eq!(
        host.authorize(REQUESTER, read("/data/file"), Some(IDENTITY)),
        None
    );
    assert!(host.registry.pending_read_write.is_empty());
    assert!(host.log.is_empty());
    assert_eq!(host.registry.read_write_grants.len(), 1);
}

#[test]
fn protected_read_matching_one_shot_grant_is_consumed() {
    let mut host = Host::protecting(ProtectionKind::Read, "/data/file");
    host.registry
        .insert_read_write_grant(grant("/data/file", ReadWriteGrantLifetime::OneShot));
    assert_eq!(
        host.authorize(REQUESTER, read("/data/file"), Some(IDENTITY)),
        None
    );
    assert!(host.registry.pending_read_write.is_empty());
    assert!(host.registry.read_write_grants.is_empty());
    assert!(host
        .log
        .contains("grant-consumed grant=42 lifetime=one-shot"));
}

#[test]
fn protected_read_expired_duration_grant_is_pruned_and_request_queues() {
    let mut host = Host::protecting(ProtectionKind::Read, "/data/file");
    host.registry.insert_read_write_grant(grant(
        "/data/file",
        ReadWriteGrantLifetime::Duration {
            expires_at_epoch_ms: 0,
        },
    ));
    host.registry.next_operation_id = 50;
    let id = host
        .authorize(REQUESTER, read("/data/file"), Some(IDENTITY))
        .unwrap();
    assert!(host
        .log
        .contains(" id=50 grant-expired grant=42 lifetime=duration"));
    assert!(host
        .log
        .contains(&format!(" id={id} pending path=/data/file READ file")));
    assert_eq!(
        host.resolve(id, PendingDecision::Apply),
        ReadWriteDecision::Proceed
    );
    assert!(host.registry.read_write_grants.is_empty());
}

#[test]
fn protected_read_deny_returns_denied_decision() {
    let mut host = Host::protecting(ProtectionKind::Read, "/data/file");
    let id = host.authorize(REQUESTER, read("/data/file"), None).unwrap();
    assert_eq!(
        host.resolve(id, PendingDecision::Deny),
        ReadWriteDecision::Denied
    );
    assert_eq!(read_errno(ReadWriteDecision::Denied), Some(Errno::EACCES));
    assert_eq!(
        read_errno(read_write_decision(PendingDecision::Cancel)),
        Some(Errno::ECANCELED)
    );
}

#[test]
fn unprotected_read_write_operation_does_not_create_pending_request() {
    let mut host = Host::new();
    assert_eq!(host.authorize(REQUESTER, read("/data/file"), None), None);
    assert!(host.registry.pending_read_write.is_empty());
}

#[test]
fn protected_write_do_nothing_continues_to_existing_read_only_behavior() {
    let mut host = Host::protecting(ProtectionKind::Write, "/data/file");
    let id = host
        .authorize(
            REQUESTER,
            ReadWriteOperation::WriteFile {
                path: at("/data/file"),
            },
            None,
        )
        .unwrap();
    assert_eq!(
        host.resolve(id, PendingDecision::DoNothing),
        ReadWriteDecision::Proceed
    );
    assert_eq!(
        decided_errno(true, &vec![PendingDecision::DoNothing]),
        Some(Errno::EROFS)
    );
    assert_eq!(
        decided_errno(true, &vec![PendingDecision::Deny]),
        Some(Errno::EACCES)
    );
    assert_eq!(
        decided_errno(true, &vec![PendingDecision::Cancel]),
        Some(Errno::ECANCELED)
    );
}

#[test]
fn protected_rename_queues_when_either_side_is_protected() {
    let mut host = Host::protecting(ProtectionKind::Write, "/data/new");
    let id = host
        .authorize(
            REQUESTER,
            ReadWriteOperation::Rename {
                from: at("/data/old"),
                to: at("/data/new"),
            },
            None,
        )
        .unwrap();
    {
        let pending = host.registry.pending_read_write.get(&id).unwrap();
        assert_eq!(pending.path.as_str(), "/data/new");
        assert_eq!(
            pending.description,
            "path=/data/old WRITE rename to=/data/new"
        );
    }
    assert_eq!(
        host.resolve(id, PendingDecision::Apply),
        ReadWriteDecision::Proceed
    );
}

#[test]
fn concurrent_protected_reads_queue_independently() {
    let mut host = Host::protecting(ProtectionKind::Read, "/data/file");
    for pid in 0..3 {
        let requester = RequesterIdentity { pid, ..REQUESTER };
        assert!(host
            .authorize(requester, read("/data/file"), None)
            .is_some());
    }
    let ids: Vec<u64> = host.registry.pending_read_write.keys().copied().collect();
    assert_eq!(ids.len(), 3);
    for id in ids {
        assert_eq!(
            host.resolve(id, PendingDecision::Apply),
            ReadWriteDecision::Proceed
        );
    }
}

#[test]
fn bypass_opens_a_protected_path() {
    let mut host = Host::protecting(ProtectionKind::Read, "/data/**");
    host.sandbox()
        .add_passthrough(
            ProtectionKind::Read,
            PolicyPattern::new("/data/open").unwrap(),
        );
    assert_eq!(host.authorize(REQUESTER, read("/data/open"), None), None);
    assert!(host.authorize(REQUESTER, read("/data/file"), None).is_some());
}

#[test]
fn a_request_that_cannot_be_logged_does_not_wait() {
    let mut host = Host::protecting(ProtectionKind::Read, "/data/file");
    let step = host
        .fs
        .authorize_read_write(
            &mut host.registry,
            REQUESTER,
            read("/data/file"),
            &vec![false],
            None,
            NOW,
        )
        .unwrap();
    match step {
        Authorization::Ask { mut asks, .. } => assert_eq!(
            host.fs.commit_read_write_request(
                &mut host.registry,
                asks.remove(0).request,
                true
            ),
            Err(Errno::EIO)
        ),
        other => panic!("unexpected {other:?}"),
    }
    assert!(host.registry.pending_read_write.is_empty());
}

#[test]
fn untrusted_metadata_request_logs_pending_event() {
    let mut host = Host::new();
    let id = host.begin(REQUESTER, chmod("/data/file", 0o444));
    assert!(host
        .log
        .contains(&format!(" id={id} pending path=/data/file SETATTR mode=0444")));
    assert!(host.registry.pending_waiters.remove(&id));
    assert!(host.registry.remove_pending_request(id).is_some());
    assert_eq!(metadata_errno(PendingDecision::DoNothing), None);
    assert_eq!(host.attr("/data/file", 0o644).unwrap().perm, 0o644);
}

#[test]
fn trusted_metadata_request_logs_trusted_event_without_host_mutation() {
    let mut host = Host::new();
    host.registry.trusted.insert(
        "token".to_string(),
        TrustedOperation {
            id: 42,
            sandbox: "demo".to_string(),
            token: "token".to_string(),
            pid: Some(123),
            uid: Some(1000),
            mountpoint: HostPath::new("/mnt"),
            command: "chmod".to_string(),
            paths: vec![TrustedPathScope {
                path: at("/data/file"),
                recursive: false,
            }],
        },
    );
    let operation = chmod("/data/file", 0o444);
    let step = host
        .fs
        .begin_metadata_request(&mut host.registry, REQUESTER, operation.clone())
        .unwrap();
    match step {
        MetadataStep::Trusted { log_path, event } => {
            assert_eq!(log_path.as_str(), "/logs/demo.log");
            host.write(&event);
        }
        other => panic!("unexpected {other:?}"),
    }
    assert_eq!(
        host.fs
            .commit_trusted_change(&mut host.registry, &operation, false),
        Ok(())
    );
    assert_eq!(host.attr("/data/file", 0o644).unwrap().perm, 0o444);
    assert!(host
        .log
        .contains(" id=1 trusted trusted=42 path=/data/file SETATTR mode=0444"));
}

#[test]
fn same_path_same_kind_replaces_and_denies_old_request() {
    let mut host = Host::new();
    let first = host.begin(REQUESTER, chmod("/data/file", 0o444));
    let second = host.begin(REQUESTER, chmod("/data/file", 0o600));
    assert_eq!(host.decided(first), Some(PendingDecision::Deny));
    assert_eq!(host.pending_ids(), vec![3]);
    assert_eq!(host.decided(second), None);
    assert!(host
        .log
        .contains(" id=1 pending path=/data/file SETATTR mode=0444"));
    assert!(host
        .log
        .contains(" id=2 decision request=1 DENY reason=superseded"));
    assert!(host
        .log
        .contains(" id=3 pending path=/data/file SETATTR mode=0600"));
}

#[test]
fn same_path_different_kinds_remain_pending_independently() {
    let mut host = Host::new();
    let uid_request = host.begin(
        REQUESTER,
        MetadataOperation::SetAttr {
            path: at("/data/file"),
            mode: None,
            uid: Some(2000),
            gid: None,
            flags: None,
            atime: None,
            mtime: None,
        },
    );
    let gid_request = host.begin(
        REQUESTER,
        MetadataOperation::SetAttr {
            path: at("/data/file"),
            mode: None,
            uid: None,
            gid: Some(3000),
            flags: None,
            atime: None,
            mtime: None,
        },
    );
    assert_eq!(host.decided(uid_request), None);
    assert_eq!(host.decided(gid_request), None);
    assert_eq!(host.pending_ids(), vec![1, 2]);
    assert!(host
        .log
        .contains(" id=1 pending path=/data/file SETATTR uid=2000"));
    assert!(host
        .log
        .contains(" id=2 pending path=/data/file SETATTR gid=3000"));
    assert!(!host.log.contains("reason=superseded"));
}

#[test]
fn concurrent_same_kind_replacement_leaves_one_pending_per_path_kind() {
    let mut host = Host::new();
    let mut ids = Vec::new();
    for offset in 0..10 {
        let mode: u16 = 0o400 + offset;
        let requester = RequesterIdentity {
            pid: u32::from(mode),
            ..REQUESTER
        };
        ids.push(host.begin(requester, chmod("/data/file", mode)));
    }
    assert_eq!(host.registry.pending.len(), 1);
    assert_eq!(host.registry.pending_index.len(), 1);
    let remaining = host.registry.pending.values().next().unwrap();
    assert_eq!(
        remaining.operation.event_body(),
        chmod("/data/file", 0o411).event_body()
    );
    let denied = ids
        .iter()
        .filter(|id| host.decided(**id) == Some(PendingDecision::Deny))
        .count();
    let still_pending = ids.iter().filter(|id| host.decided(**id).is_none()).count();
    assert_eq!(still_pending, 1);
    assert_eq!(denied, 9);
    assert_eq!(
        host.log
            .matches(" pending path=/data/file SETATTR mode=")
            .count(),
        10
    );
    assert_eq!(host.log.matches(" DENY reason=superseded").count(), 9);
}

#[test]
fn pending_metadata_request_does_not_block_unrelated_lookup() {
    let mut host = Host::new();
    host.begin(REQUESTER, chmod("/data/file", 0o444));
    assert_eq!(host.attr("/data/other", 0o644).unwrap().perm, 0o644);
}

#[test]
fn metadata_changes_follow_the_policy() {
    let mut host = Host::new();
    let step = host
        .fs
        .change_metadata(
            &mut host.registry,
            REQUESTER,
            chmod("/data/file", 0o600),
            false,
        )
        .unwrap();
    assert!(matches!(step, MetadataStep::Applied));
    assert_eq!(host.attr("/data/file", 0o644).unwrap().perm, 0o600);
    host.sandbox()
        .protect(
            ProtectionKind::Metadata,
            PolicyPattern::new("/data/**").unwrap(),
        );
    let step = host
        .fs
        .change_metadata(
            &mut host.registry,
            REQUESTER,
            chmod("/data/file", 0o444),
            false,
        )
        .unwrap();
    let id = host.ask(step);
    assert_eq!(host.attr("/data/file", 0o644).unwrap().perm, 0o600);
    let request = host.registry.remove_pending_request(id).unwrap();
    assert_eq!(
        host.fs
            .apply_pending_operation(&mut host.registry, request.object, &request.operation),
        Ok(())
    );
    assert_eq!(host.attr("/data/file", 0o644).unwrap().perm, 0o444);
    assert_eq!(metadata_errno(PendingDecision::Deny), Some(Errno::EPERM));
    assert_eq!(
        metadata_errno(PendingDecision::Cancel),
        Some(Errno::ECANCELED)
    );
}

#[test]
fn attributes_come_from_the_host_or_are_made_up() {
    let mut host = Host::new();
    let root = host
        .fs
        .attr_for_path(&host.registry, &at("/"), Err(Errno::ENOENT), 7, 8)
        .unwrap();
    assert_eq!((root.ino, root.kind), (ROOT_INO, FileType::Directory));
    assert_eq!((root.uid, root.gid), (7, 8));
    let file = host.attr("/data/file", 0o640).unwrap();
    assert_eq!(file.kind, FileType::RegularFile);
    assert_eq!(file.size, 5);
    assert_eq!(file.mtime, Timestamp { secs: 3, nanos: 4 });
    assert_eq!(host.attr("/nothing", 0o640), Err(Errno::ENOENT));
    assert_eq!(
        host.fs
            .attr_for_path(&host.registry, &at("/data/x"), Err(Errno::EACCES), 7, 8),
        Err(Errno::EACCES)
    );
}

#[test]
fn inodes_lead_back_to_paths() {
    let mut host = Host::new();
    let ino = host.fs.remember(&at("/data"));
    assert_eq!(ino, stable_ino(&at("/data")));
    assert_eq!(host.fs.path_for_ino(ino).unwrap().as_str(), "/data");
    assert_eq!(
        host.fs.path_child(ino, "file").unwrap().as_str(),
        "/data/file"
    );
    assert!(matches!(host.fs.path_child(99, "file"), Err(Errno::ENOENT)));
    assert!(host.fs.path_for_ino(99).is_none());
    assert_eq!(
        host.fs
            .statfs_target(&host.registry, ino)
            .unwrap()
            .as_str(),
        "/local/"
    );
    assert_eq!(
        host.fs
            .readlink_target(&host.registry, ino)
            .unwrap()
            .as_str(),
        "/local/"
    );
    assert!(matches!(
        host.fs.readlink_target(&host.registry, ROOT_INO),
        Err(Errno::EINVAL)
    ));
}

#[test]
fn files_are_opened_for_reading() {
    let mut host = Host::new();
    let ino = host.fs.remember(&at("/data/file"));
    assert!(matches!(
        host.fs.open_plan(&host.registry, ino, false),
        Ok(OpenPlan::Authorize { .. })
    ));
    let (local_path, path) = match host.fs.open_plan(&host.registry, ino, true) {
        Ok(OpenPlan::Read { local_path, path }) => (local_path, path),
        other => panic!("unexpected {other:?}"),
    };
    assert_eq!(local_path.as_str(), "/local/file");
    assert!(matches!(
        host.fs
            .open_file(local_path.clone(), path.clone(), false, false),
        Err(Errno::EACCES)
    ));
    let fh = host.fs.open_file(local_path, path, true, true).unwrap();
    assert_eq!(host.fs.handle(fh).unwrap().write_position(0), None);
    assert_eq!(
        host.fs.handle(fh).unwrap().sandbox_path.as_str(),
        "/data/file"
    );
    host.fs.release(fh);
    assert!(matches!(host.fs.handle(fh), Err(Errno::EBADF)));
    assert!(matches!(
        host.fs.open_plan(&host.registry, 99, true),
        Err(Errno::ENOENT)
    ));
}

#[test]
fn a_change_of_size_is_a_write() {
    let mut host = Host::new();
    let ino = host.fs.remember(&at("/data/file"));
    assert!(matches!(
        host.fs
            .setattr_plan(ino, Some(0o600), None, None, Some(3), None, None, None),
        Ok(SetAttrPlan::Write { .. })
    ));
    match host
        .fs
        .setattr_plan(ino, Some(0o100600), None, None, None, None, None, None)
    {
        Ok(SetAttrPlan::Metadata { operation }) => assert_eq!(
            operation.event_body(),
            "path=/data/file SETATTR mode=0600"
        ),
        other => panic!("unexpected {other:?}"),
    }
}

#[test]
fn directories_list_what_layers_and_the_host_hold() {
    let mut host = Host::new();
    host.sandbox().add_hide(at("/data/b"));
    let names = vec!["c".to_string(), "b".to_string(), "a".to_string()];
    let children = host
        .fs
        .children_of(&host.registry, &at("/data"), Some(&names))
        .unwrap();
    let shown: Vec<&str> = children.iter().map(|child| child.name.as_str()).collect();
    assert_eq!(shown, vec!["a", "c"]);
    let ino = host.fs.remember(&at("/data"));
    let entries = host.fs.directory_entries(
        ino,
        &at("/data"),
        &children,
        &vec![Some(FileType::Directory), None],
    );
    let shown: Vec<(&str, FileType)> = entries
        .iter()
        .map(|entry| (entry.name.as_str(), entry.kind))
        .collect();
    assert_eq!(
        shown,
        vec![
            (".", FileType::Directory),
            ("..", FileType::Directory),
            ("a", FileType::Directory),
            ("c", FileType::RegularFile),
        ]
    );
    assert_eq!(entries[1].ino, ROOT_INO);
    let page = directory_page(&entries, 3);
    assert_eq!(page.len(), 1);
    assert_eq!(page[0].entry.name, "c");
    assert_eq!(page[0].next, 4);
    assert!(directory_page(&entries, 4).is_empty());
    let root = host
        .fs
        .children_of(&host.registry, &at("/"), None)
        .unwrap();
    assert_eq!(root.len(), 1);
    assert_eq!(root[0].path.as_str(), "/data");
}

fn with_rules(rules: &[(&str, ProtectionKind, &str)]) -> Host {
    let mut host = Host::new();
    for (verb, kind, pattern) in rules {
        let pattern = PolicyPattern::new(pattern).unwrap();
        if *verb == "protect" {
            host.sandbox().protect(*kind, pattern);
        } else {
            host.sandbox().add_passthrough(*kind, pattern);
        }
    }
    host
}

fn get_xattr() -> ReadWriteOperation {
    ReadWriteOperation::GetXattr {
        path: at("/data/file"),
        name: "user.gated".to_string(),
    }
}

fn set_xattr() -> ReadWriteOperation {
    ReadWriteOperation::SetXattr {
        path: at("/data/file"),
        name: "user.gated".to_string(),
    }
}

#[test]
fn writes_that_nothing_guards_are_carried_out() {
    let mut host = Host::new();
    let operation = ReadWriteOperation::WriteFile {
        path: at("/data/file"),
    };
    assert!(host
        .authorize_all(REQUESTER, operation.clone(), None)
        .is_empty());
    let targets = host.fs.forward_targets(&host.registry, &operation).unwrap();
    assert_eq!(targets.len(), 1);
    assert_eq!(targets[0].as_str(), "/local/file");
    assert_eq!(decided_errno(true, &vec![]), None);
    assert_eq!(decided_errno(true, &vec![PendingDecision::Apply]), None);
}

#[test]
fn a_hard_link_asks_for_the_source_and_the_target() {
    let mut host = with_rules(&[
        ("protect", ProtectionKind::Metadata, "/data/file"),
        ("protect", ProtectionKind::Write, "/data/hard"),
    ]);
    let operation = ReadWriteOperation::Link {
        from: at("/data/file"),
        to: at("/data/hard"),
    };
    let ids = host.authorize_all(REQUESTER, operation.clone(), None);
    assert_eq!(ids, vec![1, 2]);
    assert!(host.log.contains(" pending path=/data/file METADATA link"));
    assert!(host.log.contains(" pending path=/data/hard WRITE link"));
    let first = &host.registry.pending_read_write[&1];
    assert_eq!(first.kind, ProtectionKind::Metadata);
    assert_eq!(first.path.as_str(), "/data/file");
    let second = &host.registry.pending_read_write[&2];
    assert_eq!(second.kind, ProtectionKind::Write);
    assert_eq!(second.path.as_str(), "/data/hard");
    assert_eq!(
        decided_errno(true, &vec![PendingDecision::Apply, PendingDecision::Apply]),
        None
    );
    let targets = host.fs.forward_targets(&host.registry, &operation).unwrap();
    assert_eq!(targets[0].as_str(), "/local/file");
    assert_eq!(targets[1].as_str(), "/local/hard");
}

#[test]
fn refusing_one_effect_takes_the_others_back() {
    let mut host = with_rules(&[
        ("protect", ProtectionKind::Metadata, "/data/file"),
        ("protect", ProtectionKind::Write, "/data/hard"),
    ]);
    let ids = host.authorize_all(
        REQUESTER,
        ReadWriteOperation::Link {
            from: at("/data/file"),
            to: at("/data/hard"),
        },
        None,
    );
    host.resolve(ids[0], PendingDecision::Deny);
    host.fs.withdraw_requests(&mut host.registry, &ids);
    assert!(host.registry.pending_read_write.is_empty());
    assert!(host.registry.pending_waiters.is_empty());
    assert_eq!(
        decided_errno(true, &vec![PendingDecision::DoNothing, PendingDecision::Deny]),
        Some(Errno::EACCES)
    );
    assert_eq!(
        decided_errno(true, &vec![PendingDecision::Cancel, PendingDecision::Deny]),
        Some(Errno::ECANCELED)
    );
}

#[test]
fn letting_writes_pass_does_not_let_metadata_pass() {
    let mut host = with_rules(&[
        ("protect", ProtectionKind::Write, "/data/**"),
        ("bypass", ProtectionKind::Write, "/data/**"),
        ("protect", ProtectionKind::Metadata, "/data/**"),
    ]);
    let ids = host.authorize_all(
        REQUESTER,
        ReadWriteOperation::Truncate {
            path: at("/data/file"),
        },
        None,
    );
    assert_eq!(ids.len(), 1);
    assert!(host
        .log
        .contains(" pending path=/data/file METADATA truncate"));
    assert!(host
        .authorize_all(
            REQUESTER,
            ReadWriteOperation::Create {
                path: at("/data/new")
            },
            None
        )
        .is_empty());
}

#[test]
fn reading_extended_attributes_is_asked_for() {
    for kind in [ProtectionKind::Read, ProtectionKind::Xattr] {
        let mut host = with_rules(&[("protect", kind, "/data/**")]);
        assert_eq!(host.authorize_all(REQUESTER, get_xattr(), None).len(), 1);
        assert!(host.log.contains("GETXATTR name=user.gated"));
        let list = ReadWriteOperation::ListXattr {
            path: at("/data/file"),
        };
        assert_eq!(host.authorize_all(REQUESTER, list, None).len(), 1);
        assert!(host.log.contains("path=/data/file LISTXATTR"));
    }
    let mut host = with_rules(&[("protect", ProtectionKind::Metadata, "/data/**")]);
    assert!(host.authorize_all(REQUESTER, get_xattr(), None).is_empty());
}

#[test]
fn changing_extended_attributes_is_asked_for() {
    for kind in [
        ProtectionKind::Write,
        ProtectionKind::Metadata,
        ProtectionKind::Xattr,
    ] {
        let mut host = with_rules(&[("protect", kind, "/data/**")]);
        assert_eq!(host.authorize_all(REQUESTER, set_xattr(), None).len(), 1);
        assert!(host.log.contains(" pending path=/data/file SETXATTR name=user.gated"));
        let remove = ReadWriteOperation::RemoveXattr {
            path: at("/data/file"),
            name: "user.gated".to_string(),
        };
        assert_eq!(host.authorize_all(REQUESTER, remove, None).len(), 1);
        assert!(host.log.contains("REMOVEXATTR name=user.gated"));
    }
}

#[test]
fn only_rules_about_extended_attributes_release_them() {
    let guard = ("protect", ProtectionKind::Xattr, "/data/**");
    for kind in [
        ProtectionKind::Read,
        ProtectionKind::Write,
        ProtectionKind::Metadata,
    ] {
        let mut host = with_rules(&[guard, ("bypass", kind, "/data/**")]);
        assert_eq!(host.authorize_all(REQUESTER, get_xattr(), None).len(), 1);
        assert_eq!(host.authorize_all(REQUESTER, set_xattr(), None).len(), 1);
    }
    let mut host = with_rules(&[
        ("protect", ProtectionKind::Read, "/data/**"),
        ("protect", ProtectionKind::Metadata, "/data/**"),
        ("bypass", ProtectionKind::Xattr, "/data/**"),
    ]);
    assert!(host.authorize_all(REQUESTER, get_xattr(), None).is_empty());
    assert!(host.authorize_all(REQUESTER, set_xattr(), None).is_empty());
    let step = host
        .fs
        .change_metadata(
            &mut host.registry,
            REQUESTER,
            chmod("/data/file", 0o600),
            false,
        )
        .unwrap();
    host.ask(step);
    assert!(host.log.contains("SETATTR mode=0600"));
}

#[test]
fn a_grant_can_cover_one_effect_of_two() {
    let mut host = with_rules(&[
        ("protect", ProtectionKind::Write, "/data/old"),
        ("protect", ProtectionKind::Write, "/data/new"),
    ]);
    host.registry.insert_read_write_grant(ReadWriteAccessGrant {
        kind: ProtectionKind::Write,
        ..grant("/data/old", ReadWriteGrantLifetime::OneShot)
    });
    let ids = host.authorize_all(
        REQUESTER,
        ReadWriteOperation::Rename {
            from: at("/data/old"),
            to: at("/data/new"),
        },
        Some(IDENTITY),
    );
    assert_eq!(ids, vec![2]);
    assert!(host.log.contains(" id=1 grant-consumed grant=42"));
    assert_eq!(
        host.registry.pending_read_write[&2].path.as_str(),
        "/data/new"
    );
}

#[test]
fn only_what_a_layer_shows_is_worked_on() {
    let mut host = Host::new();
    host.sandbox().add_hide(at("/data/secret"));
    let write = |path: &str| ReadWriteOperation::WriteFile { path: at(path) };
    for path in ["/data/secret", "/", "/nothing"] {
        assert!(matches!(
            host.fs.forward_targets(&host.registry, &write(path)),
            Err(Errno::EROFS)
        ));
    }
    let list = |path: &str| ReadWriteOperation::ListXattr { path: at(path) };
    assert!(matches!(
        host.fs.forward_targets(&host.registry, &list("/")),
        Err(Errno::ENOTSUP)
    ));
    assert!(matches!(
        host.fs
            .forward_targets(&host.registry, &list("/data/secret")),
        Err(Errno::ENOENT)
    ));
}

#[test]
fn what_is_immutable_is_not_changed() {
    let mut host = Host::new();
    let operation = ReadWriteOperation::WriteFile {
        path: at("/data/file"),
    };
    assert!(host.fs.forward_targets(&host.registry, &operation).is_ok());
    let step = host
        .fs
        .change_metadata(
            &mut host.registry,
            REQUESTER,
            MetadataOperation::Chattr {
                path: at("/data/file"),
                flags: 0x10,
            },
            false,
        )
        .unwrap();
    assert!(matches!(step, MetadataStep::Applied));
    assert!(matches!(
        host.fs.forward_targets(&host.registry, &operation),
        Err(Errno::EPERM)
    ));
    let read = ReadWriteOperation::GetXattr {
        path: at("/data/file"),
        name: "user.a".to_string(),
    };
    assert!(host.fs.forward_targets(&host.registry, &read).is_ok());
}

#[test]
fn rules_do_not_reach_what_is_hidden_or_missing() {
    let mut host = with_rules(&[
        ("protect", ProtectionKind::Metadata, "/**"),
        ("protect", ProtectionKind::Read, "/**"),
        ("protect", ProtectionKind::Write, "/**"),
    ]);
    host.sandbox().add_hide(at("/data/secret"));
    let next = host.registry.next_operation_id;
    for path in ["/data/secret", "/data/secret/file", "/elsewhere"] {
        assert_eq!(
            host.fs
                .begin_metadata_request(&mut host.registry, REQUESTER, chmod(path, 0o600))
                .err(),
            Some(Errno::ENOENT)
        );
        assert_eq!(
            host.fs
                .change_metadata(&mut host.registry, REQUESTER, chmod(path, 0o600), false)
                .err(),
            Some(Errno::ENOENT)
        );
        assert_eq!(host.authorize(REQUESTER, read(path), Some(IDENTITY)), None);
        assert_eq!(
            host.fs.forward_targets(&host.registry, &read(path)).err(),
            Some(Errno::ENOENT)
        );
    }
    assert!(host.pending_ids().is_empty());
    assert_eq!(host.registry.next_operation_id, next);
    assert!(host
        .authorize(REQUESTER, read("/data/file"), Some(IDENTITY))
        .is_some());
}

#[test]
fn a_trusted_operation_does_not_reach_what_is_hidden() {
    let mut host = Host::new();
    host.sandbox().add_hide(at("/data/secret"));
    host.registry.trusted.insert(
        "token".to_string(),
        TrustedOperation {
            id: 7,
            token: "token".to_string(),
            sandbox: "demo".to_string(),
            mountpoint: HostPath::new("/mnt"),
            command: "chmod".to_string(),
            pid: Some(REQUESTER.pid),
            uid: Some(REQUESTER.uid),
            paths: vec![TrustedPathScope {
                path: at("/"),
                recursive: true,
            }],
        },
    );
    assert_eq!(
        host.fs
            .change_metadata(
                &mut host.registry,
                REQUESTER,
                chmod("/data/secret", 0o600),
                false
            )
            .err(),
        Some(Errno::ENOENT)
    );
    assert!(matches!(
        host.fs.change_metadata(
            &mut host.registry,
            REQUESTER,
            chmod("/data/file", 0o600),
            false
        ),
        Ok(MetadataStep::Trusted { .. })
    ));
}

#[test]
fn a_directory_that_only_leads_to_layers_keeps_its_metadata() {
    let mut host = Host::new();
    assert_eq!(
        host.fs
            .change_metadata(&mut host.registry, REQUESTER, chmod("/", 0o600), true)
            .err(),
        Some(Errno::ENOTSUP)
    );
}
