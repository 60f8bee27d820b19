use sandboxfs::grant::grant_pattern_matches;
use sandboxfs::grant::GrantMatchOutcome;
use sandboxfs::grant::ReadWriteAccessGrant;
use sandboxfs::grant::ReadWriteGrantLifetime;
use sandboxfs::grant::ReadWriteGrantSubject;
use sandboxfs::metadata::MetadataObjectKey;
use sandboxfs::operation::MetadataOperation;
use sandboxfs::operation::ReadWriteOperation;
use sandboxfs::path::SandboxPath;
use sandboxfs::pending::PendingMetadataRequest;
use sandboxfs::pending::PendingReadWriteRequest;
use sandboxfs::pending::PendingRequest;
use sandboxfs::pending::SerializedPendingMetadataRequest;
use sandboxfs::policy::ProtectionKind;
use sandboxfs::process_info::ProcessEntry;
use sandboxfs::process_info::ProcessIdentityEvidence;
use sandboxfs::process_info::ProcessInfoProvider;
use sandboxfs::process_info::ProcessSnapshot;
use sandboxfs::registry::SandboxRegistry;
use sandboxfs::time::duration_expires_at;
use sandboxfs::time::epoch_millis;
use sandboxfs::time::TimeSpan;
use sandboxfs::time::Timestamp;

const NOW: Timestamp = Timestamp {
    secs: 1_750_000_000,
    nanos: 5_000_000,
};

fn at(text: &str) -> SandboxPath {
    SandboxPath::new(text).unwrap()
}

fn identity() -> ProcessIdentityEvidence {
    ProcessIdentityEvidence {
        pid: 123,
        start_time: 456,
    }
}

fn grant(id: u64, pattern: &str, lifetime: ReadWriteGrantLifetime) -> ReadWriteAccessGrant {
    ReadWriteAccessGrant {
        id,
        sandbox: "s".to_string(),
        kind: ProtectionKind::Read,
        path_pattern: at(pattern),
        subject: ReadWriteGrantSubject::Exact {
            identity: identity(),
        },
        lifetime,
        created_at_epoch_ms: epoch_millis(NOW),
    }
}

fn metadata_request(id: u64, object: &str, operation: MetadataOperation) -> PendingMetadataRequest {
    PendingMetadataRequest {
        id,
        sandbox: "s".to_string(),
        attach_id: None,
        object: MetadataObjectKey {
            layer_id: 1,
            relative_path: object.to_string(),
        },
        kinds: operation.pending_kinds(),
        pid: 123,
        uid: 1000,
        gid: 1000,
        description: operation.description(),
        operation,
    }
}

#[test]
fn grant_patterns_use_plain_glob_semantics_without_protection_subtree_shortcut() {
    assert!(grant_pattern_matches(&at("/secret/*"), &at("/secret/file")));
    assert!(!grant_pattern_matches(&at("/secret/*"), &at("/secret")));
    assert!(!grant_pattern_matches(&at("/secret/*"), &at("/secret/a/b")));
    assert!(grant_pattern_matches(&at("/secret/**"), &at("/secret/a/b")));
}

#[test]
fn registry_matches_grants_by_kind_path_and_requester_identity() {
    let mut registry = SandboxRegistry::new();
    registry.insert_read_write_grant(grant(
        7,
        "/data/**",
        ReadWriteGrantLifetime::Duration {
            expires_at_epoch_ms: duration_expires_at(NOW, TimeSpan::from_secs(60)),
        },
    ));

    assert_eq!(
        registry.match_read_write_grant_for_intent(
            "s",
            ProtectionKind::Read,
            &at("/data/file"),
            Some(identity()),
            NOW,
        ),
        GrantMatchOutcome::Matched {
            grant_id: 7,
            consumed: false
        }
    );
    assert_eq!(
        registry.match_read_write_grant_for_intent(
            "s",
            ProtectionKind::Write,
            &at("/data/file"),
            Some(identity()),
            NOW,
        ),
        GrantMatchOutcome::NotMatched
    );
    assert_eq!(
        registry.match_read_write_grant_for_intent(
            "s",
            ProtectionKind::Read,
            &at("/other/file"),
            Some(identity()),
            NOW,
        ),
        GrantMatchOutcome::NotMatched
    );
    assert_eq!(
        registry.match_read_write_grant_for_intent(
            "s",
            ProtectionKind::Read,
            &at("/data/file"),
            None,
            NOW,
        ),
        GrantMatchOutcome::NotMatched
    );
}

#[test]
fn one_shot_grants_are_consumed_on_first_match() {
    let mut registry = SandboxRegistry::new();
    registry.insert_read_write_grant(grant(7, "/data/file", ReadWriteGrantLifetime::OneShot));

    assert_eq!(
        registry.match_read_write_grant_for_intent(
            "s",
            ProtectionKind::Read,
            &at("/data/file"),
            Some(identity()),
            NOW,
        ),
        GrantMatchOutcome::Matched {
            grant_id: 7,
            consumed: true
        }
    );
    assert!(registry.read_write_grants.is_empty());
    assert_eq!(
        registry.match_read_write_grant_for_intent(
            "s",
            ProtectionKind::Read,
            &at("/data/file"),
            Some(identity()),
            NOW,
        ),
        GrantMatchOutcome::NotMatched
    );
}

#[test]
fn the_first_covering_grant_is_used() {
    let mut registry = SandboxRegistry::new();
    registry.insert_read_write_grant(grant(9, "/data/*", ReadWriteGrantLifetime::OneShot));
    registry.insert_read_write_grant(grant(4, "/data/*", ReadWriteGrantLifetime::OneShot));
    for expected in [4, 9] {
        assert_eq!(
            registry.match_read_write_grant_for_intent(
                "s",
                ProtectionKind::Read,
                &at("/data/file"),
                Some(identity()),
                NOW,
            ),
            GrantMatchOutcome::Matched {
                grant_id: expected,
                consumed: true
            }
        );
    }
}

#[test]
fn expired_grants_cover_nothing_and_are_pruned() {
    let mut registry = SandboxRegistry::new();
    let ends = epoch_millis(NOW);
    assert_eq!(ends, 1_750_000_000_005);
    registry.insert_read_write_grant(grant(
        1,
        "/data/*",
        ReadWriteGrantLifetime::Duration {
            expires_at_epoch_ms: ends,
        },
    ));
    registry.insert_read_write_grant(grant(
        2,
        "/data/*",
        ReadWriteGrantLifetime::Duration {
            expires_at_epoch_ms: ends + 1,
        },
    ));
    let removed = registry.prune_expired_read_write_grants_for_sandbox("other", NOW);
    assert!(removed.is_empty());
    let removed = registry.prune_expired_read_write_grants_for_sandbox("s", NOW);
    assert_eq!(removed.len(), 1);
    assert_eq!(removed[0].id, 1);
    assert_eq!(registry.read_write_grants.len(), 1);
}

#[test]
fn durations_end_ahead_of_now() {
    assert_eq!(
        duration_expires_at(NOW, TimeSpan::from_secs(60)),
        1_750_000_060_005
    );
    let before_epoch = Timestamp { secs: -5, nanos: 0 };
    assert_eq!(epoch_millis(before_epoch), 0);
    assert_eq!(
        duration_expires_at(NOW, TimeSpan::from_secs(u64::MAX)),
        u128::MAX
    );
}

#[test]
fn pending_metadata_serialization_hides_internal_object_key() {
    let operation = MetadataOperation::Chmod {
        path: at("/data/file"),
        mode: 0o444,
    };
    let request = PendingMetadataRequest {
        id: 2,
        sandbox: "s".to_string(),
        attach_id: None,
        operation: operation.clone(),
        object: MetadataObjectKey {
            layer_id: 99,
            relative_path: "private/relative".to_string(),
        },
        kinds: operation.pending_kinds(),
        pid: 123,
        uid: 1000,
        gid: 1000,
        description: operation.description(),
    };

    let shown = SerializedPendingMetadataRequest::from(request);
    let text = format!("{shown:?}");
    assert!(!text.contains("object"));
    assert!(!text.contains("layer_id"));
    assert!(!text.contains("relative_path"));
    assert!(!text.contains("private/relative"));
    assert!(text.contains("/data/file"));
    let restored = shown.restored();
    assert_eq!(restored.id, 2);
    assert_eq!(restored.object.layer_id, 0);
    assert_eq!(restored.object.relative_path, "");
}

#[test]
fn registry_tracks_read_write_pending_separately_and_lists_sorted() {
    let mut registry = SandboxRegistry::new();
    registry.insert_pending_request(metadata_request(
        2,
        "file",
        MetadataOperation::Chmod {
            path: at("/data/file"),
            mode: 0o444,
        },
    ));
    registry.insert_pending_read_write_request(PendingReadWriteRequest::new(
        1,
        "s".to_string(),
        ReadWriteOperation::ReadFile {
            path: at("/data/file"),
        },
        123,
        1000,
        1000,
    ));

    let items = registry.pending_requests_for_sandbox("s");
    assert_eq!(
        items.iter().map(PendingRequest::id).collect::<Vec<_>>(),
        vec![1, 2]
    );
    assert_eq!(items[0].description(), "path=/data/file READ file");
    assert_eq!(items[1].description(), "path=/data/file SETATTR mode=0444");
    assert!(items[0].metadata_shell_hint().is_none());
    assert_eq!(
        items[1].metadata_shell_hint(),
        Some("chmod 444 /data/file".to_string())
    );

    assert!(matches!(
        registry.remove_any_pending_request(1),
        Some(PendingRequest::ReadWrite(_))
    ));
    assert!(registry.pending_read_write.is_empty());
    assert!(registry.pending.contains_key(&2));
    assert_eq!(registry.pending_index.len(), 1);
}

#[test]
fn a_request_that_is_put_back_is_where_it_was() {
    let mut registry = SandboxRegistry::new();
    registry.insert_pending_request(metadata_request(
        5,
        "file",
        MetadataOperation::Chown {
            path: at("/data/file"),
            uid: Some(1),
            gid: Some(2),
        },
    ));
    assert_eq!(registry.pending_index.len(), 2);
    let taken = registry.remove_any_pending_request(5).unwrap();
    assert!(registry.pending_index.is_empty());
    registry.insert_any_pending_request(taken);
    assert_eq!(registry.pending_index.len(), 2);
    assert!(registry.pending.contains_key(&5));
    assert!(registry.remove_any_pending_request(6).is_none());
}

#[test]
fn numbers_are_handed_out_once() {
    let mut registry = SandboxRegistry::new();
    assert_eq!(registry.next_operation_id(), 1);
    assert_eq!(registry.next_operation_id(), 2);
    assert_eq!(registry.next_operation_id, 3);
}

#[test]
fn process_trees_follow_parents() {
    let snapshot = ProcessSnapshot {
        entries: vec![
            ProcessEntry {
                pid: 1,
                parent: None,
                start_time: 10,
            },
            ProcessEntry {
                pid: 20,
                parent: Some(1),
                start_time: 11,
            },
            ProcessEntry {
                pid: 30,
                parent: Some(20),
                start_time: 12,
            },
            ProcessEntry {
                pid: 40,
                parent: Some(1),
                start_time: 13,
            },
        ],
    };
    assert!(snapshot.is_process_in_tree(20, 30));
    assert!(!snapshot.is_process_in_tree(20, 40));
    assert!(!snapshot.is_process_in_tree(20, 99));
    let tree = snapshot.process_tree_for_pid(20).unwrap();
    assert_eq!(
        tree,
        vec![
            ProcessIdentityEvidence {
                pid: 20,
                start_time: 11
            },
            ProcessIdentityEvidence {
                pid: 30,
                start_time: 12
            },
        ]
    );
    assert_eq!(
        snapshot.identity_for_pid(40),
        Some(ProcessIdentityEvidence {
            pid: 40,
            start_time: 13
        })
    );
    assert!(snapshot.identity_for_pid(99).is_none());
    assert!(snapshot.process_tree_for_pid(99).is_none());
}

#[test]
fn object_keys_are_the_same_where_their_parts_are() {
    let key = |text: &str| MetadataObjectKey {
        layer_id: 1,
        relative_path: text.to_string(),
    };
    assert!(key("a/b") == key("a//b/"));
    assert!(key("a/b") != key("a/c"));
    assert!(key("a") != MetadataObjectKey { layer_id: 2, relative_path: "a".to_string() });
}

#[test]
fn requests_with_a_common_part_are_listed_all_the_same() {
    let chmod = |mode: u16| MetadataOperation::Chmod {
        path: at("/data/file"),
        mode,
    };
    let mut registry = SandboxRegistry::new();
    registry.insert_pending_request(metadata_request(1, "file", chmod(0o600)));
    registry.insert_pending_request(metadata_request(2, "file/", chmod(0o644)));
    assert_eq!(registry.pending_index.len(), 1);
    let ids: Vec<u64> = registry
        .pending_requests_for_sandbox("s")
        .iter()
        .map(|request| request.id())
        .collect();
    assert_eq!(ids, [1, 2]);
    assert!(registry.remove_pending_request(1).is_some());
    assert_eq!(registry.pending_index.len(), 1);
    assert!(registry.remove_pending_request(2).is_some());
    assert!(registry.pending_index.is_empty());
}

#[test]
fn a_span_of_a_millisecond_ends_later_than_now() {
    let span = TimeSpan {
        secs: 0,
        nanos: 1_000_000,
    };
    let late = Timestamp {
        secs: 7,
        nanos: 999_999_999,
    };
    assert_eq!(epoch_millis(late), 7_999);
    assert_eq!(duration_expires_at(late, span), 8_000);
    assert_eq!(duration_expires_at(NOW, span), epoch_millis(NOW) + 1);
}
