use sandboxfs::host::HostPath;
use sandboxfs::metadata::MetadataOverride;
use sandboxfs::operation::MetadataOperation;
use sandboxfs::operation::ReadWriteOperation;
use sandboxfs::path::SandboxPath;
use sandboxfs::policy::PolicyPattern;
use sandboxfs::policy::ProtectionKind;
use sandboxfs::policy::ProtectionRuleResult;
use sandboxfs::sandbox::ResolvedPath;
use sandboxfs::sandbox::Sandbox;

fn at(text: &str) -> SandboxPath {
    SandboxPath::new(text).unwrap()
}

fn pattern(text: &str) -> PolicyPattern {
    PolicyPattern::new(text).unwrap()
}

fn fresh() -> Sandbox {
    Sandbox::new("s".to_string(), HostPath::new("/host/s.log"))
}

fn local_path(s: &Sandbox, path: &str) -> String {
    match s.resolve(&at(path)).unwrap() {
        ResolvedPath::Real { local_path, .. } => local_path.as_str().to_string(),
        _ => panic!("expected real"),
    }
}

fn names(s: &Sandbox, dir: &str, listing: Option<&Vec<String>>) -> Vec<String> {
    let children = s.children(&at(dir), listing).unwrap();
    (0..children.len()).map(|i| children.key_at(i).clone()).collect()
}

#[test]
fn later_layers_override_earlier_layers() {
    let mut s = fresh();
    s.add_layer(HostPath::new("/host/one"), at("/a"));
    s.add_layer(HostPath::new("/host/two"), at("/a"));
    assert_eq!(local_path(&s, "/a/x"), "/host/two/x");
}

#[test]
fn hide_is_overridden_by_newer_layer() {
    let mut s = fresh();
    s.add_layer(HostPath::new("/host/one"), at("/a"));
    s.add_hide(at("/a"));
    assert!(s.resolve(&at("/a")).is_none());
    assert!(s.is_hidden(&at("/a")));
    s.add_layer(HostPath::new("/host/two"), at("/a"));
    assert!(s.resolve(&at("/a")).is_some());
}

#[test]
fn later_nested_layers_create_virtual_ancestors_through_hidden_parent() {
    let mut s = fresh();
    s.add_layer(HostPath::new("/host/root"), at("/"));
    s.add_hide(at("/root"));
    s.add_layer(HostPath::new("/host/pi"), at("/root/.pi"));
    s.add_layer(HostPath::new("/host/cwd"), at("/root/ai/sandbox-fs"));

    assert!(matches!(s.resolve(&at("/root")), Some(ResolvedPath::VirtualDir { .. })));
    assert!(matches!(s.resolve(&at("/root/ai")), Some(ResolvedPath::VirtualDir { .. })));
    assert!(matches!(s.resolve(&at("/root/.pi")), Some(ResolvedPath::Real { .. })));
    assert!(matches!(
        s.resolve(&at("/root/ai/sandbox-fs")),
        Some(ResolvedPath::Real { .. })
    ));
    assert!(s.resolve(&at("/root/Code")).is_none());

    assert_eq!(
        names(&s, "/root", None),
        vec![".pi".to_string(), "ai".to_string()]
    );
    assert_eq!(names(&s, "/root/ai", None), vec!["sandbox-fs".to_string()]);
}

#[test]
fn virtual_ancestors_through_hidden_parent_disappear_as_layers_unwind() {
    let mut s = fresh();
    s.add_layer(HostPath::new("/host/root"), at("/"));
    s.add_hide(at("/root"));
    s.add_layer(HostPath::new("/host/pi"), at("/root/.pi"));
    s.add_layer(HostPath::new("/host/cwd"), at("/root/ai/sandbox-fs"));

    assert!(s.remove_layer(&at("/root/ai/sandbox-fs")));
    assert!(matches!(s.resolve(&at("/root")), Some(ResolvedPath::VirtualDir { .. })));
    assert!(s.resolve(&at("/root/ai")).is_none());

    assert!(s.remove_layer(&at("/root/.pi")));
    assert!(s.resolve(&at("/root")).is_none());
}

#[test]
fn remounting_same_path_unwinds_like_a_stack() {
    let mut s = fresh();
    s.add_layer(HostPath::new("/host/first"), at("/mnt"));
    s.add_layer(HostPath::new("/host/second"), at("/mnt"));
    assert_eq!(local_path(&s, "/mnt/x"), "/host/second/x");
    assert!(s.remove_layer(&at("/mnt")));
    assert_eq!(local_path(&s, "/mnt/x"), "/host/first/x");
    assert!(s.remove_layer(&at("/mnt")));
    assert!(!s.remove_layer(&at("/mnt")));
}

#[test]
fn virtual_dirs_exist_for_missing_intermediate_mount_dirs() {
    let mut s = fresh();
    s.add_layer(HostPath::new("/host/one"), at("/a/b/c"));
    assert!(matches!(s.resolve(&at("/a")), Some(ResolvedPath::VirtualDir { .. })));
    assert!(matches!(s.resolve(&at("/a/b")), Some(ResolvedPath::VirtualDir { .. })));
    assert!(s.is_virtual_dir(&at("/a")));
    assert!(!s.is_virtual_dir(&at("/a/b/c")));
}

#[test]
fn virtual_dirs_disappear_after_last_nested_mount_is_removed() {
    let mut s = fresh();
    s.add_layer(HostPath::new("/host/one"), at("/a/b/c"));
    assert!(s.remove_layer(&at("/a/b/c")));
    assert!(s.resolve(&at("/a")).is_none());
    assert!(s.resolve(&at("/a/b")).is_none());
}

#[test]
fn directories_show_their_listing_and_ways_to_mounts() {
    let mut s = fresh();
    s.add_layer(HostPath::new("/host/root"), at("/"));
    s.add_layer(HostPath::new("/host/deep"), at("/b/deep"));
    s.add_hide(at("/secret"));
    let listing = vec!["c".to_string(), "a".to_string(), "secret".to_string()];
    assert_eq!(names(&s, "/", Some(&listing)), vec!["a", "b", "c"]);
    assert_eq!(
        s.children(&at("/secret"), None).unwrap_err().message(),
        "/secret is hidden"
    );
    let empty = fresh();
    assert_eq!(
        empty.children(&at("/x"), None).unwrap_err().message(),
        "/x does not exist"
    );
}

#[test]
fn metadata_override_tracks_differences() {
    let mut s = fresh();
    s.add_layer(HostPath::new("/host/one"), at("/a"));
    s.apply_metadata_override(&MetadataOperation::Chmod {
        path: at("/a"),
        mode: 0o444,
    })
    .unwrap();
    assert_eq!(s.metadata_differences(), vec![at("/a")]);
}

#[test]
fn metadata_overrides_follow_resolved_layers_through_remount_stack() {
    let mut s = fresh();
    s.add_layer(HostPath::new("/host/first"), at("/data"));
    s.apply_metadata_override(&MetadataOperation::Chmod {
        path: at("/data/file"),
        mode: 0o444,
    })
    .unwrap();

    assert_eq!(
        s.metadata_override_for_path(&at("/data/file")).and_then(|o| o.mode),
        Some(0o444)
    );
    assert_eq!(s.metadata_differences(), vec![at("/data/file")]);

    s.add_layer(HostPath::new("/host/second"), at("/data"));
    assert!(s.metadata_override_for_path(&at("/data/file")).is_none());
    assert!(s.metadata_differences().is_empty());

    assert!(s.remove_layer(&at("/data")));
    assert_eq!(
        s.metadata_override_for_path(&at("/data/file")).and_then(|o| o.mode),
        Some(0o444)
    );
}

#[test]
fn overrides_need_an_object() {
    let mut s = fresh();
    s.add_layer(HostPath::new("/host/one"), at("/a/b"));
    let operation = MetadataOperation::Chmod {
        path: at("/a"),
        mode: 0o444,
    };
    assert_eq!(
        s.apply_metadata_override(&operation).unwrap_err().message(),
        "path not found or not real: /a"
    );
    let key = s.metadata_object_key(&at("/a/b/f")).unwrap();
    assert_eq!(key.relative_path, "f");
    assert!(s.remove_layer(&at("/a/b")));
    assert_eq!(
        s.apply_metadata_override_to_object(key, at("/a/b/f"), &operation)
            .unwrap_err()
            .message(),
        "metadata layer not found for path: /a/b/f"
    );
}

#[test]
fn overrides_on_different_parts_do_not_disturb_each_other() {
    let mode = MetadataOperation::Chmod { path: at("/f"), mode: 0o600 };
    let owner = MetadataOperation::Chown { path: at("/f"), uid: Some(7), gid: None };
    let mut one = MetadataOverride::default();
    assert!(one.is_empty());
    one.apply(&mode);
    one.apply(&owner);
    let mut other = MetadataOverride::default();
    other.apply(&owner);
    other.apply(&mode);
    other.apply(&mode);
    assert_eq!(one, other);
    assert_eq!(one.mode, Some(0o600));
    assert_eq!(one.uid, Some(7));
    assert_eq!(one.gid, None);
}

#[test]
fn path_scoped_protection_applies_to_later_visible_descendants() {
    let mut s = fresh();
    s.add_layer(HostPath::new("/host/root"), at("/"));
    s.protect(ProtectionKind::Write, pattern("/root/**"));
    s.add_hide(at("/root"));
    s.add_layer(HostPath::new("/host/pi"), at("/root/.pi"));

    assert!(matches!(s.resolve(&at("/root/.pi")), Some(ResolvedPath::Real { .. })));
    assert!(s.is_protected(ProtectionKind::Write, &at("/root/.pi/config"), false));
}

#[test]
fn protection_pattern_matching_uses_exact_single_component_and_recursive_globs() {
    let mut s = fresh();
    s.protect(ProtectionKind::Read, pattern("/secret"));
    s.protect(ProtectionKind::Write, pattern("/direct/*"));
    s.protect(ProtectionKind::Read, pattern("/tree/**"));
    s.protect(ProtectionKind::Read, pattern("/glob/*.txt"));

    assert!(s.is_protected(ProtectionKind::Read, &at("/secret"), false));
    assert!(!s.is_protected(ProtectionKind::Read, &at("/secret/file"), false));
    assert!(!s.is_protected(ProtectionKind::Write, &at("/direct"), true));
    assert!(s.is_protected(ProtectionKind::Write, &at("/direct/file"), false));
    assert!(!s.is_protected(ProtectionKind::Write, &at("/direct/a/b"), false));
    assert!(!s.is_protected(ProtectionKind::Read, &at("/tree"), true));
    assert!(s.is_protected(ProtectionKind::Read, &at("/tree/a/b"), false));
    assert!(s.is_protected(ProtectionKind::Read, &at("/glob/a.txt"), false));
    assert!(!s.is_protected(ProtectionKind::Read, &at("/glob/a.md"), false));
}

#[test]
fn a_pattern_with_a_slash_at_its_end_selects_directories_only() {
    let p = pattern("/a/b/");
    assert!(p.matches(&at("/a/b"), true));
    assert!(!p.matches(&at("/a/b"), false));
    assert!(pattern("/*/").matches(&at("/x"), true));
    assert!(!pattern("/*/").matches(&at("/"), true));
    assert!(pattern("/**/").matches(&at("/x/y"), true));
    assert!(!pattern("/**/").matches(&at("/x/y"), false));
    assert_eq!(
        PolicyPattern::new("/a\0").unwrap_err().message(),
        "policy pattern cannot contain NUL"
    );
}

#[test]
fn protection_rules_are_idempotent_and_removed_by_exact_kind_and_pattern() {
    let mut s = fresh();
    assert_eq!(
        s.protect(ProtectionKind::Read, pattern("/secret/**")),
        ProtectionRuleResult::Added
    );
    assert_eq!(
        s.protect(ProtectionKind::Read, pattern("/secret/**")),
        ProtectionRuleResult::AlreadyPresent
    );
    assert_eq!(
        s.protect(ProtectionKind::Write, pattern("/secret/**")),
        ProtectionRuleResult::Added
    );
    assert_eq!(s.protection_rules.len(), 2);
    assert_eq!(
        s.unprotect(ProtectionKind::Read, &pattern("/secret/*")),
        ProtectionRuleResult::NotPresent
    );
    assert_eq!(
        s.unprotect(ProtectionKind::Read, &pattern("/secret/**")),
        ProtectionRuleResult::Removed
    );
    assert_eq!(
        s.unprotect(ProtectionKind::Read, &pattern("/secret/**")),
        ProtectionRuleResult::NotPresent
    );
    assert_eq!(s.protection_rules.len(), 1);
    assert!(s.is_protected(ProtectionKind::Write, &at("/secret/file"), false));
}

#[test]
fn protection_list_is_filtered_and_sorted_for_display() {
    let mut s = fresh();
    s.protect(ProtectionKind::Write, pattern("/b"));
    s.protect(ProtectionKind::Write, pattern("/a"));
    s.protect(ProtectionKind::Read, pattern("/b"));
    s.protect(ProtectionKind::Read, pattern("/a"));

    let listed = |read: bool, write: bool| -> Vec<(ProtectionKind, String)> {
        s.protection_rules(read, write, false)
            .iter()
            .map(|rule| (rule.kind, rule.pattern.as_str().to_string()))
            .collect()
    };
    let all = listed(false, false);
    assert_eq!(
        all,
        vec![
            (ProtectionKind::Read, "/a".to_string()),
            (ProtectionKind::Write, "/a".to_string()),
            (ProtectionKind::Read, "/b".to_string()),
            (ProtectionKind::Write, "/b".to_string()),
        ]
    );
    assert_eq!(listed(true, false).len(), 2);
    assert_eq!(listed(false, true).len(), 2);
    assert_eq!(listed(true, true), all);
}

#[test]
fn passthrough_rules_are_kept_apart_from_protection() {
    let mut s = fresh();
    assert_eq!(
        s.add_passthrough(ProtectionKind::Write, pattern("/lock/*")),
        ProtectionRuleResult::Added
    );
    assert_eq!(
        s.add_passthrough(ProtectionKind::Write, pattern("/lock/*")),
        ProtectionRuleResult::AlreadyPresent
    );
    assert!(s.is_passthrough(ProtectionKind::Write, &at("/lock/a"), false));
    assert!(!s.is_passthrough(ProtectionKind::Metadata, &at("/lock/a"), false));
    assert!(!s.is_protected(ProtectionKind::Write, &at("/lock/a"), false));
    assert_eq!(s.passthrough_rules(false, true, false).len(), 1);
    assert_eq!(s.passthrough_rules(true, false, false).len(), 0);
    assert_eq!(
        s.remove_passthrough(ProtectionKind::Write, &pattern("/lock/*")),
        ProtectionRuleResult::Removed
    );
    assert_eq!(
        s.remove_passthrough(ProtectionKind::Write, &pattern("/lock/*")),
        ProtectionRuleResult::NotPresent
    );
}

#[test]
fn read_write_operations_describe_kind_and_primary_path() {
    let read = ReadWriteOperation::ReadDirectory { path: at("/data") };
    assert_eq!(read.kind(), ProtectionKind::Read);
    assert_eq!(read.path(), &at("/data"));
    assert_eq!(read.event_body(), "path=/data READ directory");

    let rename = ReadWriteOperation::Rename {
        from: at("/data/old"),
        to: at("/data/new"),
    };
    assert_eq!(rename.kind(), ProtectionKind::Write);
    assert_eq!(rename.path(), &at("/data/old"));
    assert_eq!(
        rename.event_body(),
        "path=/data/old WRITE rename to=/data/new"
    );
    assert_eq!(rename.protection_paths().len(), 2);
}

#[test]
fn metadata_operations_describe_themselves() {
    let set = MetadataOperation::SetAttr {
        path: at("/f"),
        mode: Some(0o600),
        uid: Some(1),
        gid: None,
        flags: None,
        atime: None,
        mtime: None,
    };
    assert_eq!(set.event_body(), "path=/f SETATTR mode=0600 uid=1");
    assert_eq!(set.pending_kinds().len(), 2);
    let chmod = MetadataOperation::Chmod { path: at("/f"), mode: 0o444 };
    assert_eq!(chmod.shell_hint(), "chmod 444 /f");
    let chattr = MetadataOperation::Chattr { path: at("/f"), flags: 0x10 };
    assert_eq!(chattr.event_body(), "path=/f CHATTR flags=0x10");
}

#[test]
fn a_listing_shows_the_way_to_a_mount_and_nothing_hidden() {
    let mut s = fresh();
    s.add_layer(HostPath::new("/host/root"), at("/"));
    s.add_hide(at("/root"));
    s.add_layer(HostPath::new("/host/pi"), at("/root/a/.pi"));

    let host: Vec<String> = vec!["bin".to_string(), "root".to_string()];
    assert_eq!(names(&s, "/", Some(&host)), ["bin", "root"]);
    let hidden: Vec<String> = vec!["a".to_string(), "secret".to_string()];
    assert_eq!(names(&s, "/root", Some(&hidden)), ["a"]);
    assert_eq!(names(&s, "/root/a", None), [".pi"]);
    assert!(s.resolve(&at("/root/secret")).is_none());
}

#[test]
fn unmounting_takes_the_newest_layer_on_the_path() {
    let mut s = fresh();
    s.add_layer(HostPath::new("/host/one"), at("/x"));
    let between = s.add_layer(HostPath::new("/host/below"), at("/x/y"));
    s.add_layer(HostPath::new("/host/two"), at("/x"));
    assert_eq!(local_path(&s, "/x/f"), "/host/two/f");
    assert!(s.remove_layer(&at("/x")));
    assert_eq!(local_path(&s, "/x/f"), "/host/one/f");
    assert!(s.remove_layer(&at("/x")));
    assert!(!s.remove_layer(&at("/x")));
    assert_eq!(s.layers.len(), 1);
    assert_eq!(s.layers[0].id, between);
}
