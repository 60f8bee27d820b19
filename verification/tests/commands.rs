use sandboxfs::cli::contact_error;
use sandboxfs::cli::exit_code;
use sandboxfs::cli::expect_done;
use sandboxfs::cli::expect_pending;
use sandboxfs::cli::expect_text;
use sandboxfs::cli::expect_trusted;
use sandboxfs::cli::format_passthrough_rules;
use sandboxfs::cli::format_pending_items;
use sandboxfs::cli::format_protection_rules;
use sandboxfs::cli::parse_duration;
use sandboxfs::cli::plan_command;
use sandboxfs::cli::recovery;
use sandboxfs::cli::show_response;
use sandboxfs::cli::tail_lines;
use sandboxfs::cli::trusted_command;
use sandboxfs::cli::CommandPlan;
use sandboxfs::cli::SandboxCommand;
use sandboxfs::cli::TrustedStage;
use sandboxfs::command::reject_parent_dir_operand;
use sandboxfs::command::rewrite_all_args;
use sandboxfs::command::rewrite_chattr_args;
use sandboxfs::command::rewrite_chmod_args;
use sandboxfs::command::rewrite_chown_args;
use sandboxfs::command::rewrite_command_path_args;
use sandboxfs::attr::FS_IMMUTABLE_FL;
use sandboxfs::grant::ReadWriteGrantLifetimeRequest;
use sandboxfs::ipc::Request;
use sandboxfs::ipc::Response;
use sandboxfs::metadata::MetadataObjectKey;
use sandboxfs::operation::MetadataOperation;
use sandboxfs::operation::PendingOperationKind;
use sandboxfs::path::SandboxPath;
use sandboxfs::pending::PendingMetadataRequest;
use sandboxfs::pending::PendingRequest;
use sandboxfs::policy::PassthroughRule;
use sandboxfs::policy::PolicyPattern;
use sandboxfs::policy::ProtectionKind;
use sandboxfs::policy::ProtectionRule;

fn words(list: &[&str]) -> Vec<String> {
    list.iter().map(|word| word.to_string()).collect()
}

fn object() -> MetadataObjectKey {
    MetadataObjectKey {
        layer_id: 1,
        relative_path: "file".to_string(),
    }
}

#[test]
fn chmod_rewrites_only_path_arguments() {
    let rewritten = rewrite_chmod_args(&words(&["-R", "444", "/a/b"])).unwrap();
    assert_eq!(rewritten.args, vec!["-R", "444", "./a/b"]);
    assert_eq!(rewritten.paths.len(), 1);
    assert_eq!(rewritten.paths[0].path, SandboxPath::new("/a/b").unwrap());
    assert!(rewritten.paths[0].recursive);
}

#[test]
fn chown_rewrites_only_path_arguments() {
    let rewritten = rewrite_chown_args(&words(&["root:root", "/a/b"])).unwrap();
    assert_eq!(rewritten.args, vec!["root:root", "./a/b"]);
    assert_eq!(rewritten.paths.len(), 1);
    assert_eq!(rewritten.paths[0].path, SandboxPath::new("/a/b").unwrap());
    assert!(!rewritten.paths[0].recursive);
}

#[test]
fn path_rewriting_rejects_parent_components() {
    let error = rewrite_chmod_args(&words(&["444", "../host"])).unwrap_err();
    assert!(error.message().contains("'..'"));
}

#[test]
fn monitor_tails_last_lines() {
    let data = "one\ntwo\nthree\nfour\n";
    assert_eq!(tail_lines(data, 2), "three\nfour\n");
    assert_eq!(tail_lines(data, 10), data);
    assert_eq!(tail_lines(data, 0), "");
}

#[test]
fn tail_keeps_an_unfinished_last_line() {
    assert_eq!(tail_lines("one\ntwo\nthr", 1), "two\nthr");
    assert_eq!(tail_lines("ein\nzwöi\ndrü\n", 1), "drü\n");
    assert_eq!(tail_lines("", 3), "");
}

#[test]
fn pending_response_lines_use_operation_descriptions() {
    let items = vec![
        PendingRequest::Metadata(PendingMetadataRequest {
            id: 7,
            sandbox: "demo".to_string(),
            attach_id: None,
            operation: MetadataOperation::Chmod {
                path: SandboxPath::new("/data/file").unwrap(),
                mode: 0o444,
            },
            object: object(),
            kinds: vec![PendingOperationKind::Mode],
            pid: 123,
            uid: 1000,
            gid: 1000,
            description: "path=/data/file SETATTR mode=0444".to_string(),
        }),
        PendingRequest::Metadata(PendingMetadataRequest {
            id: 8,
            sandbox: "demo".to_string(),
            attach_id: None,
            operation: MetadataOperation::Chattr {
                path: SandboxPath::new("/data/file").unwrap(),
                flags: FS_IMMUTABLE_FL,
            },
            object: object(),
            kinds: vec![PendingOperationKind::Flags],
            pid: 123,
            uid: 1000,
            gid: 1000,
            description: "path=/data/file CHATTR flags=0x10".to_string(),
        }),
    ];

    assert_eq!(
        format_pending_items(&items),
        "7 path=/data/file SETATTR mode=0444\n8 path=/data/file CHATTR flags=0x10"
    );
}

#[test]
fn chmod_takes_options_only_before_the_mode() {
    let rewritten =
        rewrite_chmod_args(&words(&["-v", "--", "u+x", "/a", "--", "-odd"])).unwrap();
    assert_eq!(rewritten.args, vec!["-v", "--", "u+x", "./a", "--", "-odd"]);
    let named: Vec<&str> = rewritten.paths.iter().map(|scope| scope.path.as_str()).collect();
    assert_eq!(named, vec!["/a", "/-odd"]);
    assert!(rewritten.paths.iter().all(|scope| !scope.recursive));
}

#[test]
fn options_with_paths_are_refused_before_later_faults() {
    assert_eq!(
        rewrite_chmod_args(&words(&["--reference=/x", "../y"])).unwrap_err().message(),
        "chmod --reference is not supported by sandboxfs path rewriting"
    );
    assert_eq!(
        rewrite_chown_args(&words(&["root", "../y", "--from=me"])).unwrap_err().message(),
        "metadata command paths containing '..' are not supported by sandboxfs path rewriting"
    );
    assert_eq!(
        rewrite_chown_args(&words(&["--from=me", "root", "/y"])).unwrap_err().message(),
        "chown --reference/--from is not supported by sandboxfs path rewriting"
    );
}

#[test]
fn chattr_skips_what_looks_like_flags() {
    let rewritten = rewrite_chattr_args(&words(&["-R", "+i", "/a", "=x", "/b"])).unwrap();
    assert_eq!(rewritten.args, vec!["-R", "+i", "./a", "=x", "./b"]);
    assert_eq!(rewritten.paths.len(), 2);
    assert!(rewritten.paths[0].recursive);
    let rewritten = rewrite_chattr_args(&words(&["weird", "/a"])).unwrap();
    assert_eq!(rewritten.args, vec!["weird", "./a"]);
}

#[test]
fn commands_need_enough_arguments() {
    let one = words(&["444"]);
    assert_eq!(
        rewrite_chmod_args(&one).unwrap_err().message(),
        "chmod requires mode and path"
    );
    assert_eq!(
        rewrite_chown_args(&one).unwrap_err().message(),
        "chown requires owner and path"
    );
    assert_eq!(
        rewrite_chattr_args(&one).unwrap_err().message(),
        "chattr requires flags and path"
    );
    assert_eq!(rewrite_all_args(&words(&["/a"])).unwrap().args, vec!["./a"]);
    assert_eq!(
        rewrite_command_path_args("touch", &words(&["/a", "b"])).unwrap().args,
        vec!["./a", "b"]
    );
    assert!(reject_parent_dir_operand("a/..b").is_ok());
}

#[test]
fn trusted_commands_check_their_arguments() {
    assert_eq!(
        trusted_command("chmod", &vec![]).unwrap_err().message(),
        "chmod requires arguments"
    );
    assert_eq!(
        trusted_command("chmod", &words(&["444", "/a\0b"])).unwrap_err().message(),
        "argument contains NUL"
    );
    let done = trusted_command("chattr", &words(&["+i", "/a"])).unwrap();
    assert_eq!(done.args, vec!["+i", "./a"]);
}

#[test]
fn rewritten_paths_name_the_same_sandbox_path() {
    for text in ["/", "/a/b", "a/./b", "/a//b/"] {
        let rewritten = rewrite_sandbox(text);
        assert!(!rewritten.starts_with('/'));
        assert_eq!(
            SandboxPath::new(&rewritten).unwrap(),
            SandboxPath::new(text).unwrap()
        );
    }
}

fn rewrite_sandbox(text: &str) -> String {
    rewrite_all_args(&words(&[text])).unwrap().args[0].clone()
}

#[test]
fn durations_have_a_unit() {
    assert_eq!(parse_duration("30m").unwrap(), 1800);
    assert_eq!(parse_duration("45s").unwrap(), 45);
    assert_eq!(parse_duration("2h").unwrap(), 7200);
    for text in ["", "m", "30", "3x0m", "-1s", "99999999999999999999s", "18446744073709551615m"] {
        assert_eq!(
            parse_duration(text).unwrap_err().message(),
            format!("invalid duration: {text}")
        );
    }
}

fn sent(command: SandboxCommand) -> Request {
    match plan_command("demo".to_string(), command).unwrap() {
        CommandPlan::Send { request } => request,
        other => panic!("unexpected {other:?}"),
    }
}

fn allow(
    do_nothing: bool,
    id: Option<u64>,
    path: Option<&str>,
    duration: Option<Option<&str>>,
    tree: bool,
) -> SandboxCommand {
    SandboxCommand::Allow {
        do_nothing,
        id,
        path: path.map(|text| text.to_string()),
        duration: duration.map(|text| text.map(|text| text.to_string())),
        tree,
    }
}

#[test]
fn commands_become_requests() {
    assert!(matches!(sent(SandboxCommand::Destroy), Request::Shutdown { name } if name == "demo"));
    assert!(matches!(
        sent(SandboxCommand::Attach { mountpoint: "/m".to_string() }),
        Request::Attach { mountpoint, temporary: false, .. } if mountpoint == "/m"
    ));
    assert!(matches!(
        sent(SandboxCommand::Mount { local: None, on_fs: None }),
        Request::ListMounts { .. }
    ));
    match sent(SandboxCommand::Mount {
        local: Some("/l".to_string()),
        on_fs: Some("data".to_string()),
    }) {
        Request::Mount { local, on_fs, .. } => {
            assert_eq!(local, "/l");
            assert_eq!(on_fs.as_str(), "/data");
        }
        other => panic!("unexpected {other:?}"),
    }
    match sent(SandboxCommand::Protect {
        kind: ProtectionKind::Metadata,
        pattern: "/data/".to_string(),
    }) {
        Request::Protect { kind, pattern, .. } => {
            assert_eq!(kind, ProtectionKind::Metadata);
            assert_eq!(pattern.as_str(), "/data/");
        }
        other => panic!("unexpected {other:?}"),
    }
    assert!(matches!(
        sent(SandboxCommand::Bypass { kind: ProtectionKind::Write, pattern: "/x".to_string() }),
        Request::Bypass { kind: ProtectionKind::Write, .. }
    ));
    assert!(matches!(
        sent(SandboxCommand::CancelAll { mountpoint: None }),
        Request::CancelAll { mountpoint: None, .. }
    ));
    assert!(matches!(
        sent(allow(false, None, None, None, false)),
        Request::Pending { .. }
    ));
    assert!(matches!(
        sent(allow(true, Some(3), None, None, false)),
        Request::Allow { id: 3, do_nothing: true, grant: None, .. }
    ));
    assert!(matches!(
        plan_command("demo".to_string(), SandboxCommand::Monitor { follow: true }).unwrap(),
        CommandPlan::Monitor { follow: true }
    ));
    match plan_command("demo".to_string(), SandboxCommand::Chown { args: words(&["x"]) }).unwrap() {
        CommandPlan::Trusted { command, args } => {
            assert_eq!(command, "chown");
            assert_eq!(args, vec!["x"]);
        }
        other => panic!("unexpected {other:?}"),
    }
}

#[test]
fn allow_options_become_a_grant() {
    match sent(allow(false, Some(4), Some("/data/**"), Some(Some("30m")), true)) {
        Request::Allow { id, grant: Some(options), .. } => {
            assert_eq!(id, 4);
            assert_eq!(options.path.unwrap().as_str(), "/data/**");
            assert_eq!(
                options.lifetime,
                ReadWriteGrantLifetimeRequest::Duration { seconds: 1800 }
            );
            assert!(options.tree);
        }
        other => panic!("unexpected {other:?}"),
    }
    match sent(allow(false, Some(4), None, Some(None), false)) {
        Request::Allow { grant: Some(options), .. } => {
            assert_eq!(
                options.lifetime,
                ReadWriteGrantLifetimeRequest::Duration { seconds: 1800 }
            );
        }
        other => panic!("unexpected {other:?}"),
    }
    match sent(allow(false, Some(4), Some("/x"), None, false)) {
        Request::Allow { grant: Some(options), .. } => {
            assert_eq!(options.lifetime, ReadWriteGrantLifetimeRequest::OneShot);
        }
        other => panic!("unexpected {other:?}"),
    }
}

fn refusal(command: SandboxCommand) -> String {
    plan_command("demo".to_string(), command).unwrap_err().message().to_string()
}

#[test]
fn commands_that_make_no_sense_are_refused() {
    assert_eq!(
        refusal(SandboxCommand::Mount { local: Some("/l".to_string()), on_fs: None }),
        "mount expects either no arguments or <local> <on_fs>"
    );
    assert_eq!(
        refusal(allow(true, None, None, None, false)),
        "allow --do-nothing requires an operation id"
    );
    assert_eq!(
        refusal(allow(false, None, None, None, true)),
        "allow grant options require an operation id"
    );
    assert_eq!(
        refusal(allow(false, Some(1), None, Some(Some("soon")), false)),
        "invalid duration: soon"
    );
    assert_eq!(
        refusal(SandboxCommand::Protect {
            kind: ProtectionKind::Read,
            pattern: String::new(),
        }),
        "policy pattern cannot be empty"
    );
    assert!(refusal(SandboxCommand::Unprotect {
        kind: ProtectionKind::Read,
        pattern: "/a[".to_string(),
    })
    .starts_with("invalid glob pattern /a[: "));
}

#[test]
fn answers_are_shown() {
    assert_eq!(show_response(Response::Done).unwrap(), "");
    assert_eq!(
        show_response(Response::Text { text: "hello".to_string() }).unwrap(),
        "hello"
    );
    assert_eq!(
        show_response(Response::Warning { message: "careful".to_string() }).unwrap(),
        "warning: careful"
    );
    assert_eq!(
        show_response(Response::Error { message: "no".to_string() }).unwrap_err().message(),
        "no"
    );
    let rules = vec![
        ProtectionRule {
            kind: ProtectionKind::Read,
            pattern: PolicyPattern::new("/a").unwrap(),
        },
        ProtectionRule {
            kind: ProtectionKind::Write,
            pattern: PolicyPattern::new("/b/**").unwrap(),
        },
    ];
    assert_eq!(format_protection_rules(&rules), "READ /a\nWRITE /b/**");
    let bypasses = vec![PassthroughRule {
        kind: ProtectionKind::Metadata,
        pattern: PolicyPattern::new("/c").unwrap(),
    }];
    assert_eq!(format_passthrough_rules(&bypasses), "METADATA /c");
}

#[test]
fn answers_are_checked_against_the_request() {
    assert!(expect_done(Response::Done, "").is_ok());
    assert_eq!(
        expect_done(Response::Text { text: "x".to_string() }, "Text").unwrap_err().message(),
        "unexpected session response: Text"
    );
    assert_eq!(
        expect_text(Response::Text { text: "x".to_string() }, "").unwrap(),
        "x"
    );
    assert_eq!(
        expect_text(Response::Error { message: "no".to_string() }, "").unwrap_err().message(),
        "no"
    );
    assert!(expect_pending(Response::Pending { items: vec![] }, "").unwrap().is_empty());
    assert_eq!(
        expect_pending(Response::Done, "Ok").unwrap_err().message(),
        "unexpected session response: Ok"
    );
    let begun = Response::Trusted {
        token: "t".to_string(),
        operation_id: 3,
        mountpoint: "/m".to_string(),
    };
    assert_eq!(
        expect_trusted(begun, "").unwrap(),
        ("t".to_string(), "/m".to_string())
    );
    assert_eq!(
        contact_error("demo", "refused").message(),
        "could not contact sandbox session demo; is `sandboxfs run demo` running? (refused)"
    );
}

#[test]
fn failed_trusted_commands_are_undone_as_far_as_they_got() {
    assert!(recovery(TrustedStage::Begin).remove_directory);
    assert!(!recovery(TrustedStage::Begin).end_operation);
    let start = recovery(TrustedStage::Start);
    assert!(start.end_operation && !start.kill_child && !start.wait_for_child);
    let register = recovery(TrustedStage::Register);
    assert!(register.kill_child && register.wait_for_child && register.end_operation);
    let release = recovery(TrustedStage::Release);
    assert!(!release.kill_child && release.wait_for_child && release.end_operation);
    assert!(!recovery(TrustedStage::Wait).wait_for_child);
    assert_eq!(exit_code(Some(3), None), 3);
    assert_eq!(exit_code(None, Some(9)), 137);
    assert_eq!(exit_code(None, None), 1);
}
