use sandboxfs::cli::contact_error;
use sandboxfs::ipc::Request;
use sandboxfs::ipc::Response;
use sandboxfs::log::format_log_line;
use sandboxfs::log::LogTime;
use sandboxfs::metadata::MetadataObjectKey;
use sandboxfs::operation::MetadataOperation;
use sandboxfs::operation::PendingOperationKind;
use sandboxfs::operation::ReadWriteOperation;
use sandboxfs::path::SandboxPath;
use sandboxfs::pending::PendingMetadataRequest;
use sandboxfs::pending::PendingReadWriteRequest;
use sandboxfs::pending::PendingRequest;
use sandboxfs::tui::action_request;
use sandboxfs::tui::edit_failed;
use sandboxfs::tui::edit_finished;
use sandboxfs::tui::edit_plan;
use sandboxfs::tui::edited_command_args;
use sandboxfs::tui::footer;
use sandboxfs::tui::format_pending_row;
use sandboxfs::tui::headline;
use sandboxfs::tui::plan_edited_command;
use sandboxfs::tui::release_args;
use sandboxfs::tui::response_message;
use sandboxfs::tui::PendingAction;
use sandboxfs::tui::TuiAction;
use sandboxfs::tui::TuiKey;
use sandboxfs::tui::TuiState;
use sandboxfs::tui::OPERATION_TITLE;
use sandboxfs::tui::PENDING_TITLE;

fn pending() -> Vec<PendingRequest> {
    vec![
        PendingRequest::Metadata(PendingMetadataRequest {
            id: 42,
            sandbox: "demo_tui".to_string(),
            attach_id: None,
            operation: MetadataOperation::Chmod {
                path: SandboxPath::new("/data/file").unwrap(),
                mode: 0o444,
            },
            object: MetadataObjectKey {
                layer_id: 1,
                relative_path: "file".to_string(),
            },
            kinds: vec![PendingOperationKind::Mode],
            pid: 123,
            uid: 1000,
            gid: 1000,
            description: "path=/data/file SETATTR mode=0444".to_string(),
        }),
        PendingRequest::ReadWrite(PendingReadWriteRequest::new(
            43,
            "demo_tui".to_string(),
            ReadWriteOperation::ReadFile {
                path: SandboxPath::new("/data/file").unwrap(),
            },
            123,
            1000,
            1001,
        )),
    ]
}

#[test]
fn screen_tells_the_request_and_its_keys() {
    let items = pending();
    assert_eq!(
        headline(&items, 0),
        "id=42\npath=/data/file\npath=/data/file SETATTR mode=0444"
    );
    assert_eq!(
        headline(&items, 1),
        "id=43\nkind=READ\npath=/data/file\npid=123 uid=1000 gid=1001\npath=/data/file READ file"
    );
    assert_eq!(headline(&items, 2), "no pending requests");
    assert_eq!(
        format_pending_row(&items[0]),
        "id=42 path=/data/file SETATTR mode=0444"
    );
    assert_eq!(
        format_pending_row(&items[1]),
        "id=43 READ path=/data/file path=/data/file READ file pid=123 uid=1000 gid=1001"
    );
    assert_eq!(
        footer(&items, 0, "ok"),
        "a=allow d=deny n=do-nothing e=edit q=quit ok"
    );
    assert_eq!(footer(&items, 1, "ok"), "a=allow d=deny n=do-nothing q=quit ok");
    assert_eq!(footer(&items, 9, ""), "q=quit ");
}

#[test]
fn keys_move_and_decide() {
    let items = pending();
    let mut state = TuiState::new();
    assert!(matches!(state.on_key(&items, TuiKey::Up), TuiAction::Stay));
    assert_eq!(state.selected, 0);
    assert!(matches!(
        state.on_key(&items, TuiKey::Allow),
        TuiAction::Resolve {
            id: 42,
            action: PendingAction::Allow
        }
    ));
    match state.on_key(&items, TuiKey::Edit) {
        TuiAction::Edit { id, command } => {
            assert_eq!(id, 42);
            assert_eq!(command, "chmod 444 /data/file");
        }
        other => panic!("unexpected {other:?}"),
    }
    state.on_key(&items, TuiKey::Down);
    assert_eq!(state.selected, 1);
    state.on_key(&items, TuiKey::Down);
    assert_eq!(state.selected, 1);
    assert!(matches!(
        state.on_key(&items, TuiKey::Deny),
        TuiAction::Resolve {
            id: 43,
            action: PendingAction::Deny
        }
    ));
    assert!(matches!(state.on_key(&items, TuiKey::Edit), TuiAction::Stay));
    assert_eq!(state.message, "edit is only available for metadata requests");
    state.keep_row(1);
    assert_eq!(state.selected, 0);
    assert!(matches!(
        state.on_key(&vec![], TuiKey::DoNothing),
        TuiAction::Stay
    ));
    assert!(matches!(state.on_key(&items, TuiKey::Quit), TuiAction::Quit));
    assert!(matches!(state.on_key(&items, TuiKey::Other), TuiAction::Stay));
}

#[test]
fn decisions_become_requests() {
    let name = || "demo".to_string();
    assert!(matches!(
        action_request(name(), 3, PendingAction::DoNothing),
        Request::Allow {
            id: 3,
            do_nothing: true,
            grant: None,
            ..
        }
    ));
    assert!(matches!(
        action_request(name(), 3, PendingAction::Allow),
        Request::Allow {
            do_nothing: false,
            ..
        }
    ));
    assert!(matches!(
        action_request(name(), 3, PendingAction::Deny),
        Request::Deny { id: 3, .. }
    ));
    assert_eq!(response_message(Response::Done, ""), "ok");
    assert_eq!(
        response_message(
            Response::Error {
                message: "no".to_string()
            },
            ""
        ),
        "no"
    );
    assert_eq!(
        response_message(
            Response::Text {
                text: "x".to_string()
            },
            "shown"
        ),
        "shown"
    );
}

#[test]
fn edited_commands_are_split_like_a_shell_does() {
    let plan = plan_edited_command("chmod  444 '/data/a b'").unwrap();
    assert_eq!(plan.command, "chmod");
    assert_eq!(plan.args, vec!["444", "/data/a b"]);
    assert_eq!(
        edited_command_args("demo", &plan),
        vec!["demo", "chmod", "444", "/data/a b"]
    );
    assert_eq!(
        plan_edited_command("chmod 'oops").unwrap_err().message(),
        "could not parse edit command"
    );
    assert_eq!(
        plan_edited_command("  ").unwrap_err().message(),
        "edit command is empty"
    );
    assert_eq!(
        plan_edited_command("rm -rf /").unwrap_err().message(),
        "edit command must start with chmod, chown, or chattr"
    );
}

#[test]
fn edited_words_are_checked() {
    let words = |list: &[&str]| Some(list.iter().map(|word| word.to_string()).collect());
    assert_eq!(edit_plan(words(&["chown", "me", "/f"])).unwrap().args, vec!["me", "/f"]);
    assert!(edit_plan(words(&["chattr"])).unwrap().args.is_empty());
    assert_eq!(
        edit_plan(None).unwrap_err().message(),
        "could not parse edit command"
    );
    assert_eq!(
        edit_plan(words(&[])).unwrap_err().message(),
        "edit command is empty"
    );
    assert_eq!(
        release_args("demo", 12),
        vec!["demo", "allow", "--do-nothing", "12"]
    );
    assert_eq!(edit_failed("exit status: 1"), "edited command failed with exit status: 1");
    assert_eq!(edit_finished(true, "x"), "edited command applied");
    assert_eq!(
        edit_finished(false, "exit status: 1"),
        "edited command applied, but original request was not released: exit status: 1"
    );
}

#[test]
fn log_lines_have_a_stamp_and_a_number() {
    let time = LogTime {
        year: 2026,
        month: 6,
        day: 29,
        hour: 13,
        minute: 55,
        second: 12,
        microsecond: 42,
    };
    assert_eq!(
        format_log_line(time, 3, "pending path=/data/file.txt SETATTR mode=0600"),
        "[2026-06-29T13:55:12.000042Z] id=3 pending path=/data/file.txt SETATTR mode=0600"
    );
}

#[test]
fn tui_renders_pending_request_and_controls() {
    let mut items = pending();
    items.truncate(1);
    let rendered = format!(
        "{}\n{}\n{}\n{}\n{}",
        OPERATION_TITLE,
        headline(&items, 0),
        PENDING_TITLE,
        format_pending_row(&items[0]),
        footer(&items, 0, "ok")
    );
    assert!(rendered.contains("Operation"));
    assert!(rendered.contains("42 path=/data/file SETATTR mode=0444"));
    assert!(rendered.contains("a=allow d=deny n=do-nothing e=edit q=quit ok"));
}

#[test]
fn pending_actions_report_session_errors() {
    let error = contact_error("missing_tui_action", "no such file or directory");
    assert!(error.message().contains("sandboxfs run missing_tui_action"));
}
