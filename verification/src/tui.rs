//! The screen that lists pending requests: what it shows, what its keys do, and
//! commands that the user edits.

use vstd::prelude::*;

use crate::error::Error;
use crate::ipc::Request;
use crate::ipc::Response;
use crate::pending::PendingRequest;
use crate::pending::RequestView;
use crate::text;

verus! {

broadcast use vstd::string::group_string_axioms;

/// The words of a command line.
pub uninterp spec fn shlex_words(line: Seq<char>) -> Option<Seq<Seq<char>>>;

/// Splits a command line into words by `shlex::split`, which fails where a quote
/// is not closed or an escape is cut off. Nothing else is claimed of the words.
#[verifier::external_body]
fn split_words(line: &str) -> (words: Option<Vec<String>>)
    ensures
        match words {
            Some(words) => shlex_words(line@) == Some(text::texts(words@)),
            None => shlex_words(line@) is None,
        },
{
    shlex::split(line)
}

/// What the user can decide about a request.
#[derive(Clone, Copy, Debug, PartialEq, Eq, Structural)]
pub enum PendingAction {
    Allow,
    DoNothing,
    Deny,
}

/// The request that carries a decision to the session.
pub open spec fn request_of(name: String, id: u64, action: PendingAction) -> Request {
    match action {
        PendingAction::Allow => Request::Allow { name, id, do_nothing: false, grant: None },
        PendingAction::DoNothing => Request::Allow { name, id, do_nothing: true, grant: None },
        PendingAction::Deny => Request::Deny { name, id },
    }
}

/// The request that carries a decision to the session.
pub fn action_request(name: String, id: u64, action: PendingAction) -> (request: Request)
    ensures
        request == request_of(name, id, action),
{
    match action {
        PendingAction::Allow => Request::Allow { name, id, do_nothing: false, grant: None },
        PendingAction::DoNothing => Request::Allow { name, id, do_nothing: true, grant: None },
        PendingAction::Deny => Request::Deny { name, id },
    }
}

/// What the screen says about an answer. `shown` tells an answer that is neither
/// success nor an error.
pub fn response_message(response: Response, shown: &str) -> (message: String)
    ensures
        match response {
            Response::Done => message@ == "ok"@,
            Response::Error { message: text } => message == text,
            _ => message@ == shown@,
        },
{
    match response {
        Response::Done => "ok".to_owned(),
        Response::Error { message } => message,
        _ => shown.to_owned(),
    }
}

/// A key that the screen knows.
#[derive(Clone, Copy, Debug, PartialEq, Eq, Structural)]
pub enum TuiKey {
    Quit,
    Down,
    Up,
    Allow,
    DoNothing,
    Deny,
    Edit,
    Other,
}

/// What a key leads to.
#[derive(Debug)]
pub enum TuiAction {
    Quit,
    Stay,
    Resolve { id: u64, action: PendingAction },
    Edit { id: u64, command: String },
}

/// The row that is marked, and the last message.
#[derive(Debug)]
pub struct TuiState {
    pub selected: usize,
    pub message: String,
}

/// The row to mark when there are `count` rows.
pub open spec fn kept_row(selected: int, count: int) -> int {
    if selected >= count && count > 0 {
        count - 1
    } else {
        selected
    }
}

/// What a key does to the marked row.
pub open spec fn moved_row(selected: int, count: int, key: TuiKey) -> int {
    match key {
        TuiKey::Down => if selected + 1 < count {
            selected + 1
        } else if count > 0 {
            count - 1
        } else {
            0
        },
        TuiKey::Up => if selected > 0 {
            selected - 1
        } else {
            0
        },
        _ => selected,
    }
}

/// The decision that a key stands for.
pub open spec fn decision_key(key: TuiKey) -> Option<PendingAction> {
    match key {
        TuiKey::Allow => Some(PendingAction::Allow),
        TuiKey::DoNothing => Some(PendingAction::DoNothing),
        TuiKey::Deny => Some(PendingAction::Deny),
        _ => None,
    }
}

impl TuiState {
    pub fn new() -> (state: Self)
        ensures
            state.selected == 0,
            state.message@ == Seq::<char>::empty(),
    {
        TuiState { selected: 0, message: String::new() }
    }

    /// Keeps the mark on a row.
    pub fn keep_row(&mut self, count: usize)
        ensures
            final(self).selected == kept_row(old(self).selected as int, count as int),
            final(self).message == old(self).message,
    {
        if self.selected >= count && count > 0 {
            self.selected = count - 1;
        }
    }

    /// What a key does. A key that needs a request does nothing where no row is
    /// marked.
    pub fn on_key(&mut self, pending: &Vec<PendingRequest>, key: TuiKey) -> (action: TuiAction)
        ensures
            final(self).selected == moved_row(old(self).selected as int, pending.len() as int, key),
            ({
                let at = old(self).selected as int;
                let marked = at < pending.len();
                let request = pending@[at]@;
                if key is Quit {
                    action is Quit && final(self).message == old(self).message
                } else if marked && decision_key(key) is Some {
                    &&& action == TuiAction::Resolve {
                        id: request.id(),
                        action: decision_key(key)->0,
                    }
                    &&& final(self).message == old(self).message
                } else if marked && key is Edit {
                    match request {
                        RequestView::Metadata(change) => {
                            &&& action matches TuiAction::Edit { id, command }
                            &&& id == change.id && command@ == change.operation.hint()
                            &&& final(self).message == old(self).message
                        },
                        RequestView::ReadWrite(_) => {
                            &&& action is Stay
                            &&& final(self).message@
                                == "edit is only available for metadata requests"@
                        },
                    }
                } else {
                    action is Stay && final(self).message == old(self).message
                }
            }),
    {
        match key {
            TuiKey::Quit => TuiAction::Quit,
            TuiKey::Down => {
                let last = if pending.len() > 0 {
                    pending.len() - 1
                } else {
                    0
                };
                self.selected = if self.selected < last {
                    self.selected + 1
                } else {
                    last
                };
                TuiAction::Stay
            },
            TuiKey::Up => {
                if self.selected > 0 {
                    self.selected = self.selected - 1;
                }
                TuiAction::Stay
            },
            TuiKey::Allow => self.resolve(pending, PendingAction::Allow),
            TuiKey::DoNothing => self.resolve(pending, PendingAction::DoNothing),
            TuiKey::Deny => self.resolve(pending, PendingAction::Deny),
            TuiKey::Edit => {
                if self.selected < pending.len() {
                    let request = &pending[self.selected];
                    match request.metadata_shell_hint() {
                        Some(command) => TuiAction::Edit { id: request.id(), command },
                        None => {
                            self.message = "edit is only available for metadata requests".to_owned();
                            TuiAction::Stay
                        },
                    }
                } else {
                    TuiAction::Stay
                }
            },
            TuiKey::Other => TuiAction::Stay,
        }
    }

    fn resolve(&self, pending: &Vec<PendingRequest>, action: PendingAction) -> (result: TuiAction)
        ensures
            result == if self.selected < pending.len() {
                TuiAction::Resolve { id: pending@[self.selected as int]@.id(), action }
            } else {
                TuiAction::Stay
            },
    {
        if self.selected < pending.len() {
            TuiAction::Resolve { id: pending[self.selected].id(), action }
        } else {
            TuiAction::Stay
        }
    }
}

/// The row of a request.
pub open spec fn row_text(request: RequestView) -> Seq<char> {
    match request {
        RequestView::Metadata(r) => "id="@ + text::decimal(r.id as nat) + " "@ + r.description,
        RequestView::ReadWrite(r) => "id="@ + text::decimal(r.id as nat) + " "@ + r.kind.name()
            + " path="@ + r.path.text() + " "@ + r.description + " pid="@ + text::decimal(r.pid as nat)
            + " uid="@ + text::decimal(r.uid as nat) + " gid="@ + text::decimal(r.gid as nat),
    }
}

/// The row of a request.
pub fn format_pending_row(pending: &PendingRequest) -> (row: String)
    ensures
        row@ == row_text(pending@),
{
    let mut row = "id=".to_owned();
    row.append(text::decimal_of(pending.id()).as_str());
    row.append(" ");
    match pending {
        PendingRequest::Metadata(request) => {
            row.append(request.description.as_str());
        },
        PendingRequest::ReadWrite(request) => {
            row.append(request.kind.log_name());
            row.append(" path=");
            row.append(request.path.as_str());
            row.append(" ");
            row.append(request.description.as_str());
            row.append(" pid=");
            row.append(text::decimal_of(request.pid as u64).as_str());
            row.append(" uid=");
            row.append(text::decimal_of(request.uid as u64).as_str());
            row.append(" gid=");
            row.append(text::decimal_of(request.gid as u64).as_str());
        },
    }
    row
}

/// The text about the marked request.
pub open spec fn selected_text(request: RequestView) -> Seq<char> {
    match request {
        RequestView::Metadata(r) => "id="@ + text::decimal(r.id as nat) + "\npath="@
            + r.operation.subject().text() + "\n"@ + r.description,
        RequestView::ReadWrite(r) => "id="@ + text::decimal(r.id as nat) + "\nkind="@ + r.kind.name()
            + "\npath="@ + r.path.text() + "\npid="@ + text::decimal(r.pid as nat) + " uid="@
            + text::decimal(r.uid as nat) + " gid="@ + text::decimal(r.gid as nat) + "\n"@
            + r.description,
    }
}

/// The text about the marked request.
pub fn format_selected_pending(pending: &PendingRequest) -> (shown: String)
    ensures
        shown@ == selected_text(pending@),
{
    let mut shown = "id=".to_owned();
    shown.append(text::decimal_of(pending.id()).as_str());
    match pending {
        PendingRequest::Metadata(request) => {
            shown.append("\npath=");
            shown.append(request.operation.path().as_str());
            shown.append("\n");
            shown.append(request.description.as_str());
        },
        PendingRequest::ReadWrite(request) => {
            shown.append("\nkind=");
            shown.append(request.kind.log_name());
            shown.append("\npath=");
            shown.append(request.path.as_str());
            shown.append("\npid=");
            shown.append(text::decimal_of(request.pid as u64).as_str());
            shown.append(" uid=");
            shown.append(text::decimal_of(request.uid as u64).as_str());
            shown.append(" gid=");
            shown.append(text::decimal_of(request.gid as u64).as_str());
            shown.append("\n");
            shown.append(request.description.as_str());
        },
    }
    shown
}

/// The title of the panel that shows the selected request.
pub const OPERATION_TITLE: &'static str = "Operation";

/// The title of the list.
pub const PENDING_TITLE: &'static str = "Pending";

/// The text above the list.
pub fn headline(pending: &Vec<PendingRequest>, selected: usize) -> (shown: String)
    ensures
        shown@ == if selected < pending.len() {
            selected_text(pending@[selected as int]@)
        } else {
            "no pending requests"@
        },
{
    if selected < pending.len() {
        format_selected_pending(&pending[selected])
    } else {
        "no pending requests".to_owned()
    }
}

/// The keys that work on a row.
pub open spec fn controls_for(request: Option<RequestView>) -> Seq<char> {
    match request {
        Some(RequestView::Metadata(_)) => "a=allow d=deny n=do-nothing e=edit q=quit"@,
        Some(RequestView::ReadWrite(_)) => "a=allow d=deny n=do-nothing q=quit"@,
        None => "q=quit"@,
    }
}

/// The text below the list.
pub fn footer(pending: &Vec<PendingRequest>, selected: usize, message: &str) -> (shown: String)
    ensures
        shown@ == controls_for(
            if selected < pending.len() {
                Some(pending@[selected as int]@)
            } else {
                None
            },
        ) + " "@ + message@,
{
    let controls: &str = if selected < pending.len() {
        match &pending[selected] {
            PendingRequest::Metadata(_) => "a=allow d=deny n=do-nothing e=edit q=quit",
            PendingRequest::ReadWrite(_) => "a=allow d=deny n=do-nothing q=quit",
        }
    } else {
        "q=quit"
    };
    let mut shown = controls.to_owned();
    shown.append(" ");
    shown.append(message);
    shown
}

/// A command that the user edited.
#[derive(Debug)]
pub struct EditPlan {
    pub command: String,
    pub args: Vec<String>,
}

/// What the words of an edited command line lead to.
pub open spec fn plans_edit(words: Option<Seq<Seq<char>>>, result: Result<EditPlan, Error>) -> bool {
    match words {
        None => result matches Err(error) && error.says("could not parse edit command"@),
        Some(words) => if words.len() == 0 {
            result matches Err(error) && error.says("edit command is empty"@)
        } else if words[0] == "chmod"@ || words[0] == "chown"@ || words[0] == "chattr"@ {
            &&& result matches Ok(plan)
            &&& plan.command@ == words[0]
            &&& text::texts(plan.args@) == words.skip(1)
        } else {
            result matches Err(error) && error.says(
                "edit command must start with chmod, chown, or chattr"@,
            )
        },
    }
}

/// What the words of an edited command line lead to.
pub fn edit_plan(words: Option<Vec<String>>) -> (result: Result<EditPlan, Error>)
    ensures
        plans_edit(
            match words {
                Some(words) => Some(text::texts(words@)),
                None => None,
            },
            result,
        ),
{
    let mut args = match words {
        Some(words) => words,
        None => {
            return Err(Error::msg("could not parse edit command".to_owned()));
        },
    };
    let ghost all = text::texts(args@);
    if args.len() == 0 {
        return Err(Error::msg("edit command is empty".to_owned()));
    }
    assert(all[0] == args@[0]@);
    let command = args.remove(0);
    assert(text::texts(args@) =~= all.skip(1));
    if text::same_text(command.as_str(), "chmod") || text::same_text(command.as_str(), "chown")
        || text::same_text(command.as_str(), "chattr") {
        Ok(EditPlan { command, args })
    } else {
        Err(Error::msg("edit command must start with chmod, chown, or chattr".to_owned()))
    }
}

/// What an edited command line leads to.
pub fn plan_edited_command(edited: &str) -> (result: Result<EditPlan, Error>)
    ensures
        plans_edit(shlex_words(edited@), result),
{
    edit_plan(split_words(edited))
}

/// The arguments that an edited command is run with.
pub fn edited_command_args(name: &str, plan: &EditPlan) -> (args: Vec<String>)
    ensures
        text::texts(args@) == seq![name@, plan.command@] + text::texts(plan.args@),
{
    let mut args: Vec<String> = Vec::new();
    args.push(name.to_owned());
    args.push(plan.command.clone());
    let ghost head = seq![name@, plan.command@];
    let ghost rest = text::texts(plan.args@);
    assert(text::texts(args@) =~= head + rest.take(0));
    for i in 0..plan.args.len()
        invariant
            rest == text::texts(plan.args@),
            text::texts(args@) == head + rest.take(i as int),
    {
        let arg = plan.args[i].clone();
        proof {
            text::lemma_texts_push(args@, arg);
            assert((head + rest.take(i as int)).push(rest[i as int]) =~= head + rest.take(i + 1));
        }
        args.push(arg);
    }
    assert(rest.take(plan.args.len() as int) =~= rest);
    args
}

/// The arguments that release the request whose command was edited.
pub fn release_args(name: &str, id: u64) -> (args: Vec<String>)
    ensures
        text::texts(args@) == seq![name@, "allow"@, "--do-nothing"@, text::decimal(id as nat)],
{
    let mut args: Vec<String> = Vec::new();
    args.push(name.to_owned());
    args.push("allow".to_owned());
    args.push("--do-nothing".to_owned());
    args.push(text::decimal_of(id));
    assert(text::texts(args@) =~= seq![
        name@,
        "allow"@,
        "--do-nothing"@,
        text::decimal(id as nat),
    ]);
    args
}

/// What the screen says about an edited command that failed.
pub fn edit_failed(status: &str) -> (message: String)
    ensures
        message@ == "edited command failed with "@ + status@,
{
    let mut message = "edited command failed with ".to_owned();
    message.append(status);
    message
}

/// What the screen says about an edited command that was run.
pub fn edit_finished(released: bool, status: &str) -> (message: String)
    ensures
        message@ == if released {
            "edited command applied"@
        } else {
            "edited command applied, but original request was not released: "@ + status@
        },
{
    if released {
        "edited command applied".to_owned()
    } else {
        let mut message =
            "edited command applied, but original request was not released: ".to_owned();
        message.append(status);
        message
    }
}

} // verus!
