//! What command lines and keys lead to, and which processes belong together.

use vstd::prelude::*;

use crate::cli;
use crate::cli::CommandPlan;
use crate::cli::SandboxCommand;
use crate::command;
use crate::command::MetadataCommand;
use crate::command::RewrittenCommand;
use crate::dispatch;
use crate::dispatch::Step;
use crate::error::Error;
use crate::ipc::Request;
use crate::metadata_request;
use crate::path;
use crate::process_info;
use crate::process_info::ProcessEntry;
use crate::process_info::ProcessIdentityEvidence;
use crate::registry::RegistryView;
use crate::text;
use crate::tui;
use crate::tui::PendingAction;
use crate::tui::TuiKey;

verus! {

/// For `chmod` and `chown` the first argument that is no option is the mode or
/// owner. It names no path and neither does anything before it, and everything
/// after it does, but for the mark that ends the options.
pub proof fn lemma_paths_follow_the_mode(
    which: MetadataCommand,
    args: Seq<Seq<char>>,
    value: int,
    i: int,
)
    requires
        which is Chmod || which is Chown,
        0 <= value < args.len(),
        0 <= i < args.len(),
        args[value] != "--"@,
        args[value].len() == 0 || args[value][0] != '-',
        forall|j: int|
            0 <= j < value ==> (#[trigger] args[j]) == "--"@ || (args[j].len() > 0 && args[j][0]
                == '-'),
    ensures
        i <= value ==> !command::names_path(which, args, i),
        i > value ==> (command::names_path(which, args, i) <==> args[i] != "--"@),
{
    if i > value {
        assert(!command::is_separator(args[value]));
        assert(command::value_seen(args, i));
    }
}

/// For `chattr` the first argument but for the mark that ends the options is
/// flags. After it everything names a path that looks neither like flags nor
/// like that mark. A command that is not known has paths only.
pub proof fn lemma_paths_follow_the_flags(args: Seq<Seq<char>>, first: int, i: int)
    requires
        0 <= first < args.len(),
        0 <= i < args.len(),
        args[first] != "--"@,
        forall|j: int| 0 <= j < first ==> (#[trigger] args[j]) == "--"@,
    ensures
        i <= first ==> !command::names_path(MetadataCommand::Chattr, args, i),
        i > first ==> (command::names_path(MetadataCommand::Chattr, args, i) <==> args[i] != "--"@
            && (args[i].len() == 0 || (args[i][0] != '+' && args[i][0] != '-' && args[i][0]
            != '='))),
        command::names_path(MetadataCommand::Other, args, i),
{
    if i > first {
        assert(!command::is_separator(args[first]));
        assert(command::flags_seen(args, i));
    }
}

/// The paths that a command names are those of the arguments that name paths,
/// all of them, in their order.
pub proof fn lemma_named_paths_in_order(which: MetadataCommand, args: Seq<Seq<char>>, n: nat) -> (places:
    Seq<int>)
    requires
        n <= args.len(),
    ensures
        ({
            let named = command::named_paths(which, args, n);
            &&& places.len() == named.len()
            &&& forall|i: int, j: int| 0 <= i < j < places.len() ==> places[i] < places[j]
            &&& forall|i: int|
                0 <= i < places.len() ==> 0 <= #[trigger] places[i] < n && named[i]
                    == path::components(args[places[i]])
            &&& forall|k: int|
                0 <= k < n ==> (#[trigger] places.contains(k) <==> command::names_path(
                    which,
                    args,
                    k,
                ))
        }),
    decreases n,
{
    if n == 0 {
        Seq::empty()
    } else {
        let last = n - 1;
        let before = lemma_named_paths_in_order(which, args, last as nat);
        assert(!before.contains(last));
        if command::names_path(which, args, last) {
            let places = before.push(last);
            crate::table::lemma_push_contains(before, last);
            places
        } else {
            before
        }
    }
}

/// A command that was rewritten changes just the arguments that name paths, and
/// may change just the paths that these name, and what lies below them where it
/// goes below. No path that goes up is let through.
pub proof fn lemma_rewritten_command_is_bounded(
    which: MetadataCommand,
    args: Seq<Seq<char>>,
    done: RewrittenCommand,
    i: int,
)
    requires
        command::rewrites(which, args, Ok(done)),
        0 <= i < args.len(),
    ensures
        text::texts(done.args@).len() == args.len(),
        !command::names_path(which, args, i) ==> text::texts(done.args@)[i] == args[i],
        command::names_path(which, args, i) ==> {
            &&& path::components(text::texts(done.args@)[i]) == path::components(args[i])
            &&& !text::pieces(args[i], '/').contains(".."@)
            &&& exists|k: int|
                0 <= k < done.paths.len() && metadata_request::in_scope(
                    #[trigger] done.paths@[k],
                    path::components(args[i]),
                )
        },
        forall|k: int|
            0 <= k < done.paths.len() ==> ((#[trigger] done.paths@[k]).recursive <==> !(
            which is Other) && exists|j: int|
                0 <= j < args.len() && (#[trigger] args[j] == "--recursive"@ || (args[j].len() > 0
                    && args[j][0] == '-' && !"--"@.is_prefix_of(args[j]) && args[j].contains(
                    'R',
                )))),
        which is Other || args.len() >= 2,
{
    let named = command::named_paths(which, args, args.len());
    let places = lemma_named_paths_in_order(which, args, args.len());
    assert(command::fault(which, args, i) is None);
    if command::names_path(which, args, i) {
        command::lemma_rewritten_paths_stay(which, args, i);
        assert(places.contains(i));
        let k = choose|k: int| 0 <= k < places.len() && places[k] == i;
        assert(done.paths@[k].path@ == named[k]);
        assert(metadata_request::in_scope(done.paths@[k], path::components(args[i])));
    }
    assert(command::is_recursive(which, args) <==> !(which is Other) && exists|j: int|
        0 <= j < args.len() && (#[trigger] args[j] == "--recursive"@ || (args[j].len() > 0
            && args[j][0] == '-' && !"--"@.is_prefix_of(args[j]) && args[j].contains('R')))) by {
        if command::is_recursive(which, args) {
            let j = choose|j: int|
                0 <= j < args.len() && command::is_recursive_option(#[trigger] args[j]);
            assert(args[j] == args[j]);
        }
        if exists|j: int|
            0 <= j < args.len() && (#[trigger] args[j] == "--recursive"@ || (args[j].len() > 0
                && args[j][0] == '-' && !"--"@.is_prefix_of(args[j]) && args[j].contains('R'))) {
            let j = choose|j: int|
                0 <= j < args.len() && (#[trigger] args[j] == "--recursive"@ || (args[j].len() > 0
                    && args[j][0] == '-' && !"--"@.is_prefix_of(args[j]) && args[j].contains(
                    'R',
                )));
            assert(command::is_recursive_option(args[j]));
        }
    }
}

/// Options that name a path in their own way are not let through.
pub proof fn lemma_options_with_paths_are_refused(
    args: Seq<Seq<char>>,
    done: RewrittenCommand,
    i: int,
)
    requires
        0 <= i < args.len(),
    ensures
        "--reference"@.is_prefix_of(args[i]) ==> !command::rewrites(
            MetadataCommand::Chmod,
            args,
            Ok(done),
        ),
        "--reference"@.is_prefix_of(args[i]) || "--from"@.is_prefix_of(args[i])
            ==> !command::rewrites(MetadataCommand::Chown, args, Ok(done)),
{
    if command::rewrites(MetadataCommand::Chmod, args, Ok(done)) {
        assert(command::fault(MetadataCommand::Chmod, args, i) is None);
    }
    if command::rewrites(MetadataCommand::Chown, args, Ok(done)) {
        assert(command::fault(MetadataCommand::Chown, args, i) is None);
    }
}

/// Commands that take no pattern and no grant are sent on as they are: decisions
/// with the number of the request, listings with the kinds that are asked for,
/// and paths as the sandbox paths that they write.
pub proof fn lemma_commands_are_sent_on(
    name: String,
    which: SandboxCommand,
    result: Result<CommandPlan, Error>,
)
    requires
        cli::plans(name, which, result),
    ensures
        match which {
            SandboxCommand::Destroy => result is Ok && result->Ok_0->request == (
            Request::Shutdown { name }),
            SandboxCommand::Attach { mountpoint } => result is Ok && result->Ok_0->request == (
            Request::Attach { name, mountpoint, temporary: false }),
            SandboxCommand::Detach { mountpoint } => result is Ok && result->Ok_0->request == (
            Request::Detach { name, mountpoint }),
            SandboxCommand::Mount { local: Some(local), on_fs: Some(on_fs) } => {
                &&& result is Ok
                &&& result->Ok_0->request is Mount
                &&& result->Ok_0->request->Mount_name == name
                &&& result->Ok_0->request->Mount_local == local
                &&& result->Ok_0->request->Mount_on_fs@ == path::components(on_fs@)
            },
            SandboxCommand::Mount { local: None, on_fs: None } => result is Ok
                && result->Ok_0->request == (Request::ListMounts { name }),
            SandboxCommand::Mount { .. } => result is Err,
            SandboxCommand::Umount { on_fs } => {
                &&& result is Ok
                &&& result->Ok_0->request is Umount
                &&& result->Ok_0->request->Umount_name == name
                &&& result->Ok_0->request->Umount_on_fs@ == path::components(on_fs@)
            },
            SandboxCommand::Hide { on_fs } => {
                &&& result is Ok
                &&& result->Ok_0->request is Hide
                &&& result->Ok_0->request->Hide_name == name
                &&& result->Ok_0->request->Hide_on_fs@ == path::components(on_fs@)
            },
            SandboxCommand::ListProtection { read, write, metadata, xattr } => result is Ok
                && result->Ok_0->request == (Request::ListProtection {
                name,
                include_read: read,
                include_write: write,
                include_metadata: metadata,
                include_xattr: xattr,
            }),
            SandboxCommand::ListBypass { read, write, metadata, xattr } => result is Ok
                && result->Ok_0->request == (Request::ListBypass {
                name,
                include_read: read,
                include_write: write,
                include_metadata: metadata,
                include_xattr: xattr,
            }),
            SandboxCommand::Protect { kind, .. } => result is Ok ==> result->Ok_0->request is Protect
                && result->Ok_0->request->Protect_name == name
                && result->Ok_0->request->Protect_kind == kind,
            SandboxCommand::Unprotect { kind, .. } => result is Ok
                ==> result->Ok_0->request is Unprotect && result->Ok_0->request->Unprotect_name
                == name && result->Ok_0->request->Unprotect_kind == kind,
            SandboxCommand::Bypass { kind, .. } => result is Ok ==> result->Ok_0->request is Bypass
                && result->Ok_0->request->Bypass_name == name
                && result->Ok_0->request->Bypass_kind == kind,
            SandboxCommand::Unbypass { kind, .. } => result is Ok
                ==> result->Ok_0->request is Unbypass && result->Ok_0->request->Unbypass_name
                == name && result->Ok_0->request->Unbypass_kind == kind,
            SandboxCommand::Chmod { args } => result is Ok && result->Ok_0->command@ == "chmod"@
                && result->Ok_0->args == args,
            SandboxCommand::Chown { args } => result is Ok && result->Ok_0->command@ == "chown"@
                && result->Ok_0->args == args,
            SandboxCommand::Chattr { args } => result is Ok && result->Ok_0->command@ == "chattr"@
                && result->Ok_0->args == args,
            SandboxCommand::Allow { .. } => true,
            SandboxCommand::Deny { id } => result is Ok && result->Ok_0->request == (
            Request::Deny { name, id }),
            SandboxCommand::Cancel { id } => result is Ok && result->Ok_0->request == (
            Request::Cancel { name, id }),
            SandboxCommand::CancelAll { mountpoint } => result is Ok && result->Ok_0->request == (
            Request::CancelAll { name, mountpoint }),
            SandboxCommand::Monitor { follow } => result is Ok && result->Ok_0 is Monitor
                && result->Ok_0->follow == follow,
            SandboxCommand::Metadata => result is Ok && result->Ok_0->request == (
            Request::Metadata { name }),
        },
{
}

/// What allowing sends: without a number the pending requests are listed, with a
/// number alone that request is allowed, and with any grant option it is allowed
/// with a grant. That is for one use unless a duration is asked for, for half an
/// hour where none is given with it, and for the time that is given else.
pub proof fn lemma_allowing_sends(
    name: String,
    do_nothing: bool,
    id: Option<u64>,
    at: Option<String>,
    duration: Option<Option<String>>,
    tree: bool,
    result: Result<CommandPlan, Error>,
)
    requires
        cli::plans(
            name,
            (SandboxCommand::Allow { do_nothing, id, path: at, duration, tree }),
            result,
        ),
    ensures
        ({
            let wants = at is Some || duration is Some || tree;
            &&& id is None && !do_nothing && !wants ==> result is Ok && result->Ok_0->request == (
            Request::Pending { name })
            &&& id is None && (do_nothing || wants) ==> result is Err
            &&& id is Some && !wants ==> result is Ok && result->Ok_0->request == (Request::Allow {
                name,
                id: id->0,
                do_nothing,
                grant: None,
            })
            &&& id is Some && wants && (duration is None || duration->0 is None) ==> result is Ok
            &&& id is Some && wants && result is Ok ==> {
                let request = result->Ok_0->request;
                let options = request->Allow_grant->0;
                &&& result->Ok_0 is Send
                &&& request is Allow
                &&& request->Allow_name == name
                &&& request->Allow_id == id->0
                &&& request->Allow_do_nothing == do_nothing
                &&& request->Allow_grant is Some
                &&& options.tree == tree
                &&& at is None <==> options.path is None
                &&& at is Some ==> options.path->0@ == path::components(at->0@)
                &&& duration is None <==> options.lifetime is OneShot
                &&& duration is Some && duration->0 is None ==> options.lifetime->seconds == 1800
                &&& duration is Some && duration->0 is Some ==> cli::duration_value(
                    duration->0->0@,
                ) == Some(options.lifetime->seconds as nat)
            }
        }),
{
}

/// The marked row stays among the rows: the arrow keys move it by one and stop
/// at the ends, and no other key moves it.
pub proof fn lemma_marked_row_stays(selected: int, count: int, key: TuiKey)
    requires
        0 <= selected,
        0 <= count,
    ensures
        ({
            let kept = tui::kept_row(selected, count);
            let moved = tui::moved_row(selected, count, key);
            &&& count > 0 ==> 0 <= kept < count
            &&& selected < count ==> kept == selected
            &&& selected >= count && count > 0 ==> kept == count - 1
            &&& selected < count ==> 0 <= moved < count
            &&& key is Down && selected < count - 1 ==> moved == selected + 1
            &&& key is Down && selected == count - 1 ==> moved == selected
            &&& key is Up && selected > 0 ==> moved == selected - 1
            &&& key is Up && selected == 0 ==> moved == 0
            &&& !(key is Up) && !(key is Down) ==> moved == selected
        }),
{
}

/// A decision on the screen is the decision that the one who waits is told.
pub proof fn lemma_screen_decides_as_shown(
    before: RegistryView,
    after: RegistryView,
    step: Step,
    name: String,
    id: u64,
    key: TuiKey,
)
    requires
        before.listable(),
        before.next_id < u64::MAX,
        before.sandboxes.contains_key(name@),
        before.pending.contains_key(id) && before.pending[id].sandbox == name@
            || before.pending_read_write.contains_key(id) && before.pending_read_write[id].sandbox
            == name@,
        before.waiters.contains(id),
        key is Allow || key is DoNothing || key is Deny,
        tui::decision_key(key) is Some ==> dispatch::handles(
            before,
            after,
            tui::request_of(name, id, tui::decision_key(key)->0),
            step,
        ),
    ensures
        tui::decision_key(key) is Some,
        step is Finish,
        step->Finish_result is Ok,
        step->Finish_result->Ok_0.notices@.len() == 1,
        step->Finish_result->Ok_0.notices@[0].id == id,
        key is Allow <==> step->Finish_result->Ok_0.notices@[0].decision is Apply,
        key is DoNothing <==> step->Finish_result->Ok_0.notices@[0].decision is DoNothing,
        key is Deny <==> step->Finish_result->Ok_0.notices@[0].decision is Deny,
        !after.pending.contains_key(id),
        !after.pending_read_write.contains_key(id),
{
    match tui::decision_key(key)->0 {
        PendingAction::Allow => crate::laws::decisions::lemma_allowing_lets_it_go_on(
            before,
            after,
            step,
            name,
            id,
            false,
        ),
        PendingAction::DoNothing => crate::laws::decisions::lemma_allowing_lets_it_go_on(
            before,
            after,
            step,
            name,
            id,
            true,
        ),
        PendingAction::Deny => crate::laws::decisions::lemma_refusing_tells_the_waiter(
            before,
            after,
            (Request::Deny { name, id }),
            step,
            name,
            id,
        ),
    }
}

/// Only the keys for decisions decide anything.
pub proof fn lemma_other_keys_decide_nothing(key: TuiKey)
    ensures
        tui::decision_key(key) is Some <==> key is Allow || key is DoNothing || key is Deny,
{
}

/// The entry of a process is the first one in the list with its number.
pub proof fn lemma_first_entry_counts(entries: Seq<ProcessEntry>, i: int, pid: u32)
    ensures
        0 <= i < entries.len() && (forall|j: int|
            0 <= j < i ==> (#[trigger] entries[j]).pid != entries[i].pid)
            ==> process_info::entry_of(entries, entries[i].pid) == Some(entries[i]),
        (forall|j: int| 0 <= j < entries.len() ==> (#[trigger] entries[j]).pid != pid)
            ==> process_info::entry_of(entries, pid) is None,
        process_info::entry_of(entries, pid) matches Some(entry) ==> entry.pid == pid
            && entries.contains(entry),
    decreases entries.len(),
{
    if entries.len() > 0 {
        let front = entries.drop_last();
        lemma_first_entry_counts(front, i, pid);
        assert forall|j: int| 0 <= j < front.len() implies front[j] == entries[j] by {}
        assert(entries[entries.len() - 1] == entries.last());
        if process_info::entry_of(front, pid) is Some {
            let found = process_info::entry_of(front, pid)->0;
            let k = choose|k: int| 0 <= k < front.len() && front[k] == found;
            assert(entries[k] == found);
        }
        if 0 <= i < entries.len() && forall|j: int|
            0 <= j < i ==> (#[trigger] entries[j]).pid != entries[i].pid {
            let own = entries[i].pid;
            if i == front.len() {
                assert forall|j: int| 0 <= j < front.len() implies (#[trigger] front[j]).pid
                    != own by {
                    assert(front[j] == entries[j]);
                }
                lemma_first_entry_counts(front, i, own);
            } else {
                assert(front[i] == entries[i]);
                assert forall|j: int| 0 <= j < i implies (#[trigger] front[j]).pid
                    != front[i].pid by {
                    assert(front[j] == entries[j]);
                }
            }
        }
    }
}

proof fn lemma_more_steps(entries: Seq<ProcessEntry>, pid: u32, root: u32, steps: nat)
    requires
        process_info::descends(entries, pid, root, steps),
    ensures
        process_info::descends(entries, pid, root, steps + 1),
    decreases steps,
{
    if pid != root {
        let parent = process_info::entry_of(entries, pid)->0.parent->0;
        lemma_more_steps(entries, parent, root, (steps - 1) as nat);
        assert(process_info::descends(entries, parent, root, steps));
    }
}

/// A process tree holds its root. Any other process is in it only when it is in
/// the list with a parent that is in the tree, and it is when that parent is the
/// root.
pub proof fn lemma_trees_follow_parents(entries: Seq<ProcessEntry>, pid: u32, root: u32)
    ensures
        process_info::in_tree(entries, root, root),
        pid != root && process_info::in_tree(entries, pid, root) ==> {
            &&& process_info::entry_of(entries, pid) is Some
            &&& process_info::entry_of(entries, pid)->0.parent is Some
            &&& process_info::in_tree(
                entries,
                process_info::entry_of(entries, pid)->0.parent->0,
                root,
            )
        },
        process_info::entry_of(entries, pid) matches Some(entry) ==> (entry.parent == Some(root)
            ==> process_info::in_tree(entries, pid, root)),
{
    if pid != root && process_info::in_tree(entries, pid, root) {
        let parent = process_info::entry_of(entries, pid)->0.parent->0;
        lemma_more_steps(entries, parent, root, (entries.len() - 1) as nat);
    }
    if process_info::entry_of(entries, pid) is Some {
        lemma_first_entry_counts(entries, 0, pid);
        assert(entries.len() > 0);
        assert(process_info::descends(entries, root, root, (entries.len() - 1) as nat));
    }
}

/// The identities of a tree are those of the processes in it: the number of a
/// listed process and the time when its first entry says that it began.
pub proof fn lemma_tree_identities(
    entries: Seq<ProcessEntry>,
    root: u32,
    identity: ProcessIdentityEvidence,
)
    ensures
        process_info::tree_holds(entries, root, identity) <==> {
            &&& process_info::in_tree(entries, identity.pid, root)
            &&& process_info::entry_of(entries, identity.pid) is Some
            &&& process_info::entry_of(entries, identity.pid)->0.start_time == identity.start_time
        },
{
    lemma_first_entry_counts(entries, 0, identity.pid);
    if process_info::in_tree(entries, identity.pid, root) && process_info::entry_of(
        entries,
        identity.pid,
    ) is Some {
        let found = process_info::entry_of(entries, identity.pid)->0;
        let k = choose|k: int| 0 <= k < entries.len() && entries[k] == found;
        assert(process_info::in_tree(entries, entries[k].pid, root));
    }
}

/// Whoever is led to the root from parent to parent belongs to its tree, over as
/// many steps as there are processes in the list.
pub proof fn lemma_chains_of_parents(entries: Seq<ProcessEntry>, chain: Seq<u32>)
    requires
        0 < chain.len() <= entries.len() + 1,
        forall|i: int|
            0 <= i < chain.len() - 1 ==> process_info::entry_of(entries, #[trigger] chain[i]) is Some
                && process_info::entry_of(entries, chain[i])->0.parent == Some(chain[i + 1]),
    ensures
        process_info::in_tree(entries, chain[0], chain.last()),
{
    lemma_chain_descends(entries, chain, 0, entries.len());
}

proof fn lemma_chain_descends(entries: Seq<ProcessEntry>, chain: Seq<u32>, from: int, steps: nat)
    requires
        0 <= from < chain.len(),
        chain.len() - 1 - from <= steps,
        forall|i: int|
            0 <= i < chain.len() - 1 ==> process_info::entry_of(entries, #[trigger] chain[i]) is Some
                && process_info::entry_of(entries, chain[i])->0.parent == Some(chain[i + 1]),
    ensures
        process_info::descends(entries, chain[from], chain.last(), steps),
    decreases steps,
{
    if from < chain.len() - 1 && chain[from] != chain.last() {
        lemma_chain_descends(entries, chain, from + 1, (steps - 1) as nat);
    }
}

/// A command with enough arguments, none of which is an option that names a path
/// in its own way or a path that goes up, is rewritten.
pub proof fn lemma_clean_commands_are_rewritten(
    which: MetadataCommand,
    args: Seq<Seq<char>>,
    result: Result<RewrittenCommand, Error>,
)
    requires
        command::rewrites(which, args, result),
        which is Other || args.len() >= 2,
        forall|i: int|
            0 <= i < args.len() ==> !"--reference"@.is_prefix_of(#[trigger] args[i])
                && !"--from"@.is_prefix_of(args[i]) && !text::pieces(args[i], '/').contains(".."@),
    ensures
        result is Ok,
{
    if result is Err {
        let i = choose|i: int| #[trigger]
            command::first_fault(which, args, i) && result->Err_0.says(
                command::fault(which, args, i)->0,
            );
        assert(command::fault(which, args, i) is Some);
        assert(!"--reference"@.is_prefix_of(args[i]));
    }
}

/// A duration that can be read and counted is accepted.
pub proof fn lemma_good_durations_are_accepted(
    name: String,
    do_nothing: bool,
    id: u64,
    at: Option<String>,
    duration: String,
    tree: bool,
    result: Result<CommandPlan, Error>,
)
    requires
        cli::duration_value(duration@) is Some,
        cli::duration_value(duration@)->0 <= u64::MAX,
        cli::plans(
            name,
            (SandboxCommand::Allow {
                do_nothing,
                id: Some(id),
                path: at,
                duration: Some(Some(duration)),
                tree,
            }),
            result,
        ),
    ensures
        result is Ok,
{
}

/// The commands that change metadata are known by their own names, and any other
/// name is that of another command.
pub proof fn lemma_commands_by_name(name: Seq<char>)
    ensures
        MetadataCommand::named("chmod"@) is Chmod,
        MetadataCommand::named("chown"@) is Chown,
        MetadataCommand::named("chattr"@) is Chattr,
        name != "chmod"@ && name != "chown"@ && name != "chattr"@
            ==> MetadataCommand::named(name) is Other,
{
    reveal_strlit("chmod");
    reveal_strlit("chown");
    reveal_strlit("chattr");
    assert("chmod"@[2] != "chown"@[2] || "chmod"@[3] != "chown"@[3]);
    assert("chattr"@.len() != "chmod"@.len());
    assert("chattr"@.len() != "chown"@.len());
}

} // verus!
