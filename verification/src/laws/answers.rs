//! What requests are answered with, and what they leave to be done outside.

use vstd::prelude::*;

use crate::authorize;
use crate::authorize::Authorization;
use crate::authorize::SettlementView;
use crate::dispatch;
use crate::dispatch::OutsideTask;
use crate::dispatch::Step;
use crate::error::Error;
use crate::grant::ReadWriteGrantOptions;
use crate::grant_allow;
use crate::grant_allow::ChoiceView;
use crate::ipc::Request;
use crate::ipc::Response;
use crate::lifecycle;
use crate::path::SandboxPath;
use crate::pending::RequestView;
use crate::policy::PassthroughRule;
use crate::policy::PolicyPattern;
use crate::policy::ProtectionKind;
use crate::registry;
use crate::registry::RegistryView;
use crate::sandbox;
use crate::session::EventView;
use crate::session::MountedSession;
use crate::text;
use crate::tui;
use crate::tui::EditPlan;

verus! {

/// Requests that need the host leave just what they ask for to be done there.
pub proof fn lemma_host_work_is_left_as_asked(
    before: RegistryView,
    after: RegistryView,
    request: Request,
    step: Step,
)
    requires
        dispatch::handles(before, after, request, step),
    ensures
        match request {
            Request::Shutdown { name } => step == (Step::Outside {
                task: OutsideTask::Shutdown { name },
            }),
            Request::Attach { name, mountpoint, temporary } => step == (Step::Outside {
                task: OutsideTask::Attach { name, mountpoint, temporary },
            }),
            Request::Detach { name, mountpoint } => step == (Step::Outside {
                task: OutsideTask::Detach { name, mountpoint },
            }),
            Request::Mount { name, local, on_fs } => step == (Step::Outside {
                task: OutsideTask::Mount { name, local, on_fs },
            }),
            Request::BeginTrustedOperation { name, command, mountpoint, paths } => step == (
            Step::Outside { task: OutsideTask::BeginTrusted { name, command, mountpoint, paths } }),
            Request::EndTrustedOperation { token } => step == (Step::Outside {
                task: OutsideTask::EndTrusted { token },
            }),
            Request::CancelAll { name, mountpoint: Some(mountpoint) } => step == (Step::Outside {
                task: OutsideTask::CancelView { name, mountpoint },
            }) && after == before,
            Request::Ping => step == (Step::Reply { result: Ok::<Response, Error>(Response::Done) }),
            _ => true,
        },
{
}

/// Allowing with a grant is left to be done with what the host knows of the
/// process that asked.
pub proof fn lemma_grants_need_the_requester(
    before: RegistryView,
    after: RegistryView,
    step: Step,
    name: String,
    id: u64,
    options: ReadWriteGrantOptions,
)
    requires
        dispatch::handles(
            before,
            after,
            (Request::Allow { name, id, do_nothing: false, grant: Some(options) }),
            step,
        ),
    ensures
        after == before,
        step is Outside,
        step->Outside_task is AllowWithGrant,
        step->Outside_task->AllowWithGrant_name == name,
        step->Outside_task->AllowWithGrant_id == id,
        step->Outside_task->AllowWithGrant_options == options,
        before.pending_read_write.contains_key(id) ==> step->Outside_task->AllowWithGrant_pid
            == Some(before.pending_read_write[id].pid),
        !before.pending_read_write.contains_key(id)
            ==> step->Outside_task->AllowWithGrant_pid is None,
{
}

/// Nothing can be done in a sandbox that is not there: every request fails and
/// changes nothing but the number that it used.
pub proof fn lemma_unknown_sandbox_fails(
    before: RegistryView,
    after: RegistryView,
    request: Request,
    step: Step,
    name: String,
    on_fs: SandboxPath,
    kind: ProtectionKind,
    pattern: PolicyPattern,
)
    requires
        !before.sandboxes.contains_key(name@),
        before.next_id < u64::MAX,
        request == (Request::Umount { name, on_fs }) || request == (Request::Hide { name, on_fs })
            || request == (Request::Protect { name, kind, pattern }) || request == (
        Request::Unprotect { name, kind, pattern }) || request == (Request::Bypass {
            name,
            kind,
            pattern,
        }) || request == (Request::Unbypass { name, kind, pattern }),
        dispatch::handles(before, after, request, step),
    ensures
        step is Finish,
        step->Finish_result is Err,
        after.next_id == before.next_id + 1,
        after == (RegistryView { next_id: after.next_id, ..before }),
{
}

/// Listing the pending requests of a sandbox shows those of the sandbox, each
/// once, by their numbers.
pub proof fn lemma_pending_requests_are_listed(
    before: RegistryView,
    step: Step,
    name: String,
    id: u64,
)
    requires
        before.listable(),
        before.sandboxes.contains_key(name@),
        dispatch::handles(before, before, (Request::Pending { name }), step),
    ensures
        step is Reply,
        step->Reply_result is Ok,
        step->Reply_result->Ok_0 is Pending,
        ({
            let items = registry::views(step->Reply_result->Ok_0->Pending_items@);
            &&& forall|i: int, j: int|
                0 <= i < j < items.len() ==> (#[trigger] items[i]).id() < (#[trigger] items[j]).id()
            &&& before.pending.contains_key(id) ==> (items.contains(
                RequestView::Metadata(before.pending[id]),
            ) <==> before.pending[id].sandbox == name@)
            &&& before.pending_read_write.contains_key(id) ==> (items.contains(
                RequestView::ReadWrite(before.pending_read_write[id]),
            ) <==> before.pending_read_write[id].sandbox == name@)
            &&& forall|i: int| 0 <= i < items.len() ==> (#[trigger] items[i]).sandbox() == name@
        }),
{
    let items = registry::views(step->Reply_result->Ok_0->Pending_items@);
    assert forall|i: int| 0 <= i < items.len() implies (#[trigger] items[i]).sandbox() == name@ by {
        assert(items.contains(items[i]));
    }
    if before.pending.contains_key(id) {
        let request = RequestView::Metadata(before.pending[id]);
        assert(items.contains(request) <==> before.is_pending(name@, request));
    }
    if before.pending_read_write.contains_key(id) {
        let request = RequestView::ReadWrite(before.pending_read_write[id]);
        assert(items.contains(request) <==> before.is_pending(name@, request));
    }
}

/// A listing of the rules that let pass shows those of the kinds that are asked
/// for, and of all kinds where none is asked for.
pub proof fn lemma_bypass_listing_shows_the_kinds(
    registry: RegistryView,
    step: Step,
    name: String,
    include_read: bool,
    include_write: bool,
    include_metadata: bool,
    include_xattr: bool,
    rule: PassthroughRule,
)
    requires
        registry.sandboxes.contains_key(name@),
        dispatch::handles(
            registry,
            registry,
            (Request::ListBypass {
                name,
                include_read,
                include_write,
                include_metadata,
                include_xattr,
            }),
            step,
        ),
    ensures
        step is Reply,
        step->Reply_result is Ok,
        step->Reply_result->Ok_0 is PassthroughRules,
        ({
            let shown = step->Reply_result->Ok_0->PassthroughRules_items@;
            let any = include_read || include_write || include_metadata || include_xattr;
            shown.contains(rule) <==> {
                &&& registry.sandboxes[name@].passthrough_rules.contains(rule)
                &&& any && rule.kind is Read ==> include_read
                &&& any && rule.kind is Write ==> include_write
                &&& any && rule.kind is Metadata ==> include_metadata
                &&& any && rule.kind is Xattr ==> include_xattr
            }
        }),
{
    broadcast use vstd::seq_lib::group_to_multiset_ensures;

    let shown = step->Reply_result->Ok_0->PassthroughRules_items@;
    let rules = registry.sandboxes[name@].passthrough_rules;
    let pred = |rule: PassthroughRule|
        sandbox::shown(include_read, include_write, include_metadata, include_xattr, rule.kind);
    let kept = rules.filter(pred);
    assert(shown.to_multiset() == kept.to_multiset());
    assert(shown.contains(rule) <==> shown.to_multiset().count(rule) > 0);
    assert(kept.contains(rule) <==> kept.to_multiset().count(rule) > 0);
    if rules.contains(rule) && pred(rule) {
        let i = choose|i: int| 0 <= i < rules.len() && rules[i] == rule;
        rules.lemma_filter_contains(pred, i);
    }
    if kept.contains(rule) {
        rules.lemma_filter_contains_rev(pred, rule);
        crate::laws::decisions::lemma_filtered_holds(rules, pred, rule);
    }
}

/// The log of a sandbox is found where the sandbox keeps it.
pub proof fn lemma_log_path_is_told(registry: RegistryView, step: Step, name: String)
    requires
        dispatch::handles(registry, registry, (Request::LogPath { name }), step),
    ensures
        step is Reply,
        step->Reply_result is Ok <==> registry.sandboxes.contains_key(name@),
        step->Reply_result matches Ok(response) ==> response is Text && response->Text_text@
            == registry.sandboxes[name@].log_path,
{
}

/// An operation is asked for exactly when some effect of it is left to ask for;
/// it is then asked for with all of these, and goes on by grants otherwise.
pub proof fn lemma_left_effects_are_asked(
    log_path: Seq<char>,
    expiry: Seq<EventView>,
    done: SettlementView,
    result: Authorization,
)
    requires
        authorize::authorizes(log_path, expiry, done, result),
    ensures
        result is Ask <==> done.asks.len() > 0,
        result is Granted <==> done.asks.len() == 0,
        result matches Authorization::Ask { log_path: path, events, asks } ==> asks.len()
            == done.asks.len() && events.len() == expiry.len() + done.events.len() && path@
            == log_path && forall|i: int| 0 <= i < asks.len() ==> (#[trigger] asks@[i])@
            == done.asks[i],
        result matches Authorization::Granted { log_path: path, events } ==> events.len()
            == expiry.len() + done.events.len() && path@ == log_path,
{
    if let Authorization::Ask { log_path: path, events, asks } = result {
        assert(authorize::ask_views(asks@).len() == asks.len());
        assert(crate::session::events(events@).len() == events.len());
        assert forall|i: int| 0 <= i < asks.len() implies (#[trigger] asks@[i])@
            == done.asks[i] by {
            assert(authorize::ask_views(asks@)[i] == asks@[i]@);
        }
    }
    if let Authorization::Granted { log_path: path, events } = result {
        assert(crate::session::events(events@).len() == events.len());
    }
}

/// Using a grant writes a line exactly when it uses the grant up, with the number
/// that this takes.
pub proof fn lemma_used_grants_are_written_down(registry: RegistryView, grant_id: u64)
    requires
        registry.grants.contains_key(grant_id),
        registry.next_id < u64::MAX,
    ensures
        ({
            let after = registry.using_grant(grant_id);
            let lines = registry.use_lines(grant_id);
            &&& lines.len() == after.next_id - registry.next_id
            &&& lines.len() == 1 <==> !after.grants.contains_key(grant_id)
            &&& lines.len() <= 1
            &&& lines.len() == 1 ==> lines[0].0 == registry.next_id
        }),
{
}

/// The answer to allowing with a grant is a warning exactly when there is
/// something to warn about, and then says just that.
pub proof fn lemma_warnings_are_passed_on(response: Response, choice: ChoiceView)
    requires
        grant_allow::grant_answer(response, choice),
    ensures
        choice.warning is None <==> response is Done,
        choice.warning matches Some(warning) ==> response is Warning && response->Warning_message@
            == warning,
{
}

/// The lines about released requests have numbers one after the other.
pub proof fn lemma_release_lines_are_numbered(
    registry: RegistryView,
    ids: Seq<u64>,
    first: int,
    decided: u64,
    i: int,
)
    requires
        0 <= first,
        first + ids.len() <= u64::MAX,
        0 <= i < ids.len(),
    ensures
        grant_allow::release_lines(registry, ids, first, decided).len() == ids.len(),
        grant_allow::release_lines(registry, ids, first, decided)[i].0 == first + i,
{
}

/// A mount that the session gives up is the first that is meant.
pub proof fn lemma_one_mount_is_meant(
    mounts: Seq<MountedSession>,
    name: Seq<char>,
    attach_id: u64,
    mountpoint: Seq<char>,
    a: int,
    b: int,
)
    requires
        lifecycle::first_mounted(mounts, name, attach_id, mountpoint, a),
        lifecycle::first_mounted(mounts, name, attach_id, mountpoint, b),
    ensures
        a == b,
        0 <= a < mounts.len(),
        mounts[a].sandbox@ == name,
        mounts[a].attach_id == attach_id,
{
}

/// A mountpoint is in use when some sandbox has a view attached there.
pub proof fn lemma_mountpoints_in_use(registry: RegistryView, name: Seq<char>, at: Seq<Seq<char>>)
    ensures
        registry.sandboxes.contains_key(name) && registry.sandboxes[name].attaches.contains_key(at)
            ==> registry::is_mountpoint(registry, at),
        (forall|other: Seq<char>| #[trigger]
            registry.sandboxes.contains_key(other)
                ==> !registry.sandboxes[other].attaches.contains_key(at))
            ==> !registry::is_mountpoint(registry, at),
{
}

/// An edited command is one of the three that change metadata, with the words
/// behind it as its arguments.
pub proof fn lemma_edited_commands(words: Option<Seq<Seq<char>>>, result: Result<EditPlan, Error>)
    requires
        tui::plans_edit(words, result),
    ensures
        result is Ok <==> words is Some && words->0.len() > 0 && (words->0[0] == "chmod"@
            || words->0[0] == "chown"@ || words->0[0] == "chattr"@),
        result matches Ok(plan) ==> seq![plan.command@] + text::texts(plan.args@) == words->0,
{
    if let Ok(plan) = result {
        assert(seq![plan.command@] + text::texts(plan.args@) =~= words->0);
    }
}

} // verus!
