//! What holds of a session as a whole, whatever it is asked.

use vstd::prelude::*;

use crate::attr;
use crate::authorize;
use crate::decision;
use crate::dispatch;
use crate::dispatch::Step;
use crate::error::Error;
use crate::forward;
use crate::fs;
use crate::grant::GrantView;
use crate::grant::ReadWriteGrantOptions;
use crate::grant_allow;
use crate::grant_allow::GrantEvidence;
use crate::grant_allow::Release;
use crate::ipc::Request;
use crate::metadata::ObjectView;
use crate::metadata::PendingKeyView;
use crate::metadata_request;
use crate::metadata_request::MetadataStep;
use crate::operation::EffectView;
use crate::operation::MetadataOperation;
use crate::operation::ReadWriteOperation;
use crate::path::SandboxPath;
use crate::pending::MetadataRequestView;
use crate::pending::PendingDecision;
use crate::pending::ReadWriteRequestView;
use crate::pending::RequestView;
use crate::pending::RequesterIdentity;
use crate::policy;
use crate::policy::PassthroughRule;
use crate::policy::ProtectionKind;
use crate::policy::ProtectionRule;
use crate::process_info::ProcessIdentityEvidence;
use crate::registry;
use crate::registry::RegistryView;
use crate::sandbox::SandboxView;
use crate::session;
use crate::session::EventView;
use crate::session::Notice;
use crate::session::Outcome;
use crate::time::Timestamp;

pub mod access;
pub mod answers;
pub mod attributes;
pub mod changes;
pub mod commands;
pub mod decisions;
pub mod grants;
pub mod keeping;
pub mod patterns;
pub mod stacking;
pub mod views;
pub mod wording;
pub mod writing;

verus! {

/// Taking requests out keeps the registry consistent.
pub proof fn lemma_without_all_is_consistent(before: RegistryView, ids: Seq<u64>)
    requires
        before.consistent(),
        before.next_id + ids.len() <= u64::MAX,
    ensures
        before.without_all(ids).consistent(),
        before.handed_out() ==> before.without_all(ids).handed_out(),
{
    let after = before.without_all(ids);
    assert forall|key: PendingKeyView| #[trigger] after.index.contains_key(key) implies
        after.pending.contains_key(after.index[key]) && after.pending[after.index[key]].claims().contains(
        key,
    ) by {
        assert(before.index.contains_key(key));
    }
    assert forall|id: u64, key: PendingKeyView|
        #![trigger after.pending[id].claims().contains(key)]
        after.pending.contains_key(id) && after.pending[id].claims().contains(key) implies
        after.index.contains_key(key) && after.index[key] == id by {
        assert(before.pending[id].claims().contains(key));
    }
}

/// Canceling requests, whether of a sandbox or of one view, keeps the registry
/// consistent.
pub proof fn lemma_cancels_all_is_consistent(
    before: RegistryView,
    after: RegistryView,
    outcome: Outcome,
    name: Seq<char>,
    items: Seq<RequestView>,
    attach_id: Option<u64>,
    scope: Seq<char>,
    reason: Seq<char>,
)
    requires
        before.consistent(),
        before.next_id + items.len() < u64::MAX,
        decision::cancels_all(before, after, outcome, name, items, attach_id, scope, reason),
    ensures
        after.consistent(),
        before.handed_out() ==> after.handed_out(),
        after.next_id >= before.next_id,
{
    assert(before.numbered().consistent());
    lemma_without_all_is_consistent(before.numbered(), decision::ids_of(items));
}

/// Whatever a session is asked, its registry stays consistent: every request
/// stands under its own number, and every claimed part leads to the one request
/// that claims it. No number is handed out twice.
pub proof fn lemma_handling_keeps_consistency(
    before: RegistryView,
    after: RegistryView,
    request: Request,
    step: Step,
)
    requires
        before.consistent(),
        dispatch::room_for(before, request),
        dispatch::handles(before, after, request, step),
    ensures
        after.consistent(),
        before.handed_out() ==> after.handed_out(),
        after.next_id >= before.next_id,
{
    match request {
        Request::Allow { name, id, do_nothing, grant } => {
            if grant is None {
                decision::lemma_settled_is_consistent(before, id);
            }
        },
        Request::Deny { name, id } => {
            decision::lemma_settled_is_consistent(before, id);
            assert(before.without_request(id).numbered().consistent());
        },
        Request::Cancel { name, id } => {
            decision::lemma_settled_is_consistent(before, id);
            assert(before.without_request(id).numbered().consistent());
        },
        Request::CancelAll { name, mountpoint } => {
            if mountpoint is None && before.sandboxes.contains_key(name@) {
                let outcome = step->Finish_result->Ok_0;
                let items = choose|items: Seq<RequestView>|
                    {
                        &&& #[trigger] registry::listing_of(before, name@, items)
                        &&& decision::cancels_all(
                            before,
                            after,
                            outcome,
                            name@,
                            items,
                            None,
                            "sandbox"@,
                            "cancel-all"@,
                        )
                    };
                assert(registry::listing_of(before, name@, items));
                lemma_cancels_all_is_consistent(
                    before,
                    after,
                    outcome,
                    name@,
                    items,
                    None,
                    "sandbox"@,
                    "cancel-all"@,
                );
            }
        },
        _ => {},
    }
}

/// Whatever a session is asked, its sandboxes stay sound.
pub proof fn lemma_handling_keeps_sandboxes_sound(
    before: RegistryView,
    after: RegistryView,
    request: Request,
    step: Step,
)
    requires
        registry::all_sound(before),
        dispatch::room_for(before, request),
        dispatch::handles(before, after, request, step),
    ensures
        registry::all_sound(after),
{
    match request {
        Request::Umount { name, on_fs } => {
            if before.sandboxes.contains_key(name@) {
                let sandbox = before.sandboxes[name@];
                let local = crate::host::HostPath { text: name };
                let key = ObjectView { layer_id: crate::metadata::NO_LAYER, relative_path: Seq::empty() };
                let operation = MetadataOperation::Chattr { path: on_fs, flags: 0 };
                crate::overlay::lemma_order_is_kept(sandbox, local, on_fs, on_fs, key, operation);
            }
        },
        Request::Hide { name, on_fs } => {
            if before.sandboxes.contains_key(name@) {
                let sandbox = before.sandboxes[name@];
                let local = crate::host::HostPath { text: name };
                let key = ObjectView { layer_id: crate::metadata::NO_LAYER, relative_path: Seq::empty() };
                let operation = MetadataOperation::Chattr { path: on_fs, flags: 0 };
                crate::overlay::lemma_order_is_kept(sandbox, local, on_fs, on_fs, key, operation);
            }
        },
        Request::Unprotect { name, kind, pattern } => {
            if before.sandboxes.contains_key(name@) {
                let sandbox = before.sandboxes[name@];
                assert(after.sandboxes[name@].layers == sandbox.layers);
            }
        },
        Request::Allow { name, id, do_nothing, grant } => {
            if before.sandboxes.contains_key(name@) && before.request(id) is Some
                && before.request(id)->0 is Metadata {
                let sandbox = before.sandboxes[name@];
                let change = before.request(id)->0->Metadata_0;
                let at = change.operation.subject();
                let local = crate::host::HostPath { text: name };
                crate::overlay::lemma_order_is_kept(
                    sandbox,
                    local,
                    at,
                    at,
                    change.object,
                    change.operation,
                );
            }
        },
        _ => {},
    }
}

/// Mounting keeps the sandboxes sound and the registry consistent too.
pub proof fn lemma_mounting_keeps_sandboxes_sound(
    before: RegistryView,
    after: RegistryView,
    name: Seq<char>,
    local: crate::host::HostPath,
    on_fs: SandboxPath,
    result: Result<Outcome, Error>,
)
    requires
        registry::all_sound(before),
        before.consistent(),
        session::has_room(before, name),
        session::mounts_layer(before, after, name, local, on_fs, result),
    ensures
        registry::all_sound(after),
        after.consistent(),
{
    if before.sandboxes.contains_key(name) {
        let key = ObjectView { layer_id: crate::metadata::NO_LAYER, relative_path: Seq::empty() };
        let operation = MetadataOperation::Chattr { path: on_fs, flags: 0 };
        crate::overlay::lemma_order_is_kept(
            before.sandboxes[name],
            local,
            on_fs,
            on_fs,
            key,
            operation,
        );
    }
}

proof fn lemma_kept_is_consistent(registry: RegistryView, selected: ReadWriteRequestView, waited: bool)
    requires
        registry.consistent(),
        !registry.pending.contains_key(selected.id),
    ensures
        grant_allow::kept(registry, selected, waited).consistent(),
        registry.handed_out() && selected.id < registry.next_id ==> grant_allow::kept(
            registry,
            selected,
            waited,
        ).handed_out(),
{
    let after = grant_allow::kept(registry, selected, waited);
    assert forall|key: PendingKeyView| #[trigger] after.index.contains_key(key) implies
        after.pending.contains_key(after.index[key]) && after.pending[after.index[key]].claims().contains(
        key,
    ) by {
        assert(registry.index.contains_key(key));
    }
}

proof fn lemma_releases_are_consistent(
    before: RegistryView,
    after: RegistryView,
    grant: GrantView,
    event_id: u64,
    selected: ReadWriteRequestView,
    waited: bool,
    now: Timestamp,
    release: Release,
)
    requires
        before.consistent(),
        forall|ids: Seq<u64>| #[trigger]
            grant_allow::are_pending(before, ids) ==> before.next_id + ids.len() + 2 <= u64::MAX,
        before.next_id + 2 <= u64::MAX,
        grant.id < before.next_id,
        !before.pending.contains_key(selected.id),
        grant_allow::releases_one(
            before,
            after,
            grant,
            event_id,
            selected,
            waited,
            now,
            release,
        ) || grant_allow::releases_all(
            before,
            after,
            grant,
            event_id,
            selected,
            waited,
            now,
            release,
        ),
    ensures
        after.consistent(),
        before.handed_out() && selected.id < before.next_id ==> after.handed_out(),
{
    let granted = RegistryView { grants: before.grants.insert(grant.id, grant), ..before };
    assert(granted.consistent());
    lemma_kept_is_consistent(granted, selected, waited);
    assert(before.numbered().consistent());
    if grant_allow::releases_one(before, after, grant, event_id, selected, waited, now, release) {
        if !grant_allow::is_earliest(before, grant, selected, now, selected.id) && exists|id: u64|
            grant_allow::is_earliest(before, grant, selected, now, id) {
            let id = choose|id: u64|
                {
                    &&& #[trigger] grant_allow::is_earliest(before, grant, selected, now, id)
                    &&& id != selected.id
                    &&& after == grant_allow::kept(before.settled(id).numbered(), selected, waited)
                };
            decision::lemma_settled_is_consistent(before, id);
            let settled = before.settled(id).numbered();
            assert(settled.consistent());
            lemma_kept_is_consistent(settled, selected, waited);
        }
    } else {
        let own = grant.covers_request(selected, now);
        let ids = choose|ids: Seq<u64>|
            {
                let rest = before.without_all(ids);
                let granted = RegistryView { grants: rest.grants.insert(grant.id, grant), ..rest };
                &&& #[trigger] grant_allow::are_covered(before, grant, now, ids)
                &&& after == if own {
                    granted
                } else {
                    grant_allow::kept(granted, selected, waited)
                }
            };
        assert(grant_allow::are_covered(before, grant, now, ids));
        assert forall|i: int| 0 <= i < ids.len() implies before.pending_read_write.contains_key(
            #[trigger] ids[i],
        ) by {
            assert(ids.contains(ids[i]));
        }
        assert(grant_allow::are_pending(before, ids));
        lemma_without_all_is_consistent(before, ids);
        let rest = before.without_all(ids);
        let kept = RegistryView { grants: rest.grants.insert(grant.id, grant), ..rest };
        assert(kept.consistent());
        lemma_kept_is_consistent(kept, selected, waited);
    }
}

/// Allowing a request with a grant keeps the registry consistent too.
pub proof fn lemma_granting_keeps_consistency(
    before: RegistryView,
    after: RegistryView,
    name: Seq<char>,
    id: u64,
    options: ReadWriteGrantOptions,
    evidence: GrantEvidence,
    result: Result<Outcome, Error>,
)
    requires
        before.consistent(),
        grant_allow::room_to_release(before),
        grant_allow::allowed_with_grant(before, after, name, id, options, evidence, result),
    ensures
        after.consistent(),
        before.handed_out() ==> after.handed_out(),
        after.sandboxes == before.sandboxes,
{
    assert(grant_allow::are_pending(before, Seq::empty()));
    decision::lemma_settled_is_consistent(before, id);
    if before.pending_read_write.contains_key(id) && after != before && after != before.numbered()
        && after != before.without_request(id) && after != before.settled(id) {
        let request = before.pending_read_write[id];
        let chosen = grant_allow::choice(
            request.process_identity,
            request.pid,
            options.tree,
            grant_allow::known_tree(evidence),
            evidence.identity,
        );
        let grant = grant_allow::given_grant(
            before,
            name,
            id,
            options,
            chosen.subject->0,
            evidence.now,
        );
        let release = choose|release: Release| #[trigger]
            grant_allow::grant_releases(
                before,
                after,
                id,
                grant,
                chosen.identity,
                evidence.now,
                release,
            );
        let ready = RegistryView {
            next_id: (before.next_id + 3) as u64,
            ..before.settled(id)
        };
        let selected = ReadWriteRequestView { process_identity: chosen.identity, ..request };
        assert(ready.consistent());
        assert forall|ids: Seq<u64>| #[trigger] grant_allow::are_pending(ready, ids) implies
            ready.next_id + ids.len() + 2 <= u64::MAX by {
            assert forall|i: int| 0 <= i < ids.len() implies
                before.pending_read_write.contains_key(#[trigger] ids[i]) by {
                assert(ready.pending_read_write.contains_key(ids[i]));
            }
            assert(grant_allow::are_pending(before, ids));
        }
        lemma_releases_are_consistent(
            ready,
            after,
            grant,
            (before.next_id + 2) as u64,
            selected,
            before.waiters.contains(id),
            evidence.now,
            release,
        );
    }
}

/// A read or write that starts to wait keeps the registry consistent, and is
/// pending from then on.
pub proof fn lemma_waiting_keeps_consistency(before: RegistryView, request: ReadWriteRequestView)
    requires
        before.consistent(),
        before.handed_out(),
        request.id == before.next_id,
        before.next_id < u64::MAX,
    ensures
        ({
            let after = before.numbered().awaiting(RequestView::ReadWrite(request));
            &&& after.consistent()
            &&& after.handed_out()
            &&& after.request(request.id) == Some(RequestView::ReadWrite(request))
            &&& after.waiters.contains(request.id)
        }),
{
    let after = before.numbered().awaiting(RequestView::ReadWrite(request));
    assert(after.pending == before.pending);
    assert forall|key: PendingKeyView| #[trigger] after.index.contains_key(key) implies
        after.pending.contains_key(after.index[key]) && after.pending[after.index[key]].claims().contains(
        key,
    ) by {
        assert(before.index.contains_key(key));
    }
}

/// A request that was decided is gone: it is no longer pending, nobody waits
/// for it, no part leads to it, and another decision about it is refused. All
/// other requests wait on.
pub proof fn lemma_decided_request_is_gone(before: RegistryView, id: u64, name: Seq<char>, other: u64)
    requires
        before.consistent(),
    ensures
        ({
            let after = before.settled(id);
            &&& after.request(id) is None
            &&& !after.owns(name, id)
            &&& !after.waiters.contains(id)
            &&& forall|key: PendingKeyView| #[trigger]
                after.index.contains_key(key) ==> after.index[key] != id
            &&& other != id ==> after.request(other) == before.request(other)
            &&& other != id ==> after.waiters.contains(other) == before.waiters.contains(other)
        }),
{
    let after = before.settled(id);
    assert forall|key: PendingKeyView| #[trigger] after.index.contains_key(key) implies after.index[key]
        != id by {
        assert(before.index.contains_key(key));
    }
}

/// A refused decision changes nothing.
pub proof fn lemma_refused_decision_changes_nothing(
    before: RegistryView,
    after: RegistryView,
    name: Seq<char>,
    id: u64,
    do_nothing: bool,
    result: Result<Outcome, Error>,
)
    requires
        !before.owns(name, id),
        decision::allowed_once(before, after, name, id, do_nothing, result)
            || decision::settled_with(
            before,
            after,
            name,
            id,
            decision::decision_body(id, before.request(id)->0.attach_id(), "DENY"@),
            PendingDecision::Deny,
            result,
        ),
    ensures
        after == before,
        result is Err,
{
}

/// Putting a request back where it was taken out restores the registry.
pub proof fn lemma_request_can_be_put_back(before: RegistryView, id: u64)
    requires
        before.consistent(),
        before.request(id) is Some,
    ensures
        before.without_request(id).with_request(before.request(id)->0) == before,
{
    let request = before.request(id)->0;
    let after = before.without_request(id).with_request(request);
    assert(after.pending =~= before.pending);
    assert(after.pending_read_write =~= before.pending_read_write);
    assert forall|key: PendingKeyView|
        #![trigger after.index.contains_key(key)]
        #![trigger before.index.contains_key(key)]
        after.index.contains_key(key) == before.index.contains_key(key) && (
        before.index.contains_key(key) ==> after.index[key] == before.index[key]) by {
        if before.pending.contains_key(id) && before.pending[id].claims().contains(key) {
            assert(before.index.contains_key(key));
        }
    }
    assert(after.index =~= before.index);
    assert(after =~= before);
}

/// When every request of a sandbox was canceled, none of it is pending, and the
/// requests of other sandboxes wait on.
pub proof fn lemma_cancel_all_leaves_none(
    before: RegistryView,
    name: Seq<char>,
    items: Seq<RequestView>,
    id: u64,
)
    requires
        before.consistent(),
        registry::listing_of(before, name, items),
    ensures
        ({
            let after = before.numbered().without_all(decision::ids_of(items));
            &&& before.request(id) matches Some(request) ==> if request.sandbox() == name {
                after.request(id) is None && !after.waiters.contains(id)
            } else {
                after.request(id) == before.request(id) && after.waiters.contains(id)
                    == before.waiters.contains(id)
            }
            &&& before.request(id) is None ==> after.request(id) is None
        }),
{
    let ids = decision::ids_of(items);
    if let Some(request) = before.request(id) {
        assert(request.id() == id);
        if request.sandbox() == name {
            assert(before.is_pending(name, request));
            assert(items.contains(request));
            let i = choose|i: int| 0 <= i < items.len() && items[i] == request;
            assert(ids[i] == id);
            assert(ids.contains(id));
        } else {
            if ids.contains(id) {
                let i = choose|i: int| 0 <= i < ids.len() && ids[i] == id;
                assert(items.contains(items[i]));
                assert(before.is_pending(name, items[i]));
                assert(items[i].id() == id);
            }
        }
    }
}

/// When a sandbox was destroyed, the session knows nothing of it any more: not
/// the sandbox, nor a request of it, nor a trusted operation in it.
pub proof fn lemma_destroyed_sandbox_is_gone(
    before: RegistryView,
    name: Seq<char>,
    items: Seq<RequestView>,
    id: u64,
    token: Seq<char>,
)
    requires
        before.consistent(),
        registry::listing_of(before, name, items),
    ensures
        ({
            let canceled = before.without_trust(name).numbered().without_all(
                decision::ids_of(items),
            );
            let after = RegistryView { sandboxes: canceled.sandboxes.remove(name), ..canceled };
            &&& !after.sandboxes.contains_key(name)
            &&& after.request(id) matches Some(request) ==> request.sandbox() != name
            &&& after.trusted.contains_key(token) ==> after.trusted[token].sandbox != name
        }),
{
    let trustless = before.without_trust(name);
    assert(trustless.consistent());
    assert(registry::listing_of(trustless, name, items)) by {
        assert forall|request: RequestView| #[trigger]
            items.contains(request) <==> trustless.is_pending(name, request) by {
            assert(items.contains(request) <==> before.is_pending(name, request));
        }
    }
    lemma_cancel_all_leaves_none(trustless, name, items, id);
}

/// A request to change metadata changes none while it waits: what every path
/// shows stays as it is, and so do the grants.
pub proof fn lemma_waiting_changes_no_metadata(
    before: RegistryView,
    after: RegistryView,
    name: Seq<char>,
    attach_id: Option<u64>,
    requester: RequesterIdentity,
    operation: MetadataOperation,
    log_path: Seq<char>,
    events: Seq<EventView>,
    notices: Seq<Notice>,
    request: MetadataRequestView,
)
    requires
        metadata_request::asks(
            before,
            after,
            name,
            attach_id,
            requester,
            operation,
            log_path,
            events,
            notices,
            request,
        ),
    ensures
        after.awaiting(RequestView::Metadata(request)).sandboxes == before.sandboxes,
        after.awaiting(RequestView::Metadata(request)).grants == before.grants,
{
}

/// Letting a request go on without doing anything, denying it and canceling it
/// change no sandbox and give no grant.
pub proof fn lemma_release_changes_no_metadata(
    before: RegistryView,
    after: RegistryView,
    name: Seq<char>,
    id: u64,
    body: Seq<char>,
    decision: PendingDecision,
    result: Result<Outcome, Error>,
)
    requires
        decision::allowed_once(before, after, name, id, true, result) || decision::settled_with(
            before,
            after,
            name,
            id,
            body,
            decision,
            result,
        ),
    ensures
        after.sandboxes == before.sandboxes,
        after.grants == before.grants,
        after.trusted == before.trusted,
{
}

/// Allowing one request gives no grant: the next request of the kind waits
/// again.
pub proof fn lemma_allow_gives_no_grant(
    before: RegistryView,
    after: RegistryView,
    name: Seq<char>,
    id: u64,
    do_nothing: bool,
    result: Result<Outcome, Error>,
)
    requires
        decision::allowed_once(before, after, name, id, do_nothing, result),
    ensures
        after.grants == before.grants,
{
}

/// A rule that lets an effect pass wins over every rule that protects it.
pub proof fn lemma_bypass_wins(
    sandbox: SandboxView,
    rule: PassthroughRule,
    at: SandboxPath,
    host_is_dir: bool,
    is_dir: bool,
)
    requires
        is_dir == metadata_request::shows_directory(sandbox, at, host_is_dir),
        policy::selects(rule.pattern@, at.text(), is_dir),
    ensures
        ({
            let next = SandboxView {
                passthrough_rules: sandbox.passthrough_rules.push(rule),
                ..sandbox
            };
            !metadata_request::guarded(next, rule.kind, at, host_is_dir)
        }),
{
    crate::overlay::lemma_passthrough_reach(sandbox, rule, rule.kind, at.text(), is_dir);
}

/// Rules about one effect leave the others alone: neither protecting nor letting
/// pass one effect changes whether another has to be asked for.
pub proof fn lemma_effects_are_independent(
    sandbox: SandboxView,
    protection: ProtectionRule,
    passthrough: PassthroughRule,
    kind: ProtectionKind,
    at: SandboxPath,
    host_is_dir: bool,
)
    requires
        protection.kind != kind,
        passthrough.kind != kind,
    ensures
        ({
            let next = SandboxView {
                protection_rules: sandbox.protection_rules.push(protection),
                passthrough_rules: sandbox.passthrough_rules.push(passthrough),
                ..sandbox
            };
            metadata_request::guarded(next, kind, at, host_is_dir) == metadata_request::guarded(
                sandbox,
                kind,
                at,
                host_is_dir,
            )
        }),
{
    let is_dir = metadata_request::shows_directory(sandbox, at, host_is_dir);
    let guarded = SandboxView {
        protection_rules: sandbox.protection_rules.push(protection),
        ..sandbox
    };
    crate::overlay::lemma_rule_reach(sandbox, protection, kind, at.text(), is_dir);
    crate::overlay::lemma_passthrough_reach(guarded, passthrough, kind, at.text(), is_dir);
    assert(guarded.passes(kind, at.text(), is_dir) == sandbox.passes(kind, at.text(), is_dir));
}

/// An operation goes on unasked exactly when none of its effects has to be asked
/// for.
pub proof fn lemma_every_effect_counts(
    sandbox: SandboxView,
    about_xattrs: bool,
    effects: Seq<EffectView>,
    host_dirs: Seq<bool>,
)
    ensures
        authorize::guarded_effects(sandbox, about_xattrs, effects, host_dirs).len() == 0
            <==> forall|i: int|
            0 <= i < effects.len() ==> !authorize::is_guarded(
                sandbox,
                about_xattrs,
                #[trigger] effects[i],
                host_dirs[i],
            ),
    decreases effects.len(),
{
    if effects.len() > 0 {
        let rest = effects.drop_last();
        lemma_every_effect_counts(sandbox, about_xattrs, rest, host_dirs);
        let last = effects.len() - 1;
        if authorize::is_guarded(sandbox, about_xattrs, effects[last], host_dirs[last]) {
            assert(effects.last() == effects[last]);
        } else {
            assert forall|i: int| 0 <= i < rest.len() implies rest[i] == effects[i] by {}
            if forall|i: int|
                0 <= i < rest.len() ==> !authorize::is_guarded(
                    sandbox,
                    about_xattrs,
                    #[trigger] rest[i],
                    host_dirs[i],
                ) {
                assert forall|i: int| 0 <= i < effects.len() implies !authorize::is_guarded(
                    sandbox,
                    about_xattrs,
                    #[trigger] effects[i],
                    host_dirs[i],
                ) by {
                    if i < last {
                        assert(rest[i] == effects[i]);
                    }
                }
            } else {
                let i = choose|i: int|
                    0 <= i < rest.len() && authorize::is_guarded(
                        sandbox,
                        about_xattrs,
                        #[trigger] rest[i],
                        host_dirs[i],
                    );
                assert(authorize::is_guarded(sandbox, about_xattrs, effects[i], host_dirs[i]));
            }
        }
    }
}

/// Rules reach visible paths only, and make none visible: whatever the rules
/// are, what a path stands for stays the same, and where it stands for nothing
/// no effect on it is asked for and no operation works on it.
pub proof fn lemma_rules_reach_visible_paths_only(
    sandbox: SandboxView,
    protection_rules: Seq<ProtectionRule>,
    passthrough_rules: Seq<PassthroughRule>,
    kind: ProtectionKind,
    at: SandboxPath,
    host_is_dir: bool,
    writes: bool,
)
    ensures
        ({
            let ruled = SandboxView { protection_rules, passthrough_rules, ..sandbox };
            &&& ruled.resolution(at@) == sandbox.resolution(at@)
            &&& sandbox.resolution(at@) is None ==> !metadata_request::guarded(
                ruled,
                kind,
                at,
                host_is_dir,
            ) && forward::target_of(ruled, writes, at) is Err
        }),
{
}

/// A change of metadata at a path that stands for nothing is answered as
/// missing, whatever the rules are and whoever asks: nothing is changed,
/// superseded or put to wait.
pub proof fn lemma_hidden_metadata_cannot_change(
    before: RegistryView,
    after: RegistryView,
    name: Seq<char>,
    attach_id: Option<u64>,
    requester: RequesterIdentity,
    operation: MetadataOperation,
    host_is_dir: bool,
    result: Result<MetadataStep, attr::Errno>,
)
    requires
        before.sandboxes.contains_key(name),
        before.sandboxes[name].resolution(operation.subject()@) is None,
        metadata_request::changes(
            before,
            after,
            name,
            attach_id,
            requester,
            operation,
            host_is_dir,
            result,
        ) || metadata_request::begins(
            before,
            after,
            name,
            attach_id,
            requester,
            operation,
            result,
        ),
    ensures
        result == Err::<MetadataStep, attr::Errno>(attr::Errno::ENOENT),
        after == before,
{
}

/// An operation on paths that stand for nothing goes on unasked, and then has
/// nothing to work on.
pub proof fn lemma_hidden_paths_are_not_asked_for(
    sandbox: SandboxView,
    about_xattrs: bool,
    effects: Seq<EffectView>,
    host_dirs: Seq<bool>,
)
    requires
        forall|i: int|
            0 <= i < effects.len() ==> sandbox.resolution((#[trigger] effects[i]).path@) is None,
    ensures
        authorize::guarded_effects(sandbox, about_xattrs, effects, host_dirs).len() == 0,
{
    lemma_every_effect_counts(sandbox, about_xattrs, effects, host_dirs);
}

/// Letting writes pass does not let changes of metadata pass: a new size for a
/// file whose metadata is guarded, and a hard link to it, are asked for however
/// writes are treated.
pub proof fn lemma_write_bypass_keeps_metadata_guarded(
    sandbox: SandboxView,
    path: SandboxPath,
    to: SandboxPath,
    host_dirs: Seq<bool>,
)
    ensures
        metadata_request::guarded(sandbox, ProtectionKind::Metadata, path, host_dirs[1])
            ==> authorize::guarded_effects(
            sandbox,
            false,
            (ReadWriteOperation::Truncate { path }).effects(),
            host_dirs,
        ).len() > 0,
        metadata_request::guarded(sandbox, ProtectionKind::Metadata, path, host_dirs[0])
            ==> authorize::guarded_effects(
            sandbox,
            false,
            (ReadWriteOperation::Link { from: path, to }).effects(),
            host_dirs,
        ).len() > 0,
{
    let truncate = (ReadWriteOperation::Truncate { path }).effects();
    let link = (ReadWriteOperation::Link { from: path, to }).effects();
    lemma_every_effect_counts(sandbox, false, truncate, host_dirs);
    lemma_every_effect_counts(sandbox, false, link, host_dirs);
    if metadata_request::guarded(sandbox, ProtectionKind::Metadata, path, host_dirs[1]) {
        assert(authorize::is_guarded(sandbox, false, truncate[1], host_dirs[1]));
    }
    if metadata_request::guarded(sandbox, ProtectionKind::Metadata, path, host_dirs[0]) {
        assert(authorize::is_guarded(sandbox, false, link[0], host_dirs[0]));
    }
}

/// Rules about extended attributes have the last word on them: where one lets
/// them pass no operation on them is asked for, and where they are guarded
/// every operation on them is, however reads, writes and metadata are treated.
pub proof fn lemma_xattr_rules_decide(
    sandbox: SandboxView,
    operation: ReadWriteOperation,
    host_is_dir: bool,
    host_dirs: Seq<bool>,
)
    requires
        operation.is_about_xattrs(),
        host_dirs.len() == operation.effects().len(),
        forall|i: int| 0 <= i < host_dirs.len() ==> host_dirs[i] == host_is_dir,
    ensures
        ({
            let guarded = authorize::guarded_effects(
                sandbox,
                true,
                operation.effects(),
                host_dirs,
            );
            let path = operation.subject();
            &&& sandbox.passes(
                ProtectionKind::Xattr,
                path.text(),
                metadata_request::shows_directory(sandbox, path, host_is_dir),
            ) ==> guarded.len() == 0
            &&& metadata_request::guarded(sandbox, ProtectionKind::Xattr, path, host_is_dir)
                ==> guarded.len() > 0
        }),
{
    let effects = operation.effects();
    lemma_every_effect_counts(sandbox, true, effects, host_dirs);
    let last = effects.len() - 1;
    assert(effects[last].kind == ProtectionKind::Xattr && effects[last].path
        == operation.subject());
    assert forall|i: int| 0 <= i < effects.len() implies (#[trigger] effects[i]).path
        == operation.subject() by {}
    if metadata_request::guarded(
        sandbox,
        ProtectionKind::Xattr,
        operation.subject(),
        host_is_dir,
    ) {
        assert(authorize::is_guarded(sandbox, true, effects[last], host_dirs[last]));
    }
}

/// One refused effect refuses the operation.
pub proof fn lemma_one_refusal_is_enough(
    writes: bool,
    decisions: Seq<PendingDecision>,
    i: int,
)
    requires
        0 <= i < decisions.len(),
        decisions[i] is Deny || decisions[i] is Cancel,
    ensures
        authorize::answered_with(writes, decisions) == Some(attr::Errno::EACCES)
            || authorize::answered_with(writes, decisions) == Some(attr::Errno::ECANCELED),
    decreases decisions.len(),
{
    if i < decisions.len() - 1 {
        lemma_one_refusal_is_enough(writes, decisions.drop_last(), i);
        lemma_failures_are_two(decisions.drop_last());
    }
    lemma_failures_are_two(decisions);
}

proof fn lemma_failures_are_two(decisions: Seq<PendingDecision>)
    ensures
        authorize::first_failure(decisions) matches Some(errno) ==> errno == attr::Errno::EACCES
            || errno == attr::Errno::ECANCELED,
    decreases decisions.len(),
{
    if decisions.len() > 0 {
        lemma_failures_are_two(decisions.drop_last());
    }
}

/// Flags that forbid changes hold from the moment they are set: the object that
/// a path shows cannot be written to through it any more.
pub proof fn lemma_immutable_refuses_writes(
    sandbox: SandboxView,
    key: ObjectView,
    path: SandboxPath,
    flags: u32,
)
    requires
        sandbox.object_key(path@) == Some(key),
        forward::is_immutable(flags),
    ensures
        forward::target_of(
            sandbox.after_override(key, MetadataOperation::Chattr { path, flags }),
            true,
            path,
        ) == Err::<Seq<char>, attr::Errno>(attr::Errno::EPERM),
{
    let operation = MetadataOperation::Chattr { path, flags };
    let after = sandbox.after_override(key, operation);
    assert(after.object_key(path@) == sandbox.object_key(path@));
    assert(after.resolution(path@) == sandbox.resolution(path@));
    assert(after.override_at(path@) == Some(sandbox.entry_after(key, operation).override_));
}

/// No operation works on a path that a hide covers or that no layer shows, or
/// on a directory that only leads to layers.
pub proof fn lemma_only_layers_are_worked_on(
    sandbox: SandboxView,
    writes: bool,
    path: SandboxPath,
)
    ensures
        forward::target_of(sandbox, writes, path) is Ok ==> sandbox.overlay(path@) is Real,
{
}

/// A grant for one use lets one effect pass: once it did, it covers nothing any
/// more, and the other grants stay.
pub proof fn lemma_one_shot_grant_is_used_up(registry: RegistryView, grant_id: u64, other: u64)
    requires
        registry.grants.contains_key(grant_id),
        registry.grants[grant_id].lifetime is OneShot,
    ensures
        !registry.using_grant(grant_id).grants.contains_key(grant_id),
        other != grant_id && registry.grants.contains_key(other) ==> registry.using_grant(
            grant_id,
        ).grants.contains_key(other) && registry.using_grant(grant_id).grants[other]
            == registry.grants[other],
{
}

/// A grant for a time lets every effect that it covers pass until it ends: using
/// it changes no grant, and it goes only when its time is over.
pub proof fn lemma_duration_grant_lasts(
    before: RegistryView,
    name: Seq<char>,
    now: Timestamp,
    count: nat,
    grant_id: u64,
)
    requires
        before.grants.contains_key(grant_id),
        before.grants[grant_id].lifetime is Duration,
        !before.grants[grant_id].lifetime.over(now),
    ensures
        ({
            let after = before.pruned(name, now, count).using_grant(grant_id);
            &&& after.grants.contains_key(grant_id)
            &&& after.grants[grant_id] == before.grants[grant_id]
            &&& after.grants == before.unexpired(name, now)
        }),
{
}

/// A grant that is over is gone as soon as the sandbox is asked about the next
/// guarded effect, and lets nothing pass.
pub proof fn lemma_expired_grant_goes(
    before: RegistryView,
    name: Seq<char>,
    kind: ProtectionKind,
    path: SandboxPath,
    identity: Option<ProcessIdentityEvidence>,
    now: Timestamp,
    count: nat,
    grant_id: u64,
)
    requires
        before.grants.contains_key(grant_id),
        before.grants[grant_id].sandbox == name,
        before.grants[grant_id].lifetime.over(now),
    ensures
        !before.pruned(name, now, count).grants.contains_key(grant_id),
        !before.pruned(name, now, count).first_cover(grant_id, name, kind, path, identity, now),
{
}

/// Lines have numbers of their own: none before `first`, none from `next` on,
/// and none twice.
pub open spec fn fresh_numbers(events: Seq<EventView>, first: u64, next: u64) -> bool {
    &&& forall|i: int| 0 <= i < events.len() ==> first <= (#[trigger] events[i]).0 < next
    &&& forall|i: int, j: int|
        0 <= i < j < events.len() ==> (#[trigger] events[i]).0 != (#[trigger] events[j]).0
}

/// Every line about a canceled, superseded or expired item has a number that
/// was not handed out before, and each its own.
pub proof fn lemma_lines_have_fresh_numbers(
    before: RegistryView,
    items: Seq<RequestView>,
    ids: Seq<u64>,
    scope: Seq<char>,
    reason: Seq<char>,
    body: Seq<char>,
)
    requires
        before.next_id + items.len() < u64::MAX,
        before.next_id + ids.len() < u64::MAX,
    ensures
        fresh_numbers(
            seq![(before.next_id, scope)] + decision::cancel_lines(
                items,
                before.next_id + 1,
                reason,
            ),
            before.next_id,
            before.numbered().without_all(decision::ids_of(items)).next_id,
        ),
        fresh_numbers(
            metadata_request::supersede_lines(before, ids).push(
                ((before.next_id + ids.len()) as u64, body),
            ),
            before.next_id,
            before.without_all(ids).numbered().next_id,
        ),
        fresh_numbers(
            authorize::expiry_lines(before.next_id as int, ids).push(
                ((before.next_id + ids.len()) as u64, body),
            ),
            before.next_id,
            (before.next_id + ids.len() + 1) as u64,
        ),
{
}

/// A path that was looked up is found again under its inode number, and the
/// root keeps its own.
pub proof fn lemma_remembered_path_is_found(inodes: Map<u64, SandboxPath>, path: SandboxPath)
    requires
        inodes.contains_key(attr::ROOT_INO),
        inodes[attr::ROOT_INO]@.len() == 0,
    ensures
        ({
            let after = fs::remembered(inodes, seq![path]);
            let ino = attr::inode_of(path) as u64;
            &&& after.contains_key(ino) && after[ino] == path
            &&& after.contains_key(attr::ROOT_INO) && after[attr::ROOT_INO]@.len() == 0
            &&& path@.len() > 0 ==> ino != attr::ROOT_INO
        }),
{
    reveal_with_fuel(fs::remembered, 2);
    let hash = attr::fnv1a(vstd::utf8::encode_utf8(path.text()));
    assert(hash & 0x000f_ffff_ffff_ffff < 0x0010_0000_0000_0000) by (bit_vector);
    assert(seq![path].drop_last() =~= Seq::<SandboxPath>::empty());
}

} // verus!
