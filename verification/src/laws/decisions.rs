//! What clients' requests do: decisions, rules and listings.

use vstd::prelude::*;

use crate::decision;
use crate::dispatch;
use crate::dispatch::Step;
use crate::grant::ReadWriteGrantOptions;
use crate::ipc::Request;
use crate::path::SandboxPath;
use crate::pending::PendingDecision;
use crate::pending::RequestView;
use crate::policy::PolicyPattern;
use crate::policy::ProtectionKind;
use crate::policy::ProtectionRule;
use crate::registry::RegistryView;
use crate::sandbox;
use crate::sandbox::SandboxView;
use crate::session::Notice;
use crate::table::TableKey;

verus! {

/// Requests that only ask change nothing, and neither do those that first need
/// something done outside.
pub proof fn lemma_questions_change_nothing(
    before: RegistryView,
    after: RegistryView,
    request: Request,
    step: Step,
)
    requires
        dispatch::handles(before, after, request, step),
        match request {
            Request::Ping => true,
            Request::ListProtection { .. } => true,
            Request::ListBypass { .. } => true,
            Request::ListMounts { .. } => true,
            Request::Metadata { .. } => true,
            Request::Pending { .. } => true,
            Request::LogPath { .. } => true,
            Request::Shutdown { .. } => true,
            Request::Attach { .. } => true,
            Request::Detach { .. } => true,
            Request::Mount { .. } => true,
            Request::BeginTrustedOperation { .. } => true,
            Request::EndTrustedOperation { .. } => true,
            _ => false,
        },
    ensures
        after == before,
        !(step is Finish),
{
}

/// A pending request that is denied or canceled is gone, whoever waits for it is
/// told just that, and nothing else changes: no sandbox, no other request and no
/// grant.
pub proof fn lemma_refusing_tells_the_waiter(
    before: RegistryView,
    after: RegistryView,
    request: Request,
    step: Step,
    name: String,
    id: u64,
)
    requires
        before.listable(),
        before.next_id < u64::MAX,
        before.sandboxes.contains_key(name@),
        before.pending.contains_key(id) && before.pending[id].sandbox == name@
            || before.pending_read_write.contains_key(id) && before.pending_read_write[id].sandbox
            == name@,
        request == (Request::Deny { name, id }) || request == (Request::Cancel { name, id }),
        dispatch::handles(before, after, request, step),
    ensures
        after.pending == before.pending.remove(id),
        after.pending_read_write == before.pending_read_write.remove(id),
        after.waiters == before.waiters.remove(id),
        after.sandboxes == before.sandboxes,
        after.grants == before.grants,
        after.trusted == before.trusted,
        after.next_id == before.next_id + 1,
        step is Finish,
        step->Finish_result is Ok,
        ({
            let outcome = step->Finish_result->Ok_0;
            &&& outcome.log_path@ == before.sandboxes[name@].log_path
            &&& outcome.events().len() == 1
            &&& outcome.events()[0].0 == before.next_id
            &&& outcome.response is Done
            &&& !before.waiters.contains(id) ==> outcome.notices@.len() == 0
            &&& before.waiters.contains(id) ==> outcome.notices@.len() == 1 && outcome.notices@[0].id
                == id && (request is Deny <==> outcome.notices@[0].decision is Deny) && (
            request is Cancel <==> outcome.notices@[0].decision is Cancel)
        }),
{
    assert(after.pending =~= before.pending.remove(id));
    assert(after.pending_read_write =~= before.pending_read_write.remove(id));
}

/// A pending request that is allowed without a grant is gone, and no grant is
/// left. Whoever waits for it is told to go on, or to leave it at that, and does
/// the rest. Where nobody waits, an allowed change of metadata is made here, on
/// the object that the request was about.
pub proof fn lemma_allowing_lets_it_go_on(
    before: RegistryView,
    after: RegistryView,
    step: Step,
    name: String,
    id: u64,
    do_nothing: bool,
)
    requires
        before.listable(),
        before.next_id < u64::MAX,
        before.sandboxes.contains_key(name@),
        before.pending.contains_key(id) && before.pending[id].sandbox == name@
            || before.pending_read_write.contains_key(id) && before.pending_read_write[id].sandbox
            == name@,
        dispatch::handles(
            before,
            after,
            (Request::Allow { name, id, do_nothing, grant: None }),
            step,
        ),
    ensures
        after.pending == before.pending.remove(id),
        after.pending_read_write == before.pending_read_write.remove(id),
        after.waiters == before.waiters.remove(id),
        after.grants == before.grants,
        after.trusted == before.trusted,
        after.next_id == before.next_id + 1,
        step is Finish,
        before.waiters.contains(id) || do_nothing || !before.pending.contains_key(id)
            ==> after.sandboxes == before.sandboxes && step->Finish_result is Ok,
        ({
            let object = before.pending[id].object;
            let operation = before.pending[id].operation;
            let sandbox = before.sandboxes[name@];
            let known = exists|i: int|
                0 <= i < sandbox.layers.len() && (#[trigger] sandbox.layers[i]).id
                    == object.layer_id;
            !before.waiters.contains(id) && !do_nothing && before.pending.contains_key(id) ==> {
                &&& step->Finish_result is Ok <==> known
                &&& !known ==> after.sandboxes == before.sandboxes
                &&& known ==> after.sandboxes.dom() == before.sandboxes.dom()
                    && after.sandboxes[name@].metadata.contains_key(object)
                    && after.sandboxes[name@].metadata[object].sandbox_path == operation.subject()
                    && after.sandboxes[name@] == (SandboxView {
                    metadata: after.sandboxes[name@].metadata,
                    ..sandbox
                })
                &&& known && sandbox.metadata.contains_key(object)
                    ==> after.sandboxes[name@].metadata[object].override_
                    == sandbox.metadata[object].override_.after(operation)
                &&& known ==> forall|other: Seq<char>|
                    other != name@ && #[trigger] before.sandboxes.contains_key(other)
                        ==> after.sandboxes[other] == before.sandboxes[other]
            }
        }),
        step->Finish_result matches Ok(outcome) ==> {
            &&& outcome.log_path@ == before.sandboxes[name@].log_path
            &&& outcome.events().len() == 1
            &&& outcome.events()[0].0 == before.next_id
            &&& outcome.response is Done
            &&& !before.waiters.contains(id) ==> outcome.notices@.len() == 0
            &&& before.waiters.contains(id) ==> outcome.notices@.len() == 1 && outcome.notices@[0].id
                == id && (do_nothing <==> outcome.notices@[0].decision is DoNothing) && (!do_nothing
                <==> outcome.notices@[0].decision is Apply)
        },
{
    assert(after.pending =~= before.pending.remove(id));
    assert(after.pending_read_write =~= before.pending_read_write.remove(id));
    let object = before.pending[id].object;
    let sandbox = before.sandboxes[name@];
    if after.sandboxes != before.sandboxes {
        assert(after.sandboxes.dom() =~= before.sandboxes.dom());
    }
}

/// Allowing with a grant and doing nothing exclude each other.
pub proof fn lemma_do_nothing_gives_no_grant(
    before: RegistryView,
    after: RegistryView,
    step: Step,
    name: String,
    id: u64,
    options: ReadWriteGrantOptions,
)
    requires
        dispatch::handles(
            before,
            after,
            (Request::Allow { name, id, do_nothing: true, grant: Some(options) }),
            step,
        ),
    ensures
        after == before,
        step is Reply,
        step->Reply_result is Err,
{
}

/// A decision about a request of another sandbox, or about none, changes nothing
/// and fails.
pub proof fn lemma_strangers_cannot_decide(
    before: RegistryView,
    after: RegistryView,
    request: Request,
    step: Step,
    name: String,
    id: u64,
    do_nothing: bool,
)
    requires
        before.pending.contains_key(id) ==> before.pending[id].sandbox != name@,
        before.pending_read_write.contains_key(id) ==> before.pending_read_write[id].sandbox
            != name@,
        request == (Request::Deny { name, id }) || request == (Request::Cancel { name, id })
            || request == (Request::Allow { name, id, do_nothing, grant: None }),
        dispatch::handles(before, after, request, step),
    ensures
        after == before,
        step is Finish,
        step->Finish_result is Err,
{
}

/// When many requests are decided, just those who wait for one of them are told,
/// all the same.
pub proof fn lemma_all_waiters_are_told(
    waiters: Set<u64>,
    items: Seq<RequestView>,
    decided: PendingDecision,
    notice: Notice,
)
    ensures
        decision::woken_all(waiters, items, decided).contains(notice) <==> {
            &&& notice.decision == decided
            &&& waiters.contains(notice.id)
            &&& exists|i: int| 0 <= i < items.len() && (#[trigger] items[i]).id() == notice.id
        },
        decision::woken_all(waiters, items, decided).len() <= items.len(),
    decreases items.len(),
{
    if items.len() > 0 {
        let front = items.drop_last();
        let rest = decision::woken_all(waiters, front, decided);
        let own = Notice { id: items.last().id(), decision: decided };
        lemma_all_waiters_are_told(waiters, front, decided, notice);
        crate::table::lemma_push_contains(rest, own);
        assert forall|i: int| 0 <= i < front.len() implies front[i] == items[i] by {}
        assert(items[items.len() - 1] == items.last());
        if exists|i: int| 0 <= i < items.len() && (#[trigger] items[i]).id() == notice.id {
            let i = choose|i: int| 0 <= i < items.len() && (#[trigger] items[i]).id() == notice.id;
            if i < front.len() {
                assert(front[i].id() == notice.id);
            }
        }
        if exists|i: int| 0 <= i < front.len() && (#[trigger] front[i]).id() == notice.id {
            let i = choose|i: int| 0 <= i < front.len() && (#[trigger] front[i]).id() == notice.id;
            assert(items[i].id() == notice.id);
        }
    }
}

/// Canceling everything in a sandbox tells those who wait that their requests
/// are canceled, and tells nobody else.
pub proof fn lemma_cancel_all_tells_the_waiters(
    before: RegistryView,
    after: RegistryView,
    step: Step,
    name: String,
    id: u64,
)
    requires
        before.listable(),
        before.sandboxes.contains_key(name@),
        dispatch::handles(
            before,
            after,
            (Request::CancelAll { name, mountpoint: None }),
            step,
        ),
    ensures
        after.sandboxes == before.sandboxes,
        after.grants == before.grants,
        after.trusted == before.trusted,
        step is Finish,
        step->Finish_result is Ok,
        ({
            let told = step->Finish_result->Ok_0.notices@;
            let own = before.pending.contains_key(id) && before.pending[id].sandbox == name@
                || before.pending_read_write.contains_key(id)
                && before.pending_read_write[id].sandbox == name@;
            &&& told.contains(Notice { id, decision: PendingDecision::Cancel }) <==> own
                && before.waiters.contains(id)
            &&& forall|notice: Notice| #[trigger]
                told.contains(notice) ==> notice.decision is Cancel
            &&& after.pending.contains_key(id) <==> before.pending.contains_key(id) && !own
            &&& after.pending_read_write.contains_key(id)
                <==> before.pending_read_write.contains_key(id) && !own
            &&& after.waiters.contains(id) <==> before.waiters.contains(id) && !own
        }),
{
    let outcome = step->Finish_result->Ok_0;
    let items = choose|items: Seq<RequestView>|
        {
            &&& #[trigger] crate::registry::listing_of(before, name@, items)
            &&& decision::cancels_all(
                before,
                after,
                outcome,
                name@,
                items,
                None,
                "sandbox"@,
                "cancel-all"@,
            )
        };
    let own = before.pending.contains_key(id) && before.pending[id].sandbox == name@
        || before.pending_read_write.contains_key(id) && before.pending_read_write[id].sandbox
        == name@;
    let ids = decision::ids_of(items);
    assert(own <==> ids.contains(id)) by {
        if own {
            let request = before.request(id)->0;
            assert(before.is_pending(name@, request));
            assert(items.contains(request));
            let i = choose|i: int| 0 <= i < items.len() && items[i] == request;
            assert(ids[i] == id);
        }
        if ids.contains(id) {
            let i = choose|i: int| 0 <= i < ids.len() && ids[i] == id;
            assert(items.contains(items[i]));
            assert(before.is_pending(name@, items[i]));
        }
    }
    assert(ids.contains(id) <==> exists|i: int|
        0 <= i < items.len() && (#[trigger] items[i]).id() == id) by {
        if ids.contains(id) {
            let i = choose|i: int| 0 <= i < ids.len() && ids[i] == id;
            assert(items[i].id() == id);
        }
        if exists|i: int| 0 <= i < items.len() && (#[trigger] items[i]).id() == id {
            let i = choose|i: int| 0 <= i < items.len() && (#[trigger] items[i]).id() == id;
            assert(ids[i] == id);
        }
    }
    lemma_all_waiters_are_told(
        before.waiters,
        items,
        PendingDecision::Cancel,
        Notice { id, decision: PendingDecision::Cancel },
    );
    assert forall|notice: Notice| #[trigger] outcome.notices@.contains(notice) implies
        notice.decision is Cancel by {
        lemma_all_waiters_are_told(before.waiters, items, PendingDecision::Cancel, notice);
    }
}

/// Protecting a pattern adds one rule at the end, unless the rule is there
/// already; all other rules, and everything else, stay.
pub proof fn lemma_protecting_adds_the_rule(
    before: RegistryView,
    after: RegistryView,
    step: Step,
    name: String,
    kind: ProtectionKind,
    pattern: PolicyPattern,
    other: Seq<char>,
)
    requires
        before.sandboxes.contains_key(name@),
        before.next_id < u64::MAX,
        dispatch::handles(before, after, (Request::Protect { name, kind, pattern }), step),
    ensures
        step is Finish,
        step->Finish_result is Ok,
        after.sandboxes.contains_key(name@),
        ({
            let old_rules = before.sandboxes[name@].protection_rules;
            let rules = after.sandboxes[name@].protection_rules;
            &&& exists|i: int|
                0 <= i < rules.len() && (#[trigger] rules[i]).kind == kind && rules[i].pattern@
                    == pattern@
            &&& old_rules.is_prefix_of(rules)
            &&& rules.len() == old_rules.len() <==> exists|i: int|
                0 <= i < old_rules.len() && (#[trigger] old_rules[i]).kind == kind
                    && old_rules[i].pattern@ == pattern@
            &&& rules.len() <= old_rules.len() + 1
            &&& after.sandboxes[name@] == (SandboxView {
                protection_rules: rules,
                ..before.sandboxes[name@]
            })
        }),
        other != name@ && before.sandboxes.contains_key(other) ==> after.sandboxes.contains_key(
            other,
        ) && after.sandboxes[other] == before.sandboxes[other],
        after == (RegistryView {
            sandboxes: after.sandboxes,
            next_id: (before.next_id + 1) as u64,
            ..before
        }),
{
    let old_rules = before.sandboxes[name@].protection_rules;
    let rules = after.sandboxes[name@].protection_rules;
    if sandbox::has_protection_rule(old_rules, kind, pattern@) {
        let i = choose|i: int|
            0 <= i < old_rules.len() && (#[trigger] old_rules[i]).key() == (pattern@, kind);
        assert(rules[i].kind == kind);
    } else {
        assert(rules[old_rules.len() as int].kind == kind);
        if exists|i: int|
            0 <= i < old_rules.len() && (#[trigger] old_rules[i]).kind == kind
                && old_rules[i].pattern@ == pattern@ {
            let i = choose|i: int|
                0 <= i < old_rules.len() && (#[trigger] old_rules[i]).kind == kind
                    && old_rules[i].pattern@ == pattern@;
            assert(old_rules[i].key() == (pattern@, kind));
        }
    }
}

/// Taking protection back removes the first rule of the kind with the pattern
/// where there is one; all other rules, and everything else, stay.
pub proof fn lemma_unprotecting_removes_the_rule(
    before: RegistryView,
    after: RegistryView,
    step: Step,
    name: String,
    kind: ProtectionKind,
    pattern: PolicyPattern,
    i: int,
)
    requires
        before.sandboxes.contains_key(name@),
        before.next_id < u64::MAX,
        dispatch::handles(before, after, (Request::Unprotect { name, kind, pattern }), step),
    ensures
        step is Finish,
        step->Finish_result is Ok,
        after.sandboxes.contains_key(name@),
        ({
            let old_rules = before.sandboxes[name@].protection_rules;
            let rules = after.sandboxes[name@].protection_rules;
            &&& 0 <= i < old_rules.len() && old_rules[i].kind == kind && old_rules[i].pattern@
                == pattern@ && (forall|j: int|
                0 <= j < i ==> !((#[trigger] old_rules[j]).kind == kind && old_rules[j].pattern@
                    == pattern@)) ==> rules == old_rules.take(i) + old_rules.skip(i + 1)
            &&& (forall|j: int|
                0 <= j < old_rules.len() ==> !((#[trigger] old_rules[j]).kind == kind
                    && old_rules[j].pattern@ == pattern@)) ==> rules == old_rules
            &&& after.sandboxes[name@] == (SandboxView {
                protection_rules: rules,
                ..before.sandboxes[name@]
            })
        }),
        after == (RegistryView {
            sandboxes: after.sandboxes,
            next_id: (before.next_id + 1) as u64,
            ..before
        }),
{
    let old_rules = before.sandboxes[name@].protection_rules;
    let rules = after.sandboxes[name@].protection_rules;
    assert forall|j: int| 0 <= j < old_rules.len() implies ((#[trigger] old_rules[j]).key() == (
        pattern@,
        kind,
    )) == (old_rules[j].kind == kind && old_rules[j].pattern@ == pattern@) by {}
    if sandbox::has_protection_rule(old_rules, kind, pattern@) {
        let k = choose|k: int|
            {
                &&& #[trigger] sandbox::first_protection_rule(old_rules, kind, pattern@, k)
                &&& rules == old_rules.remove(k)
            };
        if 0 <= i < old_rules.len() && old_rules[i].key() == (pattern@, kind) && forall|j: int|
            0 <= j < i ==> !((#[trigger] old_rules[j]).kind == kind && old_rules[j].pattern@
                == pattern@) {
            if k < i {
                assert(old_rules[k].kind == kind);
            }
            assert(k == i);
            assert(rules =~= old_rules.take(i) + old_rules.skip(i + 1));
        }
        assert(old_rules[k].kind == kind);
    } else if 0 <= i < old_rules.len() {
        assert(old_rules[i].key() != (pattern@, kind));
    }
}

/// Letting a pattern pass adds one rule at the end of those that let pass, unless
/// the rule is there already; all other rules, and everything else, stay.
pub proof fn lemma_bypassing_adds_the_rule(
    before: RegistryView,
    after: RegistryView,
    step: Step,
    name: String,
    kind: ProtectionKind,
    pattern: PolicyPattern,
)
    requires
        before.sandboxes.contains_key(name@),
        before.next_id < u64::MAX,
        dispatch::handles(before, after, (Request::Bypass { name, kind, pattern }), step),
    ensures
        step is Finish,
        step->Finish_result is Ok,
        after.sandboxes.contains_key(name@),
        ({
            let old_rules = before.sandboxes[name@].passthrough_rules;
            let rules = after.sandboxes[name@].passthrough_rules;
            &&& exists|i: int|
                0 <= i < rules.len() && (#[trigger] rules[i]).kind == kind && rules[i].pattern@
                    == pattern@
            &&& old_rules.is_prefix_of(rules)
            &&& rules.len() == old_rules.len() <==> exists|i: int|
                0 <= i < old_rules.len() && (#[trigger] old_rules[i]).kind == kind
                    && old_rules[i].pattern@ == pattern@
            &&& rules.len() <= old_rules.len() + 1
            &&& after.sandboxes[name@] == (SandboxView {
                passthrough_rules: rules,
                ..before.sandboxes[name@]
            })
        }),
        after == (RegistryView {
            sandboxes: after.sandboxes,
            next_id: (before.next_id + 1) as u64,
            ..before
        }),
{
    let old_rules = before.sandboxes[name@].passthrough_rules;
    let rules = after.sandboxes[name@].passthrough_rules;
    if sandbox::has_passthrough_rule(old_rules, kind, pattern@) {
        let i = choose|i: int|
            0 <= i < old_rules.len() && (#[trigger] old_rules[i]).key() == (pattern@, kind);
        assert(rules[i].kind == kind);
    } else {
        assert(rules[old_rules.len() as int].kind == kind);
        if exists|i: int|
            0 <= i < old_rules.len() && (#[trigger] old_rules[i]).kind == kind
                && old_rules[i].pattern@ == pattern@ {
            let i = choose|i: int|
                0 <= i < old_rules.len() && (#[trigger] old_rules[i]).kind == kind
                    && old_rules[i].pattern@ == pattern@;
            assert(old_rules[i].key() == (pattern@, kind));
        }
    }
}

/// Taking back that a pattern passes removes the first rule of the kind with the
/// pattern where there is one; all other rules, and everything else, stay.
pub proof fn lemma_unbypassing_removes_the_rule(
    before: RegistryView,
    after: RegistryView,
    step: Step,
    name: String,
    kind: ProtectionKind,
    pattern: PolicyPattern,
    i: int,
)
    requires
        before.sandboxes.contains_key(name@),
        before.next_id < u64::MAX,
        dispatch::handles(before, after, (Request::Unbypass { name, kind, pattern }), step),
    ensures
        step is Finish,
        step->Finish_result is Ok,
        after.sandboxes.contains_key(name@),
        ({
            let old_rules = before.sandboxes[name@].passthrough_rules;
            let rules = after.sandboxes[name@].passthrough_rules;
            &&& 0 <= i < old_rules.len() && old_rules[i].kind == kind && old_rules[i].pattern@
                == pattern@ && (forall|j: int|
                0 <= j < i ==> !((#[trigger] old_rules[j]).kind == kind && old_rules[j].pattern@
                    == pattern@)) ==> rules == old_rules.take(i) + old_rules.skip(i + 1)
            &&& (forall|j: int|
                0 <= j < old_rules.len() ==> !((#[trigger] old_rules[j]).kind == kind
                    && old_rules[j].pattern@ == pattern@)) ==> rules == old_rules
            &&& after.sandboxes[name@] == (SandboxView {
                passthrough_rules: rules,
                ..before.sandboxes[name@]
            })
        }),
        after == (RegistryView {
            sandboxes: after.sandboxes,
            next_id: (before.next_id + 1) as u64,
            ..before
        }),
{
    let old_rules = before.sandboxes[name@].passthrough_rules;
    let rules = after.sandboxes[name@].passthrough_rules;
    assert forall|j: int| 0 <= j < old_rules.len() implies ((#[trigger] old_rules[j]).key() == (
        pattern@,
        kind,
    )) == (old_rules[j].kind == kind && old_rules[j].pattern@ == pattern@) by {}
    if sandbox::has_passthrough_rule(old_rules, kind, pattern@) {
        let k = choose|k: int|
            {
                &&& #[trigger] sandbox::first_passthrough_rule(old_rules, kind, pattern@, k)
                &&& rules == old_rules.remove(k)
            };
        if 0 <= i < old_rules.len() && old_rules[i].key() == (pattern@, kind) && forall|j: int|
            0 <= j < i ==> !((#[trigger] old_rules[j]).kind == kind && old_rules[j].pattern@
                == pattern@) {
            if k < i {
                assert(old_rules[k].kind == kind);
            }
            assert(k == i);
            assert(rules =~= old_rules.take(i) + old_rules.skip(i + 1));
        }
        assert(old_rules[k].kind == kind);
    } else if 0 <= i < old_rules.len() {
        assert(old_rules[i].key() != (pattern@, kind));
    }
}

/// A listing of rules shows the rules of the kinds that are asked for, and those
/// of all kinds where none is asked for.
pub proof fn lemma_listing_shows_the_kinds(
    registry: RegistryView,
    step: Step,
    name: String,
    include_read: bool,
    include_write: bool,
    include_metadata: bool,
    include_xattr: bool,
    rule: ProtectionRule,
)
    requires
        registry.sandboxes.contains_key(name@),
        dispatch::handles(
            registry,
            registry,
            (Request::ListProtection {
                name,
                include_read,
                include_write,
                include_metadata,
                include_xattr,
            }),
            step,
        ),
    ensures
        step is Reply,
        step->Reply_result is Ok,
        step->Reply_result->Ok_0 is ProtectionRules,
        ({
            let shown = step->Reply_result->Ok_0->ProtectionRules_items@;
            let any = include_read || include_write || include_metadata || include_xattr;
            shown.contains(rule) <==> {
                &&& registry.sandboxes[name@].protection_rules.contains(rule)
                &&& any && rule.kind is Read ==> include_read
                &&& any && rule.kind is Write ==> include_write
                &&& any && rule.kind is Metadata ==> include_metadata
                &&& any && rule.kind is Xattr ==> include_xattr
            }
        }),
{
    broadcast use vstd::seq_lib::group_to_multiset_ensures;

    let shown = step->Reply_result->Ok_0->ProtectionRules_items@;
    let rules = registry.sandboxes[name@].protection_rules;
    let pred = |rule: ProtectionRule|
        sandbox::shown(include_read, include_write, include_metadata, include_xattr, rule.kind);
    let kept = rules.filter(pred);
    assert(shown.to_multiset() == kept.to_multiset());
    assert(shown.contains(rule) <==> shown.to_multiset().count(rule) > 0);
    assert(kept.contains(rule) <==> kept.to_multiset().count(rule) > 0);
    if rules.contains(rule) && pred(rule) {
        let i = choose|i: int| 0 <= i < rules.len() && rules[i] == rule;
        rules.lemma_filter_contains(pred, i);
    }
    if kept.contains(rule) {
        rules.lemma_filter_contains_rev(pred, rule);
        lemma_filtered_holds(rules, pred, rule);
    }
}

/// What is left of a list by a test passes the test.
pub proof fn lemma_filtered_holds<A>(s: Seq<A>, pred: spec_fn(A) -> bool, x: A)
    requires
        s.filter(pred).contains(x),
    ensures
        pred(x),
    decreases s.len(),
{
    reveal(Seq::filter);
    if s.len() > 0 {
        let front = s.drop_last();
        if front.filter(pred).contains(x) {
            lemma_filtered_holds(front, pred, x);
        } else if pred(s.last()) {
            crate::table::lemma_push_contains(front.filter(pred), s.last());
            assert(s.filter(pred) == front.filter(pred).push(s.last()));
        }
    }
}

/// Hiding a path and taking a mount away are done in the sandbox that is named,
/// and in no other.
pub proof fn lemma_hiding_stays_in_the_sandbox(
    before: RegistryView,
    after: RegistryView,
    request: Request,
    step: Step,
    name: String,
    on_fs: SandboxPath,
    other: Seq<char>,
)
    requires
        before.sandboxes.contains_key(name@),
        before.next_id < u64::MAX,
        before.sandboxes[name@].next_order() < u64::MAX,
        request == (Request::Hide { name, on_fs }) || request == (Request::Umount { name, on_fs }),
        dispatch::handles(before, after, request, step),
    ensures
        step is Finish,
        after == (RegistryView {
            sandboxes: after.sandboxes,
            next_id: (before.next_id + 1) as u64,
            ..before
        }),
        after.sandboxes.dom() == before.sandboxes.dom(),
        other != name@ && before.sandboxes.contains_key(other) ==> after.sandboxes[other]
            == before.sandboxes[other],
        request is Hide ==> step->Finish_result is Ok && after.sandboxes[name@].hides.len()
            == before.sandboxes[name@].hides.len() + 1 && after.sandboxes[name@].hides.last().path
            == on_fs && after.sandboxes[name@].layers == before.sandboxes[name@].layers,
        request is Umount ==> (step->Finish_result is Ok <==> exists|i: int|
            0 <= i < before.sandboxes[name@].layers.len() && (
            #[trigger] before.sandboxes[name@].layers[i]).on_fs@ == on_fs@),
        request is Umount && step->Finish_result is Err ==> after.sandboxes == before.sandboxes,
        request is Umount && step->Finish_result is Ok ==> after.sandboxes[name@].layers.len() + 1
            == before.sandboxes[name@].layers.len() && after.sandboxes[name@].hides
            == before.sandboxes[name@].hides,
{
    lemma_last_mount(before.sandboxes[name@].layers, on_fs@);
    assert(after.sandboxes.dom() =~= before.sandboxes.dom());
}

proof fn lemma_last_mount(layers: Seq<crate::sandbox::MountLayer>, at: Seq<Seq<char>>)
    ensures
        match sandbox::last_mount_on(layers, at) {
            Some(k) => 0 <= k < layers.len() && layers[k].on_fs@ == at,
            None => forall|i: int| 0 <= i < layers.len() ==> (#[trigger] layers[i]).on_fs@ != at,
        },
    decreases layers.len(),
{
    if layers.len() > 0 {
        let front = layers.drop_last();
        lemma_last_mount(front, at);
        assert forall|i: int| 0 <= i < front.len() implies front[i] == layers[i] by {}
        assert(layers[layers.len() - 1] == layers.last());
    }
}

/// Naming the process of a trusted operation names it for that operation alone,
/// and changes nothing else of it.
pub proof fn lemma_naming_a_process(
    before: RegistryView,
    after: RegistryView,
    step: Step,
    token: String,
    pid: u32,
    uid: u32,
    other: Seq<char>,
)
    requires
        dispatch::handles(
            before,
            after,
            (Request::RegisterTrustedPid { token, pid, uid }),
            step,
        ),
    ensures
        step is Reply,
        step->Reply_result is Ok <==> before.trusted.contains_key(token@),
        !before.trusted.contains_key(token@) ==> after == before,
        before.trusted.contains_key(token@) ==> {
            &&& after.trusted.dom() == before.trusted.dom()
            &&& after.trusted[token@].pid == Some(pid)
            &&& after.trusted[token@].uid == Some(uid)
            &&& after.trusted[token@].paths == before.trusted[token@].paths
            &&& after.trusted[token@].sandbox == before.trusted[token@].sandbox
            &&& after.trusted[token@].id == before.trusted[token@].id
            &&& other != token@ && before.trusted.contains_key(other) ==> after.trusted[other]
                == before.trusted[other]
            &&& after == (RegistryView { trusted: after.trusted, ..before })
        },
{
    if before.trusted.contains_key(token@) {
        assert(after.trusted.dom() =~= before.trusted.dom());
    }
}

/// A request whose sandbox is gone can still be decided away: the decision fails,
/// but the request does not wait any longer.
pub proof fn lemma_leftover_requests_can_be_decided(
    before: RegistryView,
    after: RegistryView,
    request: Request,
    step: Step,
    name: String,
    id: u64,
    do_nothing: bool,
)
    requires
        before.listable(),
        !before.sandboxes.contains_key(name@),
        before.pending.contains_key(id) && before.pending[id].sandbox == name@
            || before.pending_read_write.contains_key(id) && before.pending_read_write[id].sandbox
            == name@,
        request == (Request::Deny { name, id }) || request == (Request::Cancel { name, id })
            || request == (Request::Allow { name, id, do_nothing, grant: None }),
        dispatch::handles(before, after, request, step),
    ensures
        step is Finish,
        step->Finish_result is Err,
        after.pending == before.pending.remove(id),
        after.pending_read_write == before.pending_read_write.remove(id),
        after.sandboxes == before.sandboxes,
        after.grants == before.grants,
{
    assert(after.pending =~= before.pending.remove(id));
    assert(after.pending_read_write =~= before.pending_read_write.remove(id));
}

} // verus!
