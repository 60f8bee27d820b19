//! Whom grants are for, what they let pass and how long, and what they release.

use vstd::prelude::*;

use crate::error::Error;
use crate::grant;
use crate::grant::GrantView;
use crate::grant::ReadWriteGrantLifetimeRequest;
use crate::grant::ReadWriteGrantOptions;
use crate::grant::SubjectView;
use crate::grant_allow;
use crate::grant_allow::GrantEvidence;
use crate::grant_allow::Release;
use crate::path::SandboxPath;
use crate::pending::PendingDecision;
use crate::pending::ReadWriteRequestView;
use crate::policy;
use crate::policy::PatternView;
use crate::policy::ProtectionKind;
use crate::process_info::ProcessIdentityEvidence;
use crate::registry::RegistryView;
use crate::session::Notice;
use crate::session::Outcome;
use crate::time::Timestamp;

verus! {

/// What a grant covers is in its sandbox, of its kind, on a path that its pattern
/// selects and before its end, and is done by the process that it names or one
/// of the processes that it lists; and all of that is covered.
pub proof fn lemma_grant_covers_just_its_own(
    grant: GrantView,
    sandbox: Seq<char>,
    kind: ProtectionKind,
    path: SandboxPath,
    identity: Option<ProcessIdentityEvidence>,
    now: Timestamp,
)
    ensures
        grant.covers(sandbox, kind, path, identity, now) <==> {
            &&& grant.sandbox == sandbox
            &&& grant.kind == kind
            &&& policy::selects(
                PatternView { text: grant.path_pattern.text(), directory_only: false },
                path.text(),
                false,
            )
            &&& identity is Some
            &&& grant.subject is Exact ==> grant.subject->Exact_0 == identity->0
            &&& grant.subject is ProcessTree ==> exists|i: int|
                0 <= i < grant.subject->ProcessTree_0.len() && #[trigger] grant.subject->ProcessTree_0[i]
                    == identity->0
            &&& grant.lifetime is Duration ==> (if now.secs < 0 {
                0
            } else {
                now.secs * 1000 + now.nanos / 1_000_000
            }) < grant.lifetime->expires_at_epoch_ms
        },
{
}

/// A grant for nobody lets nobody pass, and any other lets somebody pass.
pub proof fn lemma_empty_subjects(subject: SubjectView)
    ensures
        subject.size() == 0 <==> forall|identity: ProcessIdentityEvidence|
            !#[trigger] subject.admits(Some(identity)),
        subject is Exact ==> subject.size() == 1,
        subject is ProcessTree ==> subject.size() == subject->ProcessTree_0.len(),
        !subject.admits(None),
{
    match subject {
        SubjectView::Exact(identity) => {
            assert(subject.admits(Some(identity)));
        },
        SubjectView::ProcessTree(identities) => {
            if identities.len() > 0 {
                assert(identities.contains(identities[0]));
                assert(subject.admits(Some(identities[0])));
            }
        },
    }
}

/// A grant for a time is over from its number of seconds after it was given, to
/// the millisecond; one whose end no clock reaches never is, and neither is one
/// for a single use.
pub proof fn lemma_grant_lasts_its_time(seconds: u64, given: Timestamp, now: Timestamp)
    requires
        given.nanos < 1_000_000_000,
    ensures
        !grant_allow::lifetime_of(ReadWriteGrantLifetimeRequest::OneShot, given).over(now),
        grant_allow::lifetime_of(ReadWriteGrantLifetimeRequest::OneShot, given) is OneShot,
        given.secs >= 0 && now.secs >= 0 && given.secs + seconds <= i64::MAX ==> (
        grant_allow::lifetime_of(
            ReadWriteGrantLifetimeRequest::Duration { seconds },
            given,
        ).over(now) <==> now.secs * 1000 + now.nanos / 1_000_000 >= given.secs * 1000 + given.nanos
            / 1_000_000 + seconds * 1000),
        given.secs + seconds > i64::MAX ==> !grant_allow::lifetime_of(
            ReadWriteGrantLifetimeRequest::Duration { seconds },
            given,
        ).over(now),
{
}

proof fn lemma_identity_with_pid(identities: Seq<ProcessIdentityEvidence>, pid: u32)
    ensures
        match grant_allow::identity_with_pid(identities, pid) {
            Some(identity) => identity.pid == pid && identities.contains(identity),
            None => forall|i: int|
                0 <= i < identities.len() ==> (#[trigger] identities[i]).pid != pid,
        },
    decreases identities.len(),
{
    if identities.len() > 0 {
        let front = identities.drop_last();
        lemma_identity_with_pid(front, pid);
        assert forall|i: int| 0 <= i < front.len() implies front[i] == identities[i] by {}
        assert(identities[identities.len() - 1] == identities.last());
    }
}

/// The process in a list with a number is the first one that has it.
pub proof fn lemma_first_with_pid(identities: Seq<ProcessIdentityEvidence>, i: int)
    requires
        0 <= i < identities.len(),
        forall|j: int| 0 <= j < i ==> (#[trigger] identities[j]).pid != identities[i].pid,
    ensures
        grant_allow::identity_with_pid(identities, identities[i].pid) == Some(identities[i]),
    decreases identities.len(),
{
    let pid = identities[i].pid;
    let front = identities.drop_last();
    assert forall|j: int| 0 <= j < front.len() implies front[j] == identities[j] by {}
    if i < front.len() {
        lemma_first_with_pid(front, i);
    } else {
        lemma_identity_with_pid(front, pid);
        if grant_allow::identity_with_pid(front, pid) is Some {
            let found = grant_allow::identity_with_pid(front, pid)->0;
            let k = choose|k: int| 0 <= k < front.len() && front[k] == found;
            assert(identities[k].pid == pid);
        }
    }
}

/// A grant that is not asked for a process tree is for the requester alone: the
/// process that made the request, or where that was not told, the one that has
/// its number now. Where neither is known there is no grant, and a warning.
pub proof fn lemma_exact_grant_is_for_the_requester(
    own: Option<ProcessIdentityEvidence>,
    pid: u32,
    tree: Option<Seq<ProcessIdentityEvidence>>,
    looked_up: Option<ProcessIdentityEvidence>,
)
    ensures
        ({
            let chosen = grant_allow::choice(own, pid, false, tree, looked_up);
            &&& own is Some ==> chosen.subject == Some(SubjectView::Exact(own->0))
                && chosen.identity == own && chosen.warning is None
            &&& own is None && looked_up is Some ==> chosen.subject == Some(
                SubjectView::Exact(looked_up->0),
            ) && chosen.identity == looked_up && chosen.warning is None
            &&& own is None && looked_up is None ==> chosen.subject is None
                && chosen.identity is None && chosen.warning is Some
        }),
{
}

/// A grant that is asked for a process tree is for the processes of the tree
/// where the tree holds the requester. Else it is for the requester alone as
/// far as that is known, and a warning says so.
pub proof fn lemma_tree_grant_holds_the_requester(
    own: Option<ProcessIdentityEvidence>,
    pid: u32,
    tree: Option<Seq<ProcessIdentityEvidence>>,
    looked_up: Option<ProcessIdentityEvidence>,
)
    ensures
        ({
            let chosen = grant_allow::choice(own, pid, true, tree, looked_up);
            let holds = tree is Some && exists|i: int|
                0 <= i < tree->0.len() && if own is Some {
                    #[trigger] tree->0[i] == own->0
                } else {
                    tree->0[i].pid == pid
                };
            &&& holds ==> {
                &&& chosen.subject == Some(SubjectView::ProcessTree(tree->0))
                &&& chosen.identity is Some
                &&& tree->0.contains(chosen.identity->0)
                &&& own is Some ==> chosen.identity == own
                &&& own is None ==> chosen.identity->0.pid == pid
                &&& chosen.warning is None
            }
            &&& !holds ==> {
                &&& own is Some ==> chosen.subject == Some(SubjectView::Exact(own->0))
                &&& own is None && looked_up is Some ==> chosen.subject == Some(
                    SubjectView::Exact(looked_up->0),
                )
                &&& own is None && looked_up is None ==> chosen.subject is None
                &&& chosen.identity == (if own is Some {
                    own
                } else {
                    looked_up
                })
                &&& chosen.warning is Some
            }
        }),
{
    if tree is Some {
        lemma_identity_with_pid(tree->0, pid);
        if own is Some && tree->0.contains(own->0) {
            let i = choose|i: int| 0 <= i < tree->0.len() && tree->0[i] == own->0;
            assert(tree->0[i] == own->0);
        }
        if own is None && grant_allow::identity_with_pid(tree->0, pid) is Some {
            let found = grant_allow::identity_with_pid(tree->0, pid)->0;
            let i = choose|i: int| 0 <= i < tree->0.len() && tree->0[i] == found;
            assert(tree->0[i].pid == pid);
        }
    }
}

/// The grant that is given covers the request that it was given for, from the
/// moment on that it is given, and has a number that nothing had before. It is
/// for the path of the request where no other pattern is named.
pub proof fn lemma_given_grant_covers_its_request(
    before: RegistryView,
    name: Seq<char>,
    id: u64,
    options: ReadWriteGrantOptions,
    tree: Option<Seq<ProcessIdentityEvidence>>,
    looked_up: Option<ProcessIdentityEvidence>,
    now: Timestamp,
)
    requires
        before.pending_read_write.contains_key(id),
        before.pending_read_write[id].sandbox == name,
        before.next_id < u64::MAX,
        now.secs >= 0,
        now.nanos < 1_000_000_000,
        options.lifetime is Duration ==> options.lifetime->seconds > 0,
        options.path is None ==> grant::pattern_covers(
            before.pending_read_write[id].path,
            before.pending_read_write[id].path,
        ),
        options.path is Some ==> grant::pattern_covers(
            options.path->0,
            before.pending_read_write[id].path,
        ),
        grant_allow::choice(
            before.pending_read_write[id].process_identity,
            before.pending_read_write[id].pid,
            options.tree,
            tree,
            looked_up,
        ).subject is Some,
    ensures
        ({
            let request = before.pending_read_write[id];
            let chosen = grant_allow::choice(
                request.process_identity,
                request.pid,
                options.tree,
                tree,
                looked_up,
            );
            let given = grant_allow::given_grant(
                before,
                name,
                id,
                options,
                chosen.subject->0,
                now,
            );
            &&& given.covers(name, request.kind, request.path, chosen.identity, now)
            &&& given.id == before.next_id + 1
            &&& given.created_at_epoch_ms == now.secs * 1000 + now.nanos / 1_000_000
            &&& options.path is None ==> given.path_pattern == request.path
            &&& options.path is Some ==> given.path_pattern == options.path->0
            &&& options.lifetime is OneShot <==> given.lifetime is OneShot
        }),
{
    let request = before.pending_read_write[id];
    if options.tree {
        lemma_tree_grant_holds_the_requester(
            request.process_identity,
            request.pid,
            tree,
            looked_up,
        );
    } else {
        lemma_exact_grant_is_for_the_requester(
            request.process_identity,
            request.pid,
            tree,
            looked_up,
        );
    }
}

proof fn lemma_woken_among(waiters: Set<u64>, ids: Seq<u64>, notice: Notice)
    ensures
        grant_allow::woken_among(waiters, ids).contains(notice) <==> ids.contains(notice.id)
            && waiters.contains(notice.id) && notice.decision is Apply,
    decreases ids.len(),
{
    let all = grant_allow::woken_among(waiters, ids);
    if ids.len() > 0 {
        let front = ids.drop_last();
        let rest = grant_allow::woken_among(waiters, front);
        let last = ids.last();
        lemma_woken_among(waiters, front, notice);
        assert(ids =~= front.push(last));
        crate::table::lemma_push_contains(front, last);
        let own = Notice { id: last, decision: PendingDecision::Apply };
        if waiters.contains(last) {
            assert(all =~= rest.push(own));
            crate::table::lemma_push_contains(rest, own);
        } else {
            assert(all =~= rest);
        }
    }
}

/// A grant for a time that covers the request it was given for lets that request
/// and every other pending read and write that it covers go on, wakes those who
/// wait for them, and leaves all others pending. The grant stays.
pub proof fn lemma_lasting_grant_releases_what_it_covers(
    before: RegistryView,
    after: RegistryView,
    id: u64,
    given: GrantView,
    identity: Option<ProcessIdentityEvidence>,
    now: Timestamp,
    release: Release,
    other: u64,
)
    requires
        before.listable(),
        before.pending_read_write.contains_key(id),
        before.next_id + 3 <= u64::MAX,
        given.lifetime is Duration,
        given.covers(
            before.pending_read_write[id].sandbox,
            before.pending_read_write[id].kind,
            before.pending_read_write[id].path,
            identity,
            now,
        ),
        grant_allow::grant_releases(before, after, id, given, identity, now, release),
    ensures
        after.grants == before.grants.insert(given.id, given),
        after.pending == before.pending,
        after.sandboxes == before.sandboxes,
        after.trusted == before.trusted,
        ({
            let request = before.pending_read_write[other];
            let goes = before.pending_read_write.contains_key(other) && (other == id
                || given.covers(
                request.sandbox,
                request.kind,
                request.path,
                request.process_identity,
                now,
            ));
            let told = Notice { id: other, decision: PendingDecision::Apply };
            &&& after.pending_read_write.contains_key(other) <==> before.pending_read_write.contains_key(
                other,
            ) && !goes
            &&& after.pending_read_write.contains_key(other) ==> after.pending_read_write[other]
                == request
            &&& after.waiters.contains(other) <==> before.waiters.contains(other) && !goes
            &&& release.notices@.contains(told) <==> before.waiters.contains(other) && goes
        }),
        forall|notice: Notice| #[trigger]
            release.notices@.contains(notice) ==> notice.decision is Apply,
{
    let ready = RegistryView { next_id: (before.next_id + 3) as u64, ..before.settled(id) };
    let selected = ReadWriteRequestView {
        process_identity: identity,
        ..before.pending_read_write[id]
    };
    let waited = before.waiters.contains(id);
    assert(!before.pending.contains_key(id));
    assert(given.covers_request(selected, now));
    let ids = choose|ids: Seq<u64>|
        {
            let rest = ready.without_all(ids);
            let granted = RegistryView { grants: rest.grants.insert(given.id, given), ..rest };
            &&& #[trigger] grant_allow::are_covered(ready, given, now, ids)
            &&& after == granted
            &&& release.notices@ == grant_allow::woken_if(waited, selected.id)
                + grant_allow::woken_among(ready.waiters, ids)
        };
    let first = grant_allow::woken_if(waited, selected.id);
    let rest = grant_allow::woken_among(ready.waiters, ids);
    assert(after.pending =~= before.pending) by {
        assert forall|x: u64| before.pending.contains_key(x) implies !ids.contains(x) by {
            if ids.contains(x) {
                assert(before.pending_read_write.contains_key(x));
            }
        }
    }
    assert(ids.contains(other) <==> ready.pending_read_write.contains_key(other)
        && given.covers_request(ready.pending_read_write[other], now));
    assert forall|notice: Notice| #[trigger] release.notices@.contains(notice) <==> first.contains(
        notice,
    ) || rest.contains(notice) by {
        if first.contains(notice) {
            let k = choose|k: int| 0 <= k < first.len() && first[k] == notice;
            assert((first + rest)[k] == notice);
        }
        if rest.contains(notice) {
            let k = choose|k: int| 0 <= k < rest.len() && rest[k] == notice;
            assert((first + rest)[first.len() + k] == notice);
        }
    }
    assert forall|notice: Notice| #[trigger] release.notices@.contains(notice) implies
        notice.decision is Apply by {
        lemma_woken_among(ready.waiters, ids, notice);
    }
    let told = Notice { id: other, decision: PendingDecision::Apply };
    lemma_woken_among(ready.waiters, ids, told);
    assert(first.contains(told) <==> waited && other == selected.id) by {
        if waited {
            assert(first[0] == Notice { id: selected.id, decision: PendingDecision::Apply });
        }
    }
}

/// A grant for a single use that covers the request it was given for lets just
/// one pending read or write go on: the one with the lowest number among those
/// that it covers. It wakes the one who waits for that, and is used up.
pub proof fn lemma_single_use_grant_releases_one(
    before: RegistryView,
    after: RegistryView,
    id: u64,
    given: GrantView,
    identity: Option<ProcessIdentityEvidence>,
    now: Timestamp,
    release: Release,
) -> (gone: u64)
    requires
        before.listable(),
        before.pending_read_write.contains_key(id),
        before.next_id + 4 <= u64::MAX,
        given.lifetime is OneShot,
        given.covers(
            before.pending_read_write[id].sandbox,
            before.pending_read_write[id].kind,
            before.pending_read_write[id].path,
            identity,
            now,
        ),
        grant_allow::grant_releases(before, after, id, given, identity, now, release),
    ensures
        after.grants == before.grants,
        after.pending == before.pending,
        after.sandboxes == before.sandboxes,
        after.trusted == before.trusted,
        before.pending_read_write.contains_key(gone),
        gone <= id,
        forall|other: u64| #[trigger]
            after.pending_read_write.contains_key(other) <==> before.pending_read_write.contains_key(
                other,
            ) && other != gone,
        forall|other: u64| #[trigger]
            after.pending_read_write.contains_key(other) && other != id
                ==> after.pending_read_write[other] == before.pending_read_write[other],
        gone != id ==> given.covers_request(before.pending_read_write[gone], now),
        forall|other: u64| #[trigger]
            before.pending_read_write.contains_key(other) && other != id && given.covers_request(
                before.pending_read_write[other],
                now,
            ) ==> gone <= other,
        after.waiters == before.waiters.remove(gone),
        before.waiters.contains(gone) ==> release.notices@ == seq![
            Notice { id: gone, decision: PendingDecision::Apply },
        ],
        !before.waiters.contains(gone) ==> release.notices@.len() == 0,
{
    let ready = RegistryView { next_id: (before.next_id + 3) as u64, ..before.settled(id) };
    let selected = ReadWriteRequestView {
        process_identity: identity,
        ..before.pending_read_write[id]
    };
    let waited = before.waiters.contains(id);
    assert(!before.pending.contains_key(id));
    assert(given.covers_request(selected, now));
    assert(selected.id == id);
    if grant_allow::is_earliest(ready, given, selected, now, id) {
        assert forall|other: u64| #[trigger]
            before.pending_read_write.contains_key(other) && other != id && given.covers_request(
                before.pending_read_write[other],
                now,
            ) implies id <= other by {
            assert(ready.pending_read_write.contains_key(other));
        }
        id
    } else {
        lemma_some_earliest(ready, given, selected, now);
        let gone = choose|e: u64|
            {
                &&& #[trigger] grant_allow::is_earliest(ready, given, selected, now, e)
                &&& e != selected.id
                &&& after == grant_allow::kept(ready.settled(e).numbered(), selected, waited)
                &&& release.notices@ == grant_allow::woken_if(ready.waiters.contains(e), e)
            };
        assert(ready.pending_read_write.contains_key(gone));
        assert(!before.pending.contains_key(gone));
        assert(after.waiters =~= before.waiters.remove(gone));
        assert forall|other: u64| #[trigger]
            before.pending_read_write.contains_key(other) && other != id && given.covers_request(
                before.pending_read_write[other],
                now,
            ) implies gone <= other by {
            assert(ready.pending_read_write.contains_key(other));
        }
        gone
    }
}

proof fn lemma_some_earliest(
    registry: RegistryView,
    given: GrantView,
    selected: ReadWriteRequestView,
    now: Timestamp,
)
    requires
        given.covers_request(selected, now),
    ensures
        exists|id: u64| grant_allow::is_earliest(registry, given, selected, now, id),
{
    let candidate = |x: u64|
        registry.pending_read_write.contains_key(x) && given.covers_request(
            registry.pending_read_write[x],
            now,
        );
    lemma_least(candidate, selected.id as nat);
    if exists|x: u64| x <= selected.id && #[trigger] candidate(x) {
        let e = choose|e: u64|
            e <= selected.id && #[trigger] candidate(e) && forall|y: u64|
                y < e ==> !#[trigger] candidate(y);
        assert forall|other: u64| #[trigger]
            registry.pending_read_write.contains_key(other) && given.covers_request(
                registry.pending_read_write[other],
                now,
            ) implies e <= other by {
            assert(candidate(other));
        }
        assert(grant_allow::is_earliest(registry, given, selected, now, e));
    } else {
        assert forall|other: u64| #[trigger]
            registry.pending_read_write.contains_key(other) && given.covers_request(
                registry.pending_read_write[other],
                now,
            ) implies selected.id <= other by {
            assert(candidate(other));
        }
        assert(grant_allow::is_earliest(registry, given, selected, now, selected.id));
    }
}

/// Where some number up to a bound has a property, there is a least one.
pub proof fn lemma_least(holds: spec_fn(u64) -> bool, bound: nat)
    ensures
        (exists|x: u64| x <= bound && #[trigger] holds(x)) ==> exists|e: u64|
            e <= bound && #[trigger] holds(e) && forall|y: u64| y < e ==> !#[trigger] holds(y),
    decreases bound,
{
    if exists|x: u64| x <= bound && #[trigger] holds(x) {
        if bound > 0 && exists|x: u64| x <= bound - 1 && #[trigger] holds(x) {
            lemma_least(holds, (bound - 1) as nat);
        } else {
            let x = choose|x: u64| x <= bound && #[trigger] holds(x);
            assert forall|y: u64| y < x implies !#[trigger] holds(y) by {
                if holds(y) {
                    assert(y <= bound - 1);
                }
            }
        }
    }
}

/// When no grant is given: for no time at all, for a change of metadata, for a
/// request of another sandbox, and for a pattern that does not select the path
/// of the request. The request then waits on, and nothing is granted.
pub proof fn lemma_refused_grants(
    before: RegistryView,
    after: RegistryView,
    name: Seq<char>,
    id: u64,
    options: ReadWriteGrantOptions,
    evidence: GrantEvidence,
    result: Result<Outcome, Error>,
)
    requires
        before.next_id < u64::MAX,
        before.sandboxes.contains_key(name),
        grant_allow::allowed_with_grant(before, after, name, id, options, evidence, result),
        (options.lifetime is Duration && options.lifetime->seconds == 0)
            || before.pending.contains_key(id) || !before.pending_read_write.contains_key(id)
            || before.pending_read_write[id].sandbox != name || (options.path is Some
            && !grant::pattern_covers(options.path->0, before.pending_read_write[id].path)),
    ensures
        result is Err,
        after.grants == before.grants,
        after.pending == before.pending,
        after.pending_read_write == before.pending_read_write,
        after.waiters == before.waiters,
        after.sandboxes == before.sandboxes,
{
}

/// Where nobody can be told whom a grant is for, the request alone is let go on,
/// whoever waits for it is told so, no grant is left, and the answer warns.
pub proof fn lemma_unknown_requester_gets_no_grant(
    before: RegistryView,
    after: RegistryView,
    name: Seq<char>,
    id: u64,
    options: ReadWriteGrantOptions,
    evidence: GrantEvidence,
    result: Result<Outcome, Error>,
)
    requires
        before.listable(),
        before.next_id < u64::MAX,
        before.sandboxes.contains_key(name),
        before.pending_read_write.contains_key(id),
        before.pending_read_write[id].sandbox == name,
        before.pending_read_write[id].process_identity is None,
        evidence.identity is None,
        evidence.tree is None || !options.tree,
        options.path is None,
        options.lifetime is Duration ==> options.lifetime->seconds > 0,
        grant::pattern_covers(
            before.pending_read_write[id].path,
            before.pending_read_write[id].path,
        ),
        grant_allow::allowed_with_grant(before, after, name, id, options, evidence, result),
    ensures
        result is Ok,
        result->Ok_0.response is Warning,
        after.grants == before.grants,
        after.pending_read_write == before.pending_read_write.remove(id),
        after.waiters == before.waiters.remove(id),
        after.pending == before.pending,
        before.waiters.contains(id) ==> result->Ok_0.notices@ == seq![
            Notice { id, decision: PendingDecision::Apply },
        ],
        !before.waiters.contains(id) ==> result->Ok_0.notices@.len() == 0,
{
    assert(!before.pending.contains_key(id));
}

} // verus!
