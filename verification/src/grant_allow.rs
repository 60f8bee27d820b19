//! Allowing a read or write with a grant for what follows.

use vstd::prelude::*;

use crate::decision;
use crate::error::Error;
use crate::grant;
use crate::grant::GrantView;
use crate::grant::ReadWriteAccessGrant;
use crate::grant::ReadWriteGrantLifetime;
use crate::grant::ReadWriteGrantLifetimeRequest;
use crate::grant::ReadWriteGrantOptions;
use crate::grant::ReadWriteGrantSubject;
use crate::grant::SubjectView;
use crate::ipc::Response;
use crate::metadata;
use crate::pending::PendingDecision;
use crate::pending::PendingReadWriteRequest;
use crate::pending::ReadWriteRequestView;
use crate::process_info::ProcessIdentityEvidence;
use crate::registry::RegistryView;
use crate::registry::SandboxRegistry;
use crate::session;
use crate::session::EventView;
use crate::session::LogEvent;
use crate::session::Notice;
use crate::session::Outcome;
use crate::session::SessionState;
use crate::table;
use crate::text;
use crate::time;
use crate::time::TimeSpan;
use crate::time::Timestamp;

verus! {

broadcast use {vstd::string::group_string_axioms, crate::table::group_shown};

/// What the machine knows when a grant is asked for: the time, the processes
/// below the requester, and the requester itself.
#[derive(Debug)]
pub struct GrantEvidence {
    pub now: Timestamp,
    pub tree: Option<Vec<ProcessIdentityEvidence>>,
    pub identity: Option<ProcessIdentityEvidence>,
}

/// The text with backslashes and quotes escaped.
pub open spec fn escaped(value: Seq<char>) -> Seq<char>
    decreases value.len(),
{
    if value.len() == 0 {
        Seq::empty()
    } else {
        let c = value.last();
        escaped(value.drop_last()) + if c == '\\' {
            "\\\\"@
        } else if c == '"' {
            "\\\""@
        } else {
            seq![c]
        }
    }
}

/// The text in quotes.
pub open spec fn quoted(value: Seq<char>) -> Seq<char> {
    "\""@ + escaped(value) + "\""@
}

/// The text in quotes.
pub fn quote_log_value(value: &str) -> (text: String)
    ensures
        text@ == quoted(value@),
{
    let chars = text::chars_of(value);
    let mut body = String::new();
    for i in 0..chars.len()
        invariant
            chars@ == value@,
            body@ == escaped(value@.take(i as int)),
    {
        let ghost before = body@;
        proof {
            assert(value@.take(i + 1).drop_last() =~= value@.take(i as int));
            assert(value@.subrange(i as int, i + 1) =~= seq![value@[i as int]]);
        }
        if chars[i] == '\\' {
            body.append("\\\\");
        } else if chars[i] == '"' {
            body.append("\\\"");
        } else {
            body.append(value.substring_char(i, i + 1));
        }
    }
    assert(value@.take(chars.len() as int) =~= value@);
    let mut text = "\"".to_owned();
    text.append(body.as_str());
    text.append("\"");
    text
}

/// The first identity of the process in a list.
pub open spec fn identity_with_pid(identities: Seq<ProcessIdentityEvidence>, pid: u32) -> Option<
    ProcessIdentityEvidence,
>
    decreases identities.len(),
{
    if identities.len() == 0 {
        None
    } else if identity_with_pid(identities.drop_last(), pid) is Some {
        identity_with_pid(identities.drop_last(), pid)
    } else if identities.last().pid == pid {
        Some(identities.last())
    } else {
        None
    }
}

fn find_pid(identities: &Vec<ProcessIdentityEvidence>, pid: u32) -> (found: Option<
    ProcessIdentityEvidence,
>)
    ensures
        found == identity_with_pid(identities@, pid),
{
    let mut found: Option<ProcessIdentityEvidence> = None;
    for i in 0..identities.len()
        invariant
            found == identity_with_pid(identities@.take(i as int), pid),
    {
        assert(identities@.take(i + 1).drop_last() =~= identities@.take(i as int));
        if found.is_none() && identities[i].pid == pid {
            found = Some(identities[i]);
        }
    }
    assert(identities@.take(identities.len() as int) =~= identities@);
    found
}

/// What was chosen for a grant: whom it is for, if anyone can be told, who the
/// requester is, and what to warn about.
#[verifier::ext_equal]
pub struct ChoiceView {
    pub subject: Option<SubjectView>,
    pub identity: Option<ProcessIdentityEvidence>,
    pub warning: Option<Seq<char>>,
}

/// The warning about a process tree that cannot be told.
pub open spec fn tree_warning(pid: u32) -> Seq<char> {
    "process tree unavailable for pid "@ + text::decimal(pid as nat)
        + "; using exact requester grant"@
}

/// The warning about a requester that cannot be told.
pub open spec fn identity_warning(pid: u32) -> Seq<char> {
    "requester identity unavailable for pid "@ + text::decimal(pid as nat)
        + "; released current request without creating grant"@
}

/// The choice for the requester alone.
pub open spec fn exact_choice(
    identity: Option<ProcessIdentityEvidence>,
    pid: u32,
    warning: Option<Seq<char>>,
) -> ChoiceView {
    match identity {
        Some(identity) => ChoiceView {
            subject: Some(SubjectView::Exact(identity)),
            identity: Some(identity),
            warning,
        },
        None => ChoiceView {
            subject: None,
            identity: None,
            warning: Some(identity_warning(pid)),
        },
    }
}

/// Whom a grant is for. `own` is the identity that the request was made with,
/// `looked_up` the one that the process has now. A tree is used where it is
/// asked for, known, and holds the requester; else the requester alone.
pub open spec fn choice(
    own: Option<ProcessIdentityEvidence>,
    pid: u32,
    want_tree: bool,
    tree: Option<Seq<ProcessIdentityEvidence>>,
    looked_up: Option<ProcessIdentityEvidence>,
) -> ChoiceView {
    let exact = metadata::newer(own, looked_up);
    if !want_tree {
        exact_choice(exact, pid, None)
    } else if tree is None || tree->0.len() == 0 {
        exact_choice(exact, pid, Some(tree_warning(pid)))
    } else {
        match metadata::newer(own, identity_with_pid(tree->0, pid)) {
            Some(identity) => if tree->0.contains(identity) {
                ChoiceView {
                    subject: Some(SubjectView::ProcessTree(tree->0)),
                    identity: Some(identity),
                    warning: None,
                }
            } else {
                exact_choice(Some(identity), pid, Some(tree_warning(pid)))
            },
            None => exact_choice(exact, pid, Some(tree_warning(pid))),
        }
    }
}

/// Whom a grant is for.
#[derive(Debug)]
pub struct SubjectChoice {
    pub subject: Option<ReadWriteGrantSubject>,
    pub identity: Option<ProcessIdentityEvidence>,
    pub warning: Option<String>,
}

impl View for SubjectChoice {
    type V = ChoiceView;

    open spec fn view(&self) -> ChoiceView {
        ChoiceView {
            subject: match self.subject {
                Some(subject) => Some(subject@),
                None => None,
            },
            identity: self.identity,
            warning: match self.warning {
                Some(warning) => Some(warning@),
                None => None,
            },
        }
    }
}

fn choose_exact(
    identity: Option<ProcessIdentityEvidence>,
    pid: u32,
    warning: Option<String>,
) -> (chosen: SubjectChoice)
    ensures
        chosen@ == exact_choice(
            identity,
            pid,
            match warning {
                Some(warning) => Some(warning@),
                None => None,
            },
        ),
{
    match identity {
        Some(identity) => SubjectChoice {
            subject: Some(ReadWriteGrantSubject::Exact { identity }),
            identity: Some(identity),
            warning,
        },
        None => {
            let mut text = "requester identity unavailable for pid ".to_owned();
            text.append(text::decimal_of(pid as u64).as_str());
            text.append("; released current request without creating grant");
            SubjectChoice { subject: None, identity: None, warning: Some(text) }
        },
    }
}

fn format_tree_warning(pid: u32) -> (text: String)
    ensures
        text@ == tree_warning(pid),
{
    let mut text = "process tree unavailable for pid ".to_owned();
    text.append(text::decimal_of(pid as u64).as_str());
    text.append("; using exact requester grant");
    text
}

/// Decides whom a grant is for.
pub fn choose_subject(
    own: Option<ProcessIdentityEvidence>,
    pid: u32,
    want_tree: bool,
    tree: Option<Vec<ProcessIdentityEvidence>>,
    looked_up: Option<ProcessIdentityEvidence>,
) -> (chosen: SubjectChoice)
    ensures
        chosen@ == choice(
            own,
            pid,
            want_tree,
            match tree {
                Some(tree) => Some(tree@),
                None => None,
            },
            looked_up,
        ),
{
    let exact = match own {
        Some(identity) => Some(identity),
        None => looked_up,
    };
    if !want_tree {
        return choose_exact(exact, pid, None);
    }
    let identities = match tree {
        Some(identities) => identities,
        None => {
            return choose_exact(exact, pid, Some(format_tree_warning(pid)));
        },
    };
    if identities.len() == 0 {
        return choose_exact(exact, pid, Some(format_tree_warning(pid)));
    }
    let requester = match own {
        Some(identity) => Some(identity),
        None => find_pid(&identities, pid),
    };
    match requester {
        Some(identity) => {
            if grant::holds_identity(&identities, identity) {
                SubjectChoice {
                    subject: Some(ReadWriteGrantSubject::ProcessTree { identities }),
                    identity: Some(identity),
                    warning: None,
                }
            } else {
                choose_exact(Some(identity), pid, Some(format_tree_warning(pid)))
            }
        },
        None => choose_exact(exact, pid, Some(format_tree_warning(pid))),
    }
}

/// How the creation of a grant reads in a log line.
pub open spec fn created_body(grant: GrantView) -> Seq<char> {
    let body = "grant-created grant="@ + text::decimal(grant.id as nat) + " kind="@ + grant.kind.name()
        + " path="@ + grant.path_pattern.text() + " subject="@ + grant.subject.name()
        + " subject_count="@ + text::decimal(grant.subject.size()) + " lifetime="@
        + grant.lifetime.name();
    match grant.lifetime {
        ReadWriteGrantLifetime::OneShot => body,
        ReadWriteGrantLifetime::Duration { expires_at_epoch_ms } => body + " expires_at_epoch_ms="@
            + text::decimal(expires_at_epoch_ms as nat),
    }
}

/// How the use of a grant for one use reads in a log line.
pub open spec fn consumed_body(grant_id: u64) -> Seq<char> {
    "grant-consumed grant="@ + text::decimal(grant_id as nat) + " lifetime=one-shot"@
}

/// How the release of another request reads in a log line.
pub open spec fn release_body(id: u64, attach_id: Option<u64>, decided: u64) -> Seq<char> {
    "grant-release request="@ + text::decimal(id as nat) + session::attach_field(attach_id)
        + " decision="@ + text::decimal(decided as nat)
}

pub fn format_grant_created_body(grant: &ReadWriteAccessGrant) -> (body: String)
    ensures
        body@ == created_body(grant@),
{
    let mut body = "grant-created grant=".to_owned();
    body.append(text::decimal_of(grant.id).as_str());
    body.append(" kind=");
    body.append(grant.kind.log_name());
    body.append(" path=");
    body.append(grant.path_pattern.as_str());
    body.append(" subject=");
    body.append(grant.subject.log_name());
    body.append(" subject_count=");
    body.append(text::digits_of(grant.subject.len() as u128, 10).as_str());
    body.append(" lifetime=");
    body.append(grant.lifetime.log_name());
    if let ReadWriteGrantLifetime::Duration { expires_at_epoch_ms } = grant.lifetime {
        body.append(" expires_at_epoch_ms=");
        body.append(text::digits_of(expires_at_epoch_ms, 10).as_str());
    }
    body
}

pub fn format_grant_consumed_body(grant_id: u64) -> (body: String)
    ensures
        body@ == consumed_body(grant_id),
{
    let mut body = "grant-consumed grant=".to_owned();
    body.append(text::decimal_of(grant_id).as_str());
    body.append(" lifetime=one-shot");
    body
}

fn format_release_body(id: u64, attach_id: Option<u64>, decided: u64) -> (body: String)
    ensures
        body@ == release_body(id, attach_id, decided),
{
    let mut body = "grant-release request=".to_owned();
    body.append(text::decimal_of(id).as_str());
    body.append(session::format_attach_field(attach_id).as_str());
    body.append(" decision=");
    body.append(text::decimal_of(decided).as_str());
    body
}

/// How the decision to allow with a grant reads in a log line.
pub open spec fn allow_body(id: u64, attach_id: Option<u64>, choice: ChoiceView) -> Seq<char> {
    let plain = decision::decision_body(id, attach_id, "ALLOW"@);
    let marked = if choice.subject is None {
        plain + " downgraded=grantless"@
    } else {
        plain
    };
    match choice.warning {
        Some(warning) => marked + " warning="@ + quoted(warning),
        None => marked,
    }
}

fn format_allow_body(id: u64, attach_id: Option<u64>, chosen: &SubjectChoice) -> (body: String)
    ensures
        body@ == allow_body(id, attach_id, chosen@),
{
    let mut body = decision::format_decision_body(id, attach_id, "ALLOW");
    if chosen.subject.is_none() {
        body.append(" downgraded=grantless");
    }
    if let Some(warning) = &chosen.warning {
        body.append(" warning=");
        body.append(quote_log_value(warning.as_str()).as_str());
    }
    body
}

/// The answer after a grant: a warning where there is one.
pub open spec fn grant_answer(response: Response, choice: ChoiceView) -> bool {
    match choice.warning {
        Some(warning) => response matches Response::Warning { message } && message@ == warning,
        None => response is Done,
    }
}

/// The numbers ascend, and a read or write is pending under each.
pub open spec fn are_pending(registry: RegistryView, ids: Seq<u64>) -> bool {
    &&& forall|i: int, j: int| 0 <= i < j < ids.len() ==> ids[i] < ids[j]
    &&& forall|i: int|
        0 <= i < ids.len() ==> registry.pending_read_write.contains_key(#[trigger] ids[i])
}

/// The numbers of all pending reads and writes that the grant covers, in
/// ascending order.
pub open spec fn are_covered(
    registry: RegistryView,
    grant: GrantView,
    now: Timestamp,
    ids: Seq<u64>,
) -> bool {
    &&& forall|i: int, j: int| 0 <= i < j < ids.len() ==> ids[i] < ids[j]
    &&& forall|id: u64| #[trigger]
        ids.contains(id) <==> registry.pending_read_write.contains_key(id) && grant.covers_request(
            registry.pending_read_write[id],
            now,
        )
}

/// There is a number for a release of every pending read and write and for the
/// events around them.
pub open spec fn room_to_release(registry: RegistryView) -> bool {
    forall|ids: Seq<u64>| #[trigger]
        are_pending(registry, ids) ==> registry.next_id + ids.len() + 5 <= u64::MAX
}

/// When the grant ends.
pub open spec fn lifetime_of(request: ReadWriteGrantLifetimeRequest, now: Timestamp) -> ReadWriteGrantLifetime {
    match request {
        ReadWriteGrantLifetimeRequest::OneShot => ReadWriteGrantLifetime::OneShot,
        ReadWriteGrantLifetimeRequest::Duration { seconds } => ReadWriteGrantLifetime::Duration {
            expires_at_epoch_ms: time::expiry(now, TimeSpan { secs: seconds, nanos: 0 }) as u128,
        },
    }
}

fn choose_lifetime(request: ReadWriteGrantLifetimeRequest, now: Timestamp) -> (lifetime:
    ReadWriteGrantLifetime)
    ensures
        lifetime == lifetime_of(request, now),
{
    match request {
        ReadWriteGrantLifetimeRequest::OneShot => ReadWriteGrantLifetime::OneShot,
        ReadWriteGrantLifetimeRequest::Duration { seconds } => ReadWriteGrantLifetime::Duration {
            expires_at_epoch_ms: time::duration_expires_at(now, TimeSpan::from_secs(seconds)),
        },
    }
}

/// What a grant releases: lines for the log and callers to wake.
#[derive(Debug)]
pub struct Release {
    pub events: Vec<LogEvent>,
    pub notices: Vec<Notice>,
}

impl Release {
    /// What the lines for the log say.
    pub open spec fn events(self) -> Seq<EventView> {
        session::events(self.events@)
    }
}

/// The caller to wake, if it waits.
pub open spec fn woken_if(waited: bool, id: u64) -> Seq<Notice> {
    if waited {
        seq![Notice { id, decision: PendingDecision::Apply }]
    } else {
        Seq::empty()
    }
}

/// The registry with the selected request, and its caller, pending again.
pub open spec fn kept(registry: RegistryView, selected: ReadWriteRequestView, waited: bool) -> RegistryView {
    RegistryView {
        pending_read_write: registry.pending_read_write.insert(selected.id, selected),
        waiters: if waited {
            registry.waiters.insert(selected.id)
        } else {
            registry.waiters
        },
        ..registry
    }
}

/// The request is the earliest of those that the grant covers, the selected one
/// and the other pending ones.
pub open spec fn is_earliest(
    registry: RegistryView,
    grant: GrantView,
    selected: ReadWriteRequestView,
    now: Timestamp,
    id: u64,
) -> bool {
    &&& (id == selected.id && grant.covers_request(selected, now))
        || (registry.pending_read_write.contains_key(id) && grant.covers_request(
        registry.pending_read_write[id],
        now,
    ))
    &&& grant.covers_request(selected, now) ==> id <= selected.id
    &&& forall|other: u64| #[trigger]
        registry.pending_read_write.contains_key(other) && grant.covers_request(
            registry.pending_read_write[other],
            now,
        ) ==> id <= other
}

/// A grant for one use releases the earliest request that it covers, and is
/// used up; where it covers none it stays.
pub open spec fn releases_one(
    before: RegistryView,
    after: RegistryView,
    grant: GrantView,
    event_id: u64,
    selected: ReadWriteRequestView,
    waited: bool,
    now: Timestamp,
    release: Release,
) -> bool {
    let created = (event_id, created_body(grant));
    let n = before.next_id;
    if is_earliest(before, grant, selected, now, selected.id) {
        &&& after == before.numbered()
        &&& release.events() == seq![created, (n, consumed_body(grant.id))]
        &&& release.notices@ == woken_if(waited, selected.id)
    } else if exists|id: u64| is_earliest(before, grant, selected, now, id) {
        exists|id: u64|
            {
                &&& #[trigger] is_earliest(before, grant, selected, now, id)
                &&& id != selected.id
                &&& after == kept(before.settled(id).numbered(), selected, waited)
                &&& release.events() == seq![
                    created,
                    ((n + 1) as u64, consumed_body(grant.id)),
                    (n, release_body(id, before.pending_read_write[id].attach_id, selected.id)),
                ]
                &&& release.notices@ == woken_if(before.waiters.contains(id), id)
            }
    } else {
        &&& after == kept(
            RegistryView { grants: before.grants.insert(grant.id, grant), ..before },
            selected,
            waited,
        )
        &&& release.events() == seq![created]
        &&& release.notices@ == Seq::<Notice>::empty()
    }
}

/// The lines about released requests, numbered from `first` on.
pub open spec fn release_lines(
    registry: RegistryView,
    ids: Seq<u64>,
    first: int,
    decided: u64,
) -> Seq<EventView> {
    Seq::new(
        ids.len(),
        |i: int|
            (
                (first + i) as u64,
                release_body(ids[i], registry.pending_read_write[ids[i]].attach_id, decided),
            ),
    )
}

/// The callers to wake when requests are released.
pub open spec fn woken_among(waiters: Set<u64>, ids: Seq<u64>) -> Seq<Notice>
    decreases ids.len(),
{
    if ids.len() == 0 {
        Seq::empty()
    } else {
        woken_among(waiters, ids.drop_last()) + woken_if(waiters.contains(ids.last()), ids.last())
    }
}

/// A grant for a time releases every request that it covers, and stays.
pub open spec fn releases_all(
    before: RegistryView,
    after: RegistryView,
    grant: GrantView,
    event_id: u64,
    selected: ReadWriteRequestView,
    waited: bool,
    now: Timestamp,
    release: Release,
) -> bool {
    let own = grant.covers_request(selected, now);
    exists|ids: Seq<u64>|
        {
            let rest = before.without_all(ids);
            let granted = RegistryView { grants: rest.grants.insert(grant.id, grant), ..rest };
            &&& #[trigger] are_covered(before, grant, now, ids)
            &&& after == if own {
                granted
            } else {
                kept(granted, selected, waited)
            }
            &&& release.events() == seq![(event_id, created_body(grant))] + release_lines(
                before,
                ids,
                before.next_id as int,
                selected.id,
            )
            &&& release.notices@ == woken_if(own && waited, selected.id) + woken_among(
                before.waiters,
                ids,
            )
        }
}

fn earliest_of(ids: &Vec<u64>, id: u64, own: bool) -> (found: Option<u64>)
    requires
        forall|i: int, j: int| 0 <= i < j < ids.len() ==> ids@[i] < ids@[j],
    ensures
        match found {
            Some(e) => {
                &&& (own && e == id) || ids@.contains(e)
                &&& own ==> e <= id
                &&& forall|x: u64| #[trigger] ids@.contains(x) ==> e <= x
            },
            None => !own && ids.len() == 0,
        },
{
    if ids.len() == 0 {
        if own {
            Some(id)
        } else {
            None
        }
    } else {
        let first = ids[0];
        assert(ids@.contains(first));
        if own && id < first {
            Some(id)
        } else {
            Some(first)
        }
    }
}

fn release_one(
    registry: &mut SandboxRegistry,
    grant: ReadWriteAccessGrant,
    event_id: u64,
    selected: PendingReadWriteRequest,
    waited: bool,
    now: Timestamp,
) -> (release: Release)
    requires
        old(registry)@.cancelable(),
        old(registry)@.request(selected.id) is None,
        old(registry)@.next_id + 1 < u64::MAX,
    ensures
        releases_one(
            old(registry)@,
            final(registry)@,
            grant@,
            event_id,
            selected@,
            waited,
            now,
            release,
        ),
{
    let ghost before = registry@;
    let mut lines: Vec<LogEvent> = Vec::new();
    let mut notices: Vec<Notice> = Vec::new();
    lines.push(LogEvent { id: event_id, body: format_grant_created_body(&grant) });
    let own = grant.matches_request(&selected, now);
    let ids = registry.matching_pending_read_write_ids_for_grant(&grant, now);
    let found = earliest_of(&ids, selected.id, own);
    proof {
        assert forall|other: u64| #[trigger]
            before.pending_read_write.contains_key(other) && grant@.covers_request(
                before.pending_read_write[other],
                now,
            ) implies ids@.contains(other) by {}
    }
    match found {
        Some(id) => {
            assert(is_earliest(before, grant@, selected@, now, id));
            if id == selected.id {
                let consumed_id = registry.next_operation_id();
                lines.push(
                    LogEvent { id: consumed_id, body: format_grant_consumed_body(grant.id) },
                );
                if waited {
                    notices.push(Notice { id, decision: PendingDecision::Apply });
                }
                let release = Release { events: lines, notices };
                assert(release.events() =~= seq![
                    (event_id, created_body(grant@)),
                    (before.next_id, consumed_body(grant.id)),
                ]);
                assert(release.notices@ =~= woken_if(waited, selected.id));
                release
            } else {
                assert(ids@.contains(id));
                assert(!is_earliest(before, grant@, selected@, now, selected.id));
                let mut attach_id: Option<u64> = None;
                if let Some(request) = registry.remove_pending_read_write_request(id) {
                    attach_id = request.attach_id;
                }
                let release_id = registry.next_operation_id();
                let other_waited = registry.pending_waiters.remove(&id);
                let consumed_id = registry.next_operation_id();
                assert(registry@ =~= before.settled(id).numbered());
                lines.push(
                    LogEvent { id: consumed_id, body: format_grant_consumed_body(grant.id) },
                );
                lines.push(
                    LogEvent {
                        id: release_id,
                        body: format_release_body(id, attach_id, selected.id),
                    },
                );
                if other_waited {
                    notices.push(Notice { id, decision: PendingDecision::Apply });
                }
                let selected_id = selected.id;
                registry.insert_pending_read_write_request(selected);
                if waited {
                    let _ = registry.pending_waiters.insert(selected_id);
                }
                let release = Release { events: lines, notices };
                assert(release.events() =~= seq![
                    (event_id, created_body(grant@)),
                    ((before.next_id + 1) as u64, consumed_body(grant.id)),
                    (
                        before.next_id,
                        release_body(id, before.pending_read_write[id].attach_id, selected.id),
                    ),
                ]);
                assert(release.notices@ =~= woken_if(before.waiters.contains(id), id));
                assert(registry@ =~= kept(before.settled(id).numbered(), selected@, waited));
                release
            }
        },
        None => {
            proof {
                assert forall|id: u64| !is_earliest(before, grant@, selected@, now, id) by {
                    if is_earliest(before, grant@, selected@, now, id) {
                        assert(ids@.contains(id));
                    }
                }
            }
            let selected_id = selected.id;
            registry.insert_read_write_grant(grant);
            registry.insert_pending_read_write_request(selected);
            if waited {
                let _ = registry.pending_waiters.insert(selected_id);
            }
            let release = Release { events: lines, notices };
            assert(release.events() =~= seq![(event_id, created_body(grant@))]);
            assert(registry@ =~= kept(
                RegistryView { grants: before.grants.insert(grant.id, grant@), ..before },
                selected@,
                waited,
            ));
            release
        },
    }
}

fn release_all(
    registry: &mut SandboxRegistry,
    grant: ReadWriteAccessGrant,
    event_id: u64,
    selected: PendingReadWriteRequest,
    waited: bool,
    now: Timestamp,
) -> (release: Release)
    requires
        old(registry)@.cancelable(),
        old(registry)@.request(selected.id) is None,
        forall|ids: Seq<u64>| #[trigger]
            are_pending(old(registry)@, ids) ==> old(registry)@.next_id + ids.len() <= u64::MAX,
    ensures
        releases_all(
            old(registry)@,
            final(registry)@,
            grant@,
            event_id,
            selected@,
            waited,
            now,
            release,
        ),
{
    let ghost before = registry@;
    let mut lines: Vec<LogEvent> = Vec::new();
    let mut notices: Vec<Notice> = Vec::new();
    lines.push(LogEvent { id: event_id, body: format_grant_created_body(&grant) });
    let own = grant.matches_request(&selected, now);
    let ids = registry.matching_pending_read_write_ids_for_grant(&grant, now);
    let decided = selected.id;
    if own && waited {
        notices.push(Notice { id: decided, decision: PendingDecision::Apply });
    }
    let ghost head = seq![(event_id, created_body(grant@))];
    let ghost first = woken_if(own && waited, decided);
    proof {
        assert(are_covered(before, grant@, now, ids@));
        assert(are_pending(before, ids@)) by {
            assert forall|i: int| 0 <= i < ids.len() implies before.pending_read_write.contains_key(
                #[trigger] ids@[i],
            ) by {
                assert(ids@.contains(ids@[i]));
            }
        }
        decision::lemma_without_none(before);
        assert(ids@.take(0) =~= Seq::<u64>::empty());
        assert(session::events(lines@) =~= head + release_lines(
            before,
            ids@.take(0),
            before.next_id as int,
            decided,
        ));
        assert(notices@ =~= first + woken_among(before.waiters, ids@.take(0)));
    }
    let mut i: usize = 0;
    while i < ids.len()
        invariant
            i <= ids.len(),
            before.cancelable(),
            are_pending(before, ids@),
            before.next_id + ids.len() <= u64::MAX,
            registry@ == before.without_all(ids@.take(i as int)),
            session::events(lines@) == head + release_lines(
                before,
                ids@.take(i as int),
                before.next_id as int,
                decided,
            ),
            notices@ == first + woken_among(before.waiters, ids@.take(i as int)),
        decreases ids.len() - i,
    {
        let id = ids[i];
        let ghost here = registry@;
        proof {
            assert(before.pending_read_write.contains_key(ids@[i as int]));
            assert(!ids@.take(i as int).contains(id)) by {
                if ids@.take(i as int).contains(id) {
                    let k = choose|k: int| 0 <= k < i && ids@.take(i as int)[k] == id;
                    assert(ids@[k] < ids@[i as int]);
                }
            }
            decision::lemma_without_all_step(before, ids@.take(i as int), id);
            assert(ids@.take(i as int).push(id) =~= ids@.take(i + 1));
            assert(here.pending_read_write.contains_key(id));
            assert(!before.pending.contains_key(id));
        }
        let mut attach_id: Option<u64> = None;
        if let Some(request) = registry.remove_pending_read_write_request(id) {
            attach_id = request.attach_id;
        }
        let release_id = registry.next_operation_id();
        let other_waited = registry.pending_waiters.remove(&id);
        assert(registry@ =~= here.settled(id));
        let line = LogEvent { id: release_id, body: format_release_body(id, attach_id, decided) };
        proof {
            let old_lines = release_lines(before, ids@.take(i as int), before.next_id as int, decided);
            let new_lines = release_lines(before, ids@.take(i + 1), before.next_id as int, decided);
            assert(new_lines =~= old_lines.push((line.id, line.body@)));
            assert(session::events(lines@.push(line)) =~= session::events(lines@).push(
                (line.id, line.body@),
            ));
            assert((head + old_lines).push((line.id, line.body@)) =~= head + new_lines);
            assert(ids@.take(i + 1).drop_last() =~= ids@.take(i as int));
        }
        lines.push(line);
        let ghost woken_before = notices@;
        if other_waited {
            notices.push(Notice { id, decision: PendingDecision::Apply });
        }
        assert(notices@ =~= first + woken_among(before.waiters, ids@.take(i + 1)));
        i += 1;
    }
    assert(ids@.take(ids.len() as int) =~= ids@);
    let ghost rest = before.without_all(ids@);
    let ghost given = grant@;
    registry.insert_read_write_grant(grant);
    let ghost granted = RegistryView { grants: rest.grants.insert(given.id, given), ..rest };
    assert(registry@ =~= granted);
    if !own {
        registry.insert_pending_read_write_request(selected);
        if waited {
            let _ = registry.pending_waiters.insert(decided);
        }
        assert(registry@ =~= kept(granted, selected@, waited));
    }
    Release { events: lines, notices }
}

/// What the machine knows of the processes below the requester.
pub open spec fn known_tree(evidence: GrantEvidence) -> Option<Seq<ProcessIdentityEvidence>> {
    match evidence.tree {
        Some(tree) => Some(tree@),
        None => None,
    }
}

/// The grant that is given.
pub open spec fn given_grant(
    before: RegistryView,
    name: Seq<char>,
    id: u64,
    options: ReadWriteGrantOptions,
    subject: SubjectView,
    now: Timestamp,
) -> GrantView {
    let request = before.pending_read_write[id];
    GrantView {
        id: (before.next_id + 1) as u64,
        sandbox: name,
        kind: request.kind,
        path_pattern: match options.path {
            Some(path) => path,
            None => request.path,
        },
        subject,
        lifetime: lifetime_of(options.lifetime, now),
        created_at_epoch_ms: time::millis_since_epoch(now.secs as int, now.nanos as int) as u128,
    }
}

/// What allowing a read or write with a grant does.
pub open spec fn allowed_with_grant(
    before: RegistryView,
    after: RegistryView,
    name: Seq<char>,
    id: u64,
    options: ReadWriteGrantOptions,
    evidence: GrantEvidence,
    result: Result<Outcome, Error>,
) -> bool {
    let request = before.pending_read_write[id];
    let waited = before.waiters.contains(id);
    let pattern = match options.path {
        Some(path) => path,
        None => request.path,
    };
    let chosen = choice(
        request.process_identity,
        request.pid,
        options.tree,
        known_tree(evidence),
        evidence.identity,
    );
    let decided = (before.next_id, allow_body(id, request.attach_id, chosen));
    if options.lifetime == (ReadWriteGrantLifetimeRequest::Duration { seconds: 0 }) {
        &&& result matches Err(error) && error.says("duration must be greater than zero"@)
        &&& after == before
    } else if !before.owns(name, id) {
        result matches Err(error) && decision::refused(before, after, name, id, error)
    } else if before.pending.contains_key(id) {
        &&& result matches Err(error) && error.says(
            "read/write grant options can only be used with read/write pending requests"@,
        )
        &&& after == before
    } else if !before.sandboxes.contains_key(name) {
        &&& result matches Err(error) && error.says(session::not_found(name))
        &&& after == before.without_request(id)
    } else if !grant::pattern_covers(pattern, request.path) {
        &&& result matches Err(error) && error.says(
            "read/write grant path "@ + pattern.text() + " does not match pending path "@
                + request.path.text(),
        )
        &&& after == before.numbered()
    } else {
        &&& result matches Ok(outcome)
        &&& outcome.log_path@ == before.sandboxes[name].log_path
        &&& grant_answer(outcome.response, chosen)
        &&& match chosen.subject {
            None => {
                &&& after == before.settled(id)
                &&& outcome.events() == seq![decided]
                &&& outcome.notices@ == woken_if(waited, id)
            },
            Some(subject) => exists|release: Release|
                {
                    &&& #[trigger] grant_releases(
                        before,
                        after,
                        id,
                        given_grant(before, name, id, options, subject, evidence.now),
                        chosen.identity,
                        evidence.now,
                        release,
                    )
                    &&& outcome.events() == seq![decided] + release.events()
                    &&& outcome.notices@ == release.notices@
                },
        }
    }
}

/// What a grant releases: one request for a grant for one use, every covered
/// request for a grant for a time.
pub open spec fn grant_releases(
    before: RegistryView,
    after: RegistryView,
    id: u64,
    grant: GrantView,
    identity: Option<ProcessIdentityEvidence>,
    now: Timestamp,
    release: Release,
) -> bool {
    let ready = RegistryView { next_id: (before.next_id + 3) as u64, ..before.settled(id) };
    let selected = ReadWriteRequestView {
        process_identity: identity,
        ..before.pending_read_write[id]
    };
    let waited = before.waiters.contains(id);
    let event_id = (before.next_id + 2) as u64;
    match grant.lifetime {
        ReadWriteGrantLifetime::OneShot => releases_one(
            ready,
            after,
            grant,
            event_id,
            selected,
            waited,
            now,
            release,
        ),
        ReadWriteGrantLifetime::Duration { .. } => releases_all(
            ready,
            after,
            grant,
            event_id,
            selected,
            waited,
            now,
            release,
        ),
    }
}

impl SessionState {
    /// Allows a pending read or write, and gives a grant for more of its kind:
    /// for the pattern that is asked for or the path of the request, for the
    /// requester or its process tree, and for one use or a time. Where nobody
    /// can be told whom the grant is for, the request alone is allowed.
    pub fn allow_read_write_grant(
        &mut self,
        name: &str,
        id: u64,
        options: ReadWriteGrantOptions,
        evidence: GrantEvidence,
    ) -> (result: Result<Outcome, Error>)
        requires
            old(self).registry@.cancelable(),
            room_to_release(old(self).registry@),
        ensures
            final(self).runtime == old(self).runtime,
            final(self).mounts == old(self).mounts,
            allowed_with_grant(
                old(self).registry@,
                final(self).registry@,
                name@,
                id,
                options,
                evidence,
                result,
            ),
    {
        let ghost before = self.registry@;
        proof {
            assert(are_pending(before, Seq::empty()));
        }
        if let ReadWriteGrantLifetimeRequest::Duration { seconds } = options.lifetime {
            if seconds == 0 {
                return Err(Error::msg("duration must be greater than zero".to_owned()));
            }
        }
        match decision::owned_request(&self.registry, name, id) {
            Ok(_) => {},
            Err(error) => {
                return Err(error);
            },
        }
        if self.registry.pending.contains_key(&id) {
            return Err(
                Error::msg(
                    "read/write grant options can only be used with read/write pending requests".to_owned(),
                ),
            );
        }
        assert(!before.pending.contains_key(id));
        let mut selected = match self.registry.remove_pending_read_write_request(id) {
            Some(request) => request,
            None => {
                assert(false);
                return Err(session::sandbox_not_found(name));
            },
        };
        let log_path = match self.registry.sandboxes.get(&name.to_owned()) {
            Some(sandbox) => sandbox.log_path.clone(),
            None => {
                return Err(session::sandbox_not_found(name));
            },
        };
        let decision_id = self.registry.next_operation_id();
        let waited = self.registry.pending_waiters.remove(&id);
        assert(self.registry@ =~= before.settled(id));
        let pattern = match options.path {
            Some(path) => path,
            None => selected.path.clone(),
        };
        if !grant::grant_pattern_matches(&pattern, &selected.path) {
            let mut message = "read/write grant path ".to_owned();
            message.append(pattern.as_str());
            message.append(" does not match pending path ");
            message.append(selected.path.as_str());
            self.registry.insert_pending_read_write_request(selected);
            if waited {
                let _ = self.registry.pending_waiters.insert(id);
            }
            proof {
                assert(self.registry@.pending_read_write =~= before.pending_read_write);
                assert(self.registry@.waiters =~= before.waiters);
                assert(self.registry@ =~= before.numbered());
            }
            return Err(Error::msg(message));
        }
        let ghost request = selected@;
        let GrantEvidence { now, tree, identity } = evidence;
        let chosen = choose_subject(
            selected.process_identity,
            selected.pid,
            options.tree,
            tree,
            identity,
        );
        let ghost picked = chosen@;
        let attach_id = selected.attach_id;
        let mut lines: Vec<LogEvent> = Vec::new();
        lines.push(LogEvent { id: decision_id, body: format_allow_body(id, attach_id, &chosen) });
        let ghost decided = (before.next_id, allow_body(id, attach_id, picked));
        assert(session::events(lines@) =~= seq![decided]);
        let SubjectChoice { subject, identity: requester, warning } = chosen;
        let response = match warning {
            Some(message) => Response::Warning { message },
            None => Response::Done,
        };
        let subject = match subject {
            Some(subject) => subject,
            None => {
                let mut notices: Vec<Notice> = Vec::new();
                if waited {
                    notices.push(Notice { id, decision: PendingDecision::Apply });
                }
                assert(notices@ =~= woken_if(waited, id));
                return Ok(Outcome { log_path, events: lines, notices, response });
            },
        };
        let lifetime = choose_lifetime(options.lifetime, now);
        let grant_id = self.registry.next_operation_id();
        let event_id = self.registry.next_operation_id();
        let ghost ready = RegistryView { next_id: (before.next_id + 3) as u64, ..before.settled(id) };
        assert(self.registry@ =~= ready);
        let grant = ReadWriteAccessGrant {
            id: grant_id,
            sandbox: name.to_owned(),
            kind: selected.kind,
            path_pattern: pattern,
            subject,
            lifetime,
            created_at_epoch_ms: time::epoch_millis(now),
        };
        let ghost given = given_grant(before, name@, id, options, picked.subject->0, now);
        selected.process_identity = requester;
        proof {
            assert(grant@ =~= given);
            assert(ready.cancelable());
            assert forall|ids: Seq<u64>| #[trigger] are_pending(ready, ids) implies are_pending(
                before,
                ids,
            ) by {
                assert forall|i: int| 0 <= i < ids.len() implies
                    before.pending_read_write.contains_key(#[trigger] ids[i]) by {
                    assert(ready.pending_read_write.contains_key(ids[i]));
                }
            }
        }
        let release = match lifetime {
            ReadWriteGrantLifetime::OneShot => release_one(
                &mut self.registry,
                grant,
                event_id,
                selected,
                waited,
                now,
            ),
            ReadWriteGrantLifetime::Duration { .. } => release_all(
                &mut self.registry,
                grant,
                event_id,
                selected,
                waited,
                now,
            ),
        };
        assert(grant_releases(before, self.registry@, id, given, picked.identity, now, release));
        let ghost tail = release.events();
        let Release { events: mut more, notices } = release;
        lines.append(&mut more);
        assert(session::events(lines@) =~= seq![decided] + tail);
        Ok(Outcome { log_path, events: lines, notices, response })
    }
}

} // verus!
