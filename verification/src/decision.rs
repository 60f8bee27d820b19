//! Decisions about pending requests: allow, deny and cancel.

use vstd::prelude::*;

use crate::error::Error;
use crate::host;
use crate::host::HostPath;
use crate::ipc::Response;
use crate::metadata;
use crate::metadata::ObjectView;
use crate::metadata::PendingKeyView;
use crate::pending::PendingDecision;
use crate::pending::PendingRequest;
use crate::pending::RequestView;
use crate::registry;
use crate::registry::RegistryView;
use crate::registry::SandboxRegistry;
use crate::session;
use crate::session::EventView;
use crate::session::LogEvent;
use crate::session::Notice;
use crate::session::Outcome;
use crate::session::SessionState;
use crate::text;

verus! {

broadcast use {vstd::string::group_string_axioms, crate::table::group_shown};

/// How a decision reads in a log line.
pub open spec fn decision_body(id: u64, attach_id: Option<u64>, verb: Seq<char>) -> Seq<char> {
    "decision request="@ + text::decimal(id as nat) + session::attach_field(attach_id) + " "@ + verb
}

/// How a canceled request reads in a log line.
pub open spec fn cancel_body(id: u64, attach_id: Option<u64>, reason: Seq<char>) -> Seq<char> {
    "cancel request="@ + text::decimal(id as nat) + session::attach_field(attach_id) + " reason="@
        + reason
}

/// How a cancellation of many requests reads in a log line.
pub open spec fn cancel_scope_body(
    attach_id: Option<u64>,
    scope: Seq<char>,
    reason: Seq<char>,
    count: nat,
) -> Seq<char> {
    "cancel"@ + session::attach_field(attach_id) + " scope="@ + scope + " reason="@ + reason
        + " count="@ + text::decimal(count)
}

pub fn format_decision_body(id: u64, attach_id: Option<u64>, verb: &str) -> (body: String)
    ensures
        body@ == decision_body(id, attach_id, verb@),
{
    let mut body = "decision request=".to_owned();
    body.append(text::decimal_of(id).as_str());
    body.append(session::format_attach_field(attach_id).as_str());
    body.append(" ");
    body.append(verb);
    body
}

fn format_cancel_body(id: u64, attach_id: Option<u64>, reason: &str) -> (body: String)
    ensures
        body@ == cancel_body(id, attach_id, reason@),
{
    let mut body = "cancel request=".to_owned();
    body.append(text::decimal_of(id).as_str());
    body.append(session::format_attach_field(attach_id).as_str());
    body.append(" reason=");
    body.append(reason);
    body
}

fn format_cancel_scope_body(attach_id: Option<u64>, scope: &str, reason: &str, count: usize) -> (body:
    String)
    ensures
        body@ == cancel_scope_body(attach_id, scope@, reason@, count as nat),
{
    let mut body = "cancel".to_owned();
    body.append(session::format_attach_field(attach_id).as_str());
    body.append(" scope=");
    body.append(scope);
    body.append(" reason=");
    body.append(reason);
    body.append(" count=");
    body.append(text::digits_of(count as u128, 10).as_str());
    body
}

impl RegistryView {
    /// A request with the number is pending for the sandbox.
    pub open spec fn owns(self, name: Seq<char>, id: u64) -> bool {
        self.request(id) matches Some(request) && request.sandbox() == name
    }

    /// The registry after a decision about a request: neither the request nor
    /// its caller wait any more, and the decision has a number.
    pub open spec fn settled(self, id: u64) -> Self {
        RegistryView {
            waiters: self.waiters.remove(id),
            next_id: (self.next_id + 1) as u64,
            ..self.without_request(id)
        }
    }

    /// The registry after requests were canceled, with a number for each.
    pub open spec fn without_all(self, ids: Seq<u64>) -> Self {
        RegistryView {
            pending: Map::new(
                |id: u64| self.pending.contains_key(id) && !ids.contains(id),
                |id: u64| self.pending[id],
            ),
            pending_read_write: Map::new(
                |id: u64| self.pending_read_write.contains_key(id) && !ids.contains(id),
                |id: u64| self.pending_read_write[id],
            ),
            waiters: self.waiters.filter(|id: u64| !ids.contains(id)),
            index: Map::new(
                |key: PendingKeyView| self.index.contains_key(key) && !ids.contains(self.index[key]),
                |key: PendingKeyView| self.index[key],
            ),
            next_id: (self.next_id + ids.len()) as u64,
            ..self
        }
    }
}

/// A decision is refused: no request has the number, or it is not one of the
/// sandbox. Nothing changes.
pub open spec fn refused(
    before: RegistryView,
    after: RegistryView,
    name: Seq<char>,
    id: u64,
    error: Error,
) -> bool {
    &&& after == before
    &&& match before.request(id) {
        Some(request) => request.sandbox() != name && error.says(
            "pending operation "@ + text::decimal(id as nat) + " does not belong to sandbox "@ + name,
        ),
        None => error.says("pending operation not found: "@ + text::decimal(id as nat)),
    }
}

/// The callers to wake when one request is decided.
pub open spec fn woken(before: RegistryView, id: u64, decision: PendingDecision) -> Seq<Notice> {
    if before.waiters.contains(id) {
        seq![Notice { id, decision }]
    } else {
        Seq::empty()
    }
}

/// The callers to wake when many requests are decided.
pub open spec fn woken_all(
    waiters: Set<u64>,
    items: Seq<RequestView>,
    decision: PendingDecision,
) -> Seq<Notice>
    decreases items.len(),
{
    if items.len() == 0 {
        Seq::empty()
    } else {
        let rest = woken_all(waiters, items.drop_last(), decision);
        let id = items.last().id();
        if waiters.contains(id) {
            rest.push(Notice { id, decision })
        } else {
            rest
        }
    }
}

/// An outcome that writes one line about one decision.
pub open spec fn decides_one(
    before: RegistryView,
    outcome: Outcome,
    name: Seq<char>,
    id: u64,
    body: Seq<char>,
    decision: PendingDecision,
) -> bool {
    &&& outcome.log_path@ == before.sandboxes[name].log_path
    &&& outcome.events() == seq![(before.next_id, body)]
    &&& outcome.notices@ == woken(before, id, decision)
    &&& outcome.response is Done
}

/// The numbers of requests.
pub open spec fn ids_of(items: Seq<RequestView>) -> Seq<u64> {
    items.map_values(|item: RequestView| item.id())
}

/// The lines about canceled requests, numbered from `first` on.
pub open spec fn cancel_lines(items: Seq<RequestView>, first: int, reason: Seq<char>) -> Seq<EventView> {
    Seq::new(
        items.len(),
        |i: int| ((first + i) as u64, cancel_body(items[i].id(), items[i].attach_id(), reason)),
    )
}

/// An outcome that cancels many requests: a line about the scope, a line about
/// each request, and every waiting caller woken.
pub open spec fn cancels_all(
    before: RegistryView,
    after: RegistryView,
    outcome: Outcome,
    name: Seq<char>,
    items: Seq<RequestView>,
    attach_id: Option<u64>,
    scope: Seq<char>,
    reason: Seq<char>,
) -> bool {
    &&& after == before.numbered().without_all(ids_of(items))
    &&& outcome.log_path@ == before.sandboxes[name].log_path
    &&& outcome.events() == seq![
        (before.next_id, cancel_scope_body(attach_id, scope, reason, items.len())),
    ] + cancel_lines(items, before.next_id + 1, reason)
    &&& outcome.notices@ == woken_all(before.waiters, items, PendingDecision::Cancel)
    &&& outcome.response is Done
}

/// The items are the pending requests of an attached view, by number.
pub open spec fn view_listing(
    registry: RegistryView,
    name: Seq<char>,
    attach_id: u64,
    items: Seq<RequestView>,
) -> bool {
    &&& forall|i: int, j: int| 0 <= i < j < items.len() ==> (#[trigger] items[i]).id() < (
    #[trigger] items[j]).id()
    &&& forall|request: RequestView| #[trigger]
        items.contains(request) <==> registry.is_pending(name, request) && request.attach_id() == Some(
            attach_id,
        )
}

/// There is a number for every pending request of the sandbox and one more.
pub open spec fn room_to_cancel(registry: RegistryView, name: Seq<char>) -> bool {
    forall|items: Seq<RequestView>| #[trigger]
        registry::listing_of(registry, name, items) ==> registry.next_id + items.len() < u64::MAX
}

/// Canceling one more request is settling it.
pub proof fn lemma_without_all_step(start: RegistryView, ids: Seq<u64>, id: u64)
    requires
        start.cancelable(),
        !ids.contains(id),
        start.request(id) is Some,
        start.next_id + ids.len() < u64::MAX,
    ensures
        start.without_all(ids).settled(id) == start.without_all(ids.push(id)),
        start.without_all(ids).request(id) == start.request(id),
{
    let a = start.without_all(ids).settled(id);
    let b = start.without_all(ids.push(id));
    assert forall|x: u64| #[trigger] ids.push(id).contains(x) <==> ids.contains(x) || x == id by {
        if ids.contains(x) {
            let i = choose|i: int| 0 <= i < ids.len() && ids[i] == x;
            assert(ids.push(id)[i] == x);
        }
        assert(ids.push(id)[ids.len() as int] == id);
        if ids.push(id).contains(x) {
            let i = choose|i: int| 0 <= i < ids.push(id).len() && ids.push(id)[i] == x;
            if i < ids.len() {
                assert(ids[i] == x);
            }
        }
    }
    assert(a.pending =~= b.pending);
    assert(a.pending_read_write =~= b.pending_read_write);
    assert(a.waiters =~= b.waiters);
    assert forall|key: PendingKeyView|
        #![trigger a.index.contains_key(key)]
        #![trigger b.index.contains_key(key)]
        a.index.contains_key(key) == b.index.contains_key(key) by {
        if start.index.contains_key(key) {
            assert(start.pending.contains_key(start.index[key]));
            assert(start.pending[start.index[key]].claims().contains(key));
        }
    }
    assert(a.index =~= b.index);
    assert(a =~= b);
}

/// Taking a pending request out keeps the registry consistent, and so does
/// handing out a number.
pub proof fn lemma_settled_is_consistent(before: RegistryView, id: u64)
    requires
        before.consistent(),
        before.next_id < u64::MAX,
    ensures
        before.without_request(id).consistent(),
        before.settled(id).consistent(),
        before.numbered().consistent(),
{
    let after = before.without_request(id);
    assert forall|key: PendingKeyView| #[trigger] after.index.contains_key(key) implies
        after.pending.contains_key(after.index[key]) && after.pending[after.index[key]].claims().contains(
        key,
    ) by {
        assert(before.index.contains_key(key));
        if before.pending.contains_key(id) && before.index[key] == id {
            assert(before.pending[id].claims().contains(key));
        }
    }
    assert forall|other: u64, key: PendingKeyView|
        #![trigger after.pending[other].claims().contains(key)]
        after.pending.contains_key(other) && after.pending[other].claims().contains(key) implies
        after.index.contains_key(key) && after.index[key] == other by {
        assert(before.pending[other].claims().contains(key));
    }
    assert(after.consistent());
}

/// Canceling nothing changes nothing.
pub proof fn lemma_without_none(start: RegistryView)
    ensures
        start.without_all(Seq::empty()) == start,
{
    let none = start.without_all(Seq::empty());
    assert(none.pending =~= start.pending);
    assert(none.pending_read_write =~= start.pending_read_write);
    assert(none.waiters =~= start.waiters);
    assert(none.index =~= start.index);
    assert(none =~= start);
}

/// Checks that a request is pending for the sandbox.
pub(crate) fn owned_request(registry: &SandboxRegistry, name: &str, id: u64) -> (result: Result<(), Error>)
    ensures
        match result {
            Ok(_) => registry@.owns(name@, id),
            Err(error) => refused(registry@, registry@, name@, id, error),
        },
{
    let owner: &str = match registry.pending.get(&id) {
        Some(request) => request.sandbox.as_str(),
        None => match registry.pending_read_write.get(&id) {
            Some(request) => request.sandbox.as_str(),
            None => {
                let mut message = "pending operation not found: ".to_owned();
                message.append(text::decimal_of(id).as_str());
                return Err(Error::msg(message));
            },
        },
    };
    if text::same_text(owner, name) {
        Ok(())
    } else {
        let mut message = "pending operation ".to_owned();
        message.append(text::decimal_of(id).as_str());
        message.append(" does not belong to sandbox ");
        message.append(name);
        Err(Error::msg(message))
    }
}

fn one_decision(
    log_path: HostPath,
    event_id: u64,
    body: String,
    waited: bool,
    id: u64,
    decision: PendingDecision,
) -> (outcome: Outcome)
    ensures
        outcome.log_path@ == log_path@,
        outcome.events() == seq![(event_id, body@)],
        outcome.notices@ == if waited {
            seq![Notice { id, decision }]
        } else {
            Seq::empty()
        },
        outcome.response is Done,
{
    let mut outcome = session::one_line(log_path, event_id, body);
    if waited {
        outcome.notices.push(Notice { id, decision });
    }
    assert(outcome.notices@ =~= if waited {
        seq![Notice { id, decision }]
    } else {
        Seq::empty()
    });
    outcome
}

/// What canceling every request of a sandbox does.
pub open spec fn cancels_sandbox(
    before: RegistryView,
    after: RegistryView,
    name: Seq<char>,
    result: Result<Outcome, Error>,
) -> bool {
    match result {
        Ok(outcome) => {
            &&& before.sandboxes.contains_key(name)
            &&& exists|items: Seq<RequestView>|
                {
                    &&& #[trigger] registry::listing_of(before, name, items)
                    &&& cancels_all(
                        before,
                        after,
                        outcome,
                        name,
                        items,
                        None,
                        "sandbox"@,
                        "cancel-all"@,
                    )
                }
        },
        Err(error) => {
            &&& !before.sandboxes.contains_key(name)
            &&& after == before
            &&& error.says(session::not_found(name))
        },
    }
}

impl SessionState {
    /// Allows one request. A caller that waits is told to go on, and makes the
    /// change itself; without one, a change of metadata is made here, on the
    /// object that the request was about. With `do_nothing` the caller is told
    /// that all is well and nothing changes.
    pub fn allow_once(&mut self, name: &str, id: u64, do_nothing: bool) -> (result: Result<
        Outcome,
        Error,
    >)
        requires
            old(self).registry@.next_id < u64::MAX,
        ensures
            final(self).runtime == old(self).runtime,
            final(self).mounts == old(self).mounts,
            allowed_once(old(self).registry@, final(self).registry@, name@, id, do_nothing, result),
    {
        match owned_request(&self.registry, name, id) {
            Ok(_) => {},
            Err(error) => {
                return Err(error);
            },
        }
        let ghost before = self.registry@;
        let removed = self.registry.remove_any_pending_request(id);
        let decision_id = self.registry.next_operation_id();
        let waited = self.registry.pending_waiters.remove(&id);
        assert(self.registry@ =~= before.settled(id));
        let log_path = match self.registry.sandboxes.get(&name.to_owned()) {
            Some(sandbox) => sandbox.log_path.clone(),
            None => {
                return Err(session::sandbox_not_found(name));
            },
        };
        let mut attach_id: Option<u64> = None;
        if let Some(request) = removed {
            attach_id = request.attach_id();
            if !waited && !do_nothing {
                if let PendingRequest::Metadata(request) = request {
                    let ghost sandboxes = self.registry@.sandboxes;
                    if let Some(sandbox) = self.registry.sandboxes.get_mut(&name.to_owned()) {
                        let path = request.operation.path().clone();
                        let layer_id = request.object.layer_id;
                        match sandbox.apply_metadata_override_to_object(
                            request.object,
                            path,
                            &request.operation,
                        ) {
                            Ok(_) => {},
                            Err(error) => {
                                assert(sandboxes.insert(name@, sandboxes[name@]) =~= sandboxes);
                                if layer_id == metadata::NO_LAYER {
                                    let mut message = "path not found or not real: ".to_owned();
                                    message.append(request.operation.path().as_str());
                                    return Err(Error::msg(message));
                                }
                                return Err(error);
                            },
                        }
                    }
                }
            }
        }
        let (verb, decision): (&str, PendingDecision) = if do_nothing {
            ("ALLOW_DO_NOTHING", PendingDecision::DoNothing)
        } else {
            ("ALLOW", PendingDecision::Apply)
        };
        let body = format_decision_body(id, attach_id, verb);
        Ok(one_decision(log_path, decision_id, body, waited, id, decision))
    }

    /// Denies one request.
    pub fn deny(&mut self, name: &str, id: u64) -> (result: Result<Outcome, Error>)
        requires
            old(self).registry@.next_id < u64::MAX,
        ensures
            final(self).runtime == old(self).runtime,
            final(self).mounts == old(self).mounts,
            ({
                let before = old(self).registry@;
                settled_with(
                    before,
                    final(self).registry@,
                    name@,
                    id,
                    decision_body(id, before.request(id)->0.attach_id(), "DENY"@),
                    PendingDecision::Deny,
                    result,
                )
            }),
    {
        match owned_request(&self.registry, name, id) {
            Ok(_) => {},
            Err(error) => {
                return Err(error);
            },
        }
        let (attach_id, event_id, waited) = match self.settle(name, id) {
            Ok(settled) => settled,
            Err(error) => {
                return Err(error);
            },
        };
        let log_path = match self.registry.sandboxes.get(&name.to_owned()) {
            Some(sandbox) => sandbox.log_path.clone(),
            None => {
                return Err(session::sandbox_not_found(name));
            },
        };
        let body = format_decision_body(id, attach_id, "DENY");
        Ok(one_decision(log_path, event_id, body, waited, id, PendingDecision::Deny))
    }

    /// Cancels one request.
    pub fn cancel(&mut self, name: &str, id: u64, reason: &str) -> (result: Result<Outcome, Error>)
        requires
            old(self).registry@.next_id < u64::MAX,
        ensures
            final(self).runtime == old(self).runtime,
            final(self).mounts == old(self).mounts,
            ({
                let before = old(self).registry@;
                settled_with(
                    before,
                    final(self).registry@,
                    name@,
                    id,
                    cancel_body(id, before.request(id)->0.attach_id(), reason@),
                    PendingDecision::Cancel,
                    result,
                )
            }),
    {
        match owned_request(&self.registry, name, id) {
            Ok(_) => {},
            Err(error) => {
                return Err(error);
            },
        }
        let (attach_id, event_id, waited) = match self.settle(name, id) {
            Ok(settled) => settled,
            Err(error) => {
                return Err(error);
            },
        };
        let log_path = match self.registry.sandboxes.get(&name.to_owned()) {
            Some(sandbox) => sandbox.log_path.clone(),
            None => {
                return Err(session::sandbox_not_found(name));
            },
        };
        let body = format_cancel_body(id, attach_id, reason);
        Ok(one_decision(log_path, event_id, body, waited, id, PendingDecision::Cancel))
    }

    /// Takes a request and its caller out. Where the sandbox is gone the caller
    /// stays.
    fn settle(&mut self, name: &str, id: u64) -> (result: Result<(Option<u64>, u64, bool), Error>)
        requires
            old(self).registry@.owns(name@, id),
            old(self).registry@.next_id < u64::MAX,
        ensures
            final(self).runtime == old(self).runtime,
            final(self).mounts == old(self).mounts,
            match result {
                Ok((attach_id, event_id, waited)) => {
                    let before = old(self).registry@;
                    &&& before.sandboxes.contains_key(name@)
                    &&& attach_id == before.request(id)->0.attach_id()
                    &&& event_id == before.next_id
                    &&& waited == before.waiters.contains(id)
                    &&& final(self).registry@ == before.settled(id)
                },
                Err(error) => {
                    let before = old(self).registry@;
                    &&& !before.sandboxes.contains_key(name@)
                    &&& final(self).registry@ == before.without_request(id).numbered()
                    &&& error.says(session::not_found(name@))
                },
            },
    {
        let ghost before = self.registry@;
        let removed = self.registry.remove_any_pending_request(id);
        let event_id = self.registry.next_operation_id();
        if !self.registry.sandboxes.contains_key(&name.to_owned()) {
            return Err(session::sandbox_not_found(name));
        }
        let waited = self.registry.pending_waiters.remove(&id);
        assert(self.registry@ =~= before.settled(id));
        let attach_id = match removed {
            Some(request) => request.attach_id(),
            None => None,
        };
        Ok((attach_id, event_id, waited))
    }

    /// Cancels every pending request of a sandbox.
    pub fn cancel_all(&mut self, name: &str) -> (result: Result<Outcome, Error>)
        requires
            old(self).registry@.cancelable(),
            room_to_cancel(old(self).registry@, name@),
        ensures
            registry::stays_valid(old(self).registry@, final(self).registry@),
            final(self).runtime == old(self).runtime,
            final(self).mounts == old(self).mounts,
            cancels_sandbox(
                old(self).registry@,
                final(self).registry@,
                name@,
                result,
            ),
    {
        let log_path = match self.registry.sandboxes.get(&name.to_owned()) {
            Some(sandbox) => sandbox.log_path.clone(),
            None => {
                return Err(session::sandbox_not_found(name));
            },
        };
        let items = self.registry.pending_requests_for_sandbox(name);
        proof {
            lemma_listed_ids(old(self).registry@, name@, registry::views(items@));
            assert(registry::listing_of(old(self).registry@, name@, registry::views(items@)));
        }
        Ok(self.cancel_items(log_path, items, "sandbox", None, "cancel-all"))
    }

    /// Cancels every pending request of an attached view.
    pub fn cancel_attached_view(&mut self, name: &str, attach_id: u64, reason: &str) -> (result: Result<
        Outcome,
        Error,
    >)
        requires
            old(self).registry@.cancelable(),
            room_to_cancel(old(self).registry@, name@),
        ensures
            registry::stays_valid(old(self).registry@, final(self).registry@),
            final(self).runtime == old(self).runtime,
            final(self).mounts == old(self).mounts,
            match result {
                Ok(outcome) => {
                    &&& old(self).registry@.sandboxes.contains_key(name@)
                    &&& exists|items: Seq<RequestView>|
                        {
                            &&& #[trigger] view_listing(
                                old(self).registry@,
                                name@,
                                attach_id,
                                items,
                            )
                            &&& cancels_all(
                                old(self).registry@,
                                final(self).registry@,
                                outcome,
                                name@,
                                items,
                                Some(attach_id),
                                "attached-view"@,
                                reason@,
                            )
                        }
                },
                Err(error) => {
                    &&& !old(self).registry@.sandboxes.contains_key(name@)
                    &&& final(self).registry@ == old(self).registry@
                    &&& error.says(session::not_found(name@))
                },
            },
    {
        let log_path = match self.registry.sandboxes.get(&name.to_owned()) {
            Some(sandbox) => sandbox.log_path.clone(),
            None => {
                return Err(session::sandbox_not_found(name));
            },
        };
        let all = self.registry.pending_requests_for_sandbox(name);
        let ghost listing = registry::views(all@);
        let items = requests_of_view(&all, attach_id);
        proof {
            lemma_view_listing(old(self).registry@, name@, attach_id, listing, registry::views(items@));
            lemma_listed_ids(old(self).registry@, name@, registry::views(items@));
            assert(registry::listing_of(old(self).registry@, name@, listing));
        }
        Ok(self.cancel_items(log_path, items, "attached-view", Some(attach_id), reason))
    }

    /// Cancels the pending requests of the view that is attached at a
    /// mountpoint.
    pub fn cancel_mountpoint(&mut self, name: &str, mountpoint: &HostPath) -> (result: Result<
        Outcome,
        Error,
    >)
        requires
            old(self).registry@.cancelable(),
            room_to_cancel(old(self).registry@, name@),
        ensures
            registry::stays_valid(old(self).registry@, final(self).registry@),
            final(self).runtime == old(self).runtime,
            final(self).mounts == old(self).mounts,
            match result {
                Ok(outcome) => {
                    let before = old(self).registry@;
                    let attaches = before.sandboxes[name@].attaches;
                    &&& before.sandboxes.contains_key(name@)
                    &&& attaches.contains_key(host::parts(mountpoint@))
                    &&& exists|items: Seq<RequestView>|
                        {
                            &&& #[trigger] view_listing(
                                before,
                                name@,
                                attaches[host::parts(mountpoint@)].id,
                                items,
                            )
                            &&& cancels_all(
                                before,
                                final(self).registry@,
                                outcome,
                                name@,
                                items,
                                Some(attaches[host::parts(mountpoint@)].id),
                                "attached-view"@,
                                "cancel-all"@,
                            )
                        }
                },
                Err(error) => {
                    let before = old(self).registry@;
                    &&& final(self).registry@ == before
                    &&& not_attached(before, name@, mountpoint@, error)
                },
            },
    {
        match self.attached_view(name, mountpoint) {
            Ok((attach_id, _)) => self.cancel_attached_view(name, attach_id, "cancel-all"),
            Err(error) => Err(error),
        }
    }

    /// The view that is attached at a mountpoint, and the log of its sandbox.
    pub(crate) fn attached_view(&self, name: &str, mountpoint: &HostPath) -> (result: Result<
        (u64, HostPath),
        Error,
    >)
        ensures
            match result {
                Ok((attach_id, log_path)) => {
                    let sandbox = self.registry@.sandboxes[name@];
                    &&& self.registry@.sandboxes.contains_key(name@)
                    &&& sandbox.attaches.contains_key(host::parts(mountpoint@))
                    &&& attach_id == sandbox.attaches[host::parts(mountpoint@)].id
                    &&& log_path@ == sandbox.log_path
                },
                Err(error) => not_attached(self.registry@, name@, mountpoint@, error),
            },
    {
        match self.registry.sandboxes.get(&name.to_owned()) {
            Some(sandbox) => match sandbox.attaches.get(mountpoint) {
                Some(attach) => Ok((attach.id, sandbox.log_path.clone())),
                None => {
                    let mut message = "mountpoint is not attached to sandbox ".to_owned();
                    message.append(name);
                    message.append(": ");
                    message.append(mountpoint.as_str());
                    Err(Error::msg(message))
                },
            },
            None => Err(session::sandbox_not_found(name)),
        }
    }

    fn cancel_items(
        &mut self,
        log_path: HostPath,
        items: Vec<PendingRequest>,
        scope: &str,
        attach_id: Option<u64>,
        reason: &str,
    ) -> (outcome: Outcome)
        requires
            old(self).registry@.cancelable(),
            old(self).registry@.next_id + items.len() < u64::MAX,
            forall|i: int|
                0 <= i < items.len() ==> old(self).registry@.request(
                    (#[trigger] registry::views(items@)[i]).id(),
                ) == Some(registry::views(items@)[i]),
            forall|i: int, j: int|
                0 <= i < j < items.len() ==> (#[trigger] registry::views(items@)[i]).id() < (
                #[trigger] registry::views(items@)[j]).id(),
        ensures
            registry::stays_valid(old(self).registry@, final(self).registry@),
            final(self).runtime == old(self).runtime,
            final(self).mounts == old(self).mounts,
            ({
                let before = old(self).registry@;
                let views = registry::views(items@);
                &&& final(self).registry@ == before.numbered().without_all(ids_of(views))
                &&& outcome.log_path@ == log_path@
                &&& outcome.events() == seq![
                    (before.next_id, cancel_scope_body(attach_id, scope@, reason@, views.len())),
                ] + cancel_lines(views, before.next_id + 1, reason@)
                &&& outcome.notices@ == woken_all(before.waiters, views, PendingDecision::Cancel)
                &&& outcome.response is Done
            }),
    {
        let ghost before = self.registry@;
        let ghost views = registry::views(items@);
        let ghost ids = ids_of(views);
        let scope_event_id = self.registry.next_operation_id();
        let ghost start = self.registry@;
        let mut lines: Vec<LogEvent> = Vec::new();
        let mut notices: Vec<Notice> = Vec::new();
        lines.push(
            LogEvent {
                id: scope_event_id,
                body: format_cancel_scope_body(attach_id, scope, reason, items.len()),
            },
        );
        let ghost head = seq![
            (before.next_id, cancel_scope_body(attach_id, scope@, reason@, views.len())),
        ];
        proof {
            lemma_without_none(start);
            assert(ids.take(0) =~= Seq::<u64>::empty());
            assert(session::events(lines@) =~= head + cancel_lines(
                views.take(0),
                before.next_id + 1,
                reason@,
            ));
        }
        let mut i: usize = 0;
        while i < items.len()
            invariant
                i <= items.len(),
                self.runtime == old(self).runtime,
                self.mounts == old(self).mounts,
                before.cancelable(),
                start == before.numbered(),
                views == registry::views(items@),
                ids == ids_of(views),
                before.next_id + items.len() < u64::MAX,
                forall|k: int|
                    0 <= k < items.len() ==> before.request((#[trigger] views[k]).id()) == Some(views[k]),
                forall|a: int, b: int|
                    0 <= a < b < items.len() ==> (#[trigger] views[a]).id() < (#[trigger] views[b]).id(),
                self.registry@ == start.without_all(ids.take(i as int)),
                head.len() == 1,
                session::events(lines@) == head + cancel_lines(
                    views.take(i as int),
                    before.next_id + 1,
                    reason@,
                ),
                notices@ == woken_all(before.waiters, views.take(i as int), PendingDecision::Cancel),
            decreases items.len() - i,
        {
            let id = items[i].id();
            let item_attach = items[i].attach_id();
            let ghost here = self.registry@;
            proof {
                assert(views[i as int] == items@[i as int]@);
                assert(ids[i as int] == id);
                assert(start.cancelable());
                assert(!ids.take(i as int).contains(id)) by {
                    if ids.take(i as int).contains(id) {
                        let k = choose|k: int| 0 <= k < i && ids.take(i as int)[k] == id;
                        assert(ids[k] == views[k].id());
                        assert(views[k].id() < views[i as int].id());
                    }
                }
                assert(start.request(id) == before.request(id));
                lemma_without_all_step(start, ids.take(i as int), id);
                assert(ids.take(i as int).push(id) =~= ids.take(i + 1));
            }
            let _ = self.registry.remove_any_pending_request(id);
            let waited = self.registry.pending_waiters.remove(&id);
            let event_id = self.registry.next_operation_id();
            assert(self.registry@ =~= here.settled(id));
            assert(waited == before.waiters.contains(id));
            let line = LogEvent { id: event_id, body: format_cancel_body(id, item_attach, reason) };
            proof {
                let old_lines = cancel_lines(views.take(i as int), before.next_id + 1, reason@);
                let new_lines = cancel_lines(views.take(i + 1), before.next_id + 1, reason@);
                assert(new_lines =~= old_lines.push((line.id, line.body@)));
                assert(session::events(lines@.push(line)) =~= session::events(lines@).push(
                    (line.id, line.body@),
                ));
                assert((head + old_lines).push((line.id, line.body@)) =~= head + new_lines);
                assert(views.take(i + 1).drop_last() =~= views.take(i as int));
            }
            lines.push(line);
            if waited {
                notices.push(Notice { id, decision: PendingDecision::Cancel });
            }
            i += 1;
        }
        proof {
            assert(ids.take(ids.len() as int) =~= ids);
            assert(views.take(views.len() as int) =~= views);
            registry::lemma_same_requests(before, start);
            if start.consistent() {
                crate::laws::lemma_without_all_is_consistent(start, ids);
            }
        }
        Outcome { log_path, events: lines, notices, response: Response::Done }
    }
}

/// The mountpoint is not one of the sandbox.
pub open spec fn not_attached(
    registry: RegistryView,
    name: Seq<char>,
    mountpoint: Seq<char>,
    error: Error,
) -> bool {
    if registry.sandboxes.contains_key(name) {
        &&& !registry.sandboxes[name].attaches.contains_key(host::parts(mountpoint))
        &&& error.says("mountpoint is not attached to sandbox "@ + name + ": "@ + mountpoint)
    } else {
        error.says(session::not_found(name))
    }
}

/// What is said of an object that no layer of the sandbox has: the request was
/// about none, or its layer is gone.
pub open spec fn missing_object(object: ObjectView) -> Seq<char> {
    if object.layer_id == metadata::NO_LAYER {
        "path not found or not real: "@
    } else {
        "metadata layer not found for path: "@
    }
}

/// What allowing one request does.
pub open spec fn allowed_once(
    before: RegistryView,
    after: RegistryView,
    name: Seq<char>,
    id: u64,
    do_nothing: bool,
    result: Result<Outcome, Error>,
) -> bool {
    let request = before.request(id)->0;
    let sandbox = before.sandboxes[name];
    let applies = !before.waiters.contains(id) && !do_nothing && request is Metadata;
    let change = request->Metadata_0;
    if !before.owns(name, id) {
        result matches Err(error) && refused(before, after, name, id, error)
    } else if !before.sandboxes.contains_key(name) {
        &&& result matches Err(error) && error.says(session::not_found(name))
        &&& after == before.settled(id)
    } else if applies && !sandbox.has_layer(change.object.layer_id) {
        &&& result matches Err(error) && error.says(
            missing_object(change.object) + change.operation.subject().text(),
        )
        &&& after == before.settled(id)
    } else {
        &&& after == if applies {
            before.settled(id).with_sandbox(
                name,
                sandbox.after_override(change.object, change.operation),
            )
        } else {
            before.settled(id)
        }
        &&& result matches Ok(outcome) && decides_one(
            before,
            outcome,
            name,
            id,
            decision_body(
                id,
                request.attach_id(),
                if do_nothing {
                    "ALLOW_DO_NOTHING"@
                } else {
                    "ALLOW"@
                },
            ),
            if do_nothing {
                PendingDecision::DoNothing
            } else {
                PendingDecision::Apply
            },
        )
    }
}

/// What denying or canceling one request does.
pub open spec fn settled_with(
    before: RegistryView,
    after: RegistryView,
    name: Seq<char>,
    id: u64,
    body: Seq<char>,
    decision: PendingDecision,
    result: Result<Outcome, Error>,
) -> bool {
    if !before.owns(name, id) {
        result matches Err(error) && refused(before, after, name, id, error)
    } else if !before.sandboxes.contains_key(name) {
        &&& result matches Err(error) && error.says(session::not_found(name))
        &&& after == before.without_request(id).numbered()
    } else {
        &&& result matches Ok(outcome) && decides_one(before, outcome, name, id, body, decision)
        &&& after == before.settled(id)
    }
}

fn requests_of_view(all: &Vec<PendingRequest>, attach_id: u64) -> (items: Vec<PendingRequest>)
    ensures
        registry::views(items@) == registry::views(all@).filter(
            |request: RequestView| request.attach_id() == Some(attach_id),
        ),
{
    let ghost listing = registry::views(all@);
    let ghost pred = |request: RequestView| request.attach_id() == Some(attach_id);
    let mut items: Vec<PendingRequest> = Vec::new();
    assert(listing.take(0).filter(pred) =~= registry::views(items@)) by {
        reveal(Seq::filter);
    }
    for i in 0..all.len()
        invariant
            listing == registry::views(all@),
            pred == (|request: RequestView| request.attach_id() == Some(attach_id)),
            registry::views(items@) == listing.take(i as int).filter(pred),
    {
        let ghost kept = items@;
        let ghost item = all@[i as int]@;
        proof {
            assert(listing[i as int] == item);
            assert(listing.take(i + 1).drop_last() =~= listing.take(i as int));
            assert(listing.take(i + 1).filter(pred) == if pred(item) {
                listing.take(i as int).filter(pred).push(item)
            } else {
                listing.take(i as int).filter(pred)
            }) by {
                reveal(Seq::filter);
            }
        }
        let wanted = match all[i].attach_id() {
            Some(attach) => attach == attach_id,
            None => false,
        };
        if wanted {
            items.push(all[i].clone());
            assert(registry::views(items@) =~= registry::views(kept).push(item));
        }
    }
    assert(listing.take(all.len() as int) =~= listing);
    items
}

proof fn lemma_view_listing(
    before: RegistryView,
    name: Seq<char>,
    attach_id: u64,
    listing: Seq<RequestView>,
    items: Seq<RequestView>,
)
    requires
        registry::listing_of(before, name, listing),
        items == listing.filter(|request: RequestView| request.attach_id() == Some(attach_id)),
    ensures
        view_listing(before, name, attach_id, items),
        items.len() <= listing.len(),
{
    let pred = |request: RequestView| request.attach_id() == Some(attach_id);
    broadcast use vstd::seq_lib::group_filter_ensures;

    lemma_filter_ascending(listing, pred);
    assert forall|request: RequestView| #[trigger] items.contains(request) <==> before.is_pending(
        name,
        request,
    ) && request.attach_id() == Some(attach_id) by {
        if items.contains(request) {
            let i = choose|i: int| 0 <= i < items.len() && items[i] == request;
            assert(pred(items[i]));
            assert(listing.contains(items[i]));
        }
        if before.is_pending(name, request) && request.attach_id() == Some(attach_id) {
            assert(listing.contains(request));
            let i = choose|i: int| 0 <= i < listing.len() && listing[i] == request;
            assert(pred(listing[i]));
        }
    }
}

proof fn lemma_filter_ascending(listing: Seq<RequestView>, pred: spec_fn(RequestView) -> bool)
    requires
        forall|i: int, j: int| 0 <= i < j < listing.len() ==> (#[trigger] listing[i]).id() < (
        #[trigger] listing[j]).id(),
    ensures
        forall|i: int, j: int|
            0 <= i < j < listing.filter(pred).len() ==> (#[trigger] listing.filter(pred)[i]).id() < (
            #[trigger] listing.filter(pred)[j]).id(),
        listing.filter(pred).len() <= listing.len(),
        forall|i: int| 0 <= i < listing.filter(pred).len() ==> listing.contains(
            #[trigger] listing.filter(pred)[i],
        ),
    decreases listing.len(),
{
    reveal(Seq::filter);
    if listing.len() > 0 {
        let front = listing.drop_last();
        lemma_filter_ascending(front, pred);
        assert forall|i: int| 0 <= i < front.filter(pred).len() implies listing.contains(
            #[trigger] front.filter(pred)[i],
        ) && front.filter(pred)[i].id() < listing.last().id() by {
            let k = choose|k: int| 0 <= k < front.len() && front[k] == front.filter(pred)[i];
            assert(listing[k] == front.filter(pred)[i]);
            assert(listing[k].id() < listing[listing.len() - 1].id());
        }
        assert(listing.contains(listing[listing.len() - 1]));
    }
}

proof fn lemma_listed_ids(before: RegistryView, name: Seq<char>, items: Seq<RequestView>)
    requires
        before.listable(),
        forall|request: RequestView| #[trigger]
            items.contains(request) ==> before.is_pending(name, request),
    ensures
        forall|i: int| 0 <= i < items.len() ==> before.request((#[trigger] items[i]).id()) == Some(items[i]),
{
    assert forall|i: int| 0 <= i < items.len() implies before.request((#[trigger] items[i]).id())
        == Some(items[i]) by {
        assert(items.contains(items[i]));
    }
}

} // verus!
