//! Authorization of reads and writes: what no rule guards passes, what a grant
//! covers passes, and everything else waits for a decision.

use vstd::prelude::*;

use crate::attr::Errno;
use crate::fs::SandboxFs;
use crate::grant::GrantMatchOutcome;
use crate::grant::ReadWriteAccessGrant;
use crate::grant_allow;
use crate::host::HostPath;
use crate::metadata_request;
use crate::operation;
use crate::operation::Effect;
use crate::operation::EffectView;
use crate::operation::ReadWriteOperation;
use crate::path::SandboxPath;
use crate::pending;
use crate::pending::PendingDecision;
use crate::pending::PendingReadWriteRequest;
use crate::pending::ReadWriteRequestView;
use crate::pending::RequestView;
use crate::pending::RequesterIdentity;
use crate::policy::ProtectionKind;
use crate::process_info::ProcessIdentityEvidence;
use crate::registry;
use crate::registry::RegistryView;
use crate::registry::SandboxRegistry;
use crate::sandbox::ResolvedPath;
use crate::sandbox::Sandbox;
use crate::sandbox::SandboxView;
use crate::session;
use crate::session::EventView;
use crate::session::LogEvent;
use crate::table;
use crate::text;
use crate::time::Timestamp;

verus! {

broadcast use {vstd::string::group_string_axioms, crate::table::group_shown};

/// What was decided about a read or write.
#[derive(Clone, Copy, Debug, PartialEq, Eq, Structural)]
pub enum ReadWriteDecision {
    Proceed,
    Denied,
    Canceled,
}

/// What a decision means for a read or write that waited for it.
pub fn read_write_decision(decision: PendingDecision) -> (meaning: ReadWriteDecision)
    ensures
        meaning == match decision {
            PendingDecision::Apply => ReadWriteDecision::Proceed,
            PendingDecision::DoNothing => ReadWriteDecision::Proceed,
            PendingDecision::Deny => ReadWriteDecision::Denied,
            PendingDecision::Cancel => ReadWriteDecision::Canceled,
        },
{
    match decision {
        PendingDecision::Apply => ReadWriteDecision::Proceed,
        PendingDecision::DoNothing => ReadWriteDecision::Proceed,
        PendingDecision::Deny => ReadWriteDecision::Denied,
        PendingDecision::Cancel => ReadWriteDecision::Canceled,
    }
}

/// The error that a read is answered with; there is none when it may go on.
pub fn read_errno(decision: ReadWriteDecision) -> (errno: Option<Errno>)
    ensures
        errno == match decision {
            ReadWriteDecision::Proceed => None::<Errno>,
            ReadWriteDecision::Denied => Some(Errno::EACCES),
            ReadWriteDecision::Canceled => Some(Errno::ECANCELED),
        },
{
    match decision {
        ReadWriteDecision::Proceed => None,
        ReadWriteDecision::Denied => Some(Errno::EACCES),
        ReadWriteDecision::Canceled => Some(Errno::ECANCELED),
    }
}

/// The error of a decision that lets an operation fail.
pub open spec fn failure_of(decision: PendingDecision) -> Option<Errno> {
    match decision {
        PendingDecision::Apply => None,
        PendingDecision::DoNothing => None,
        PendingDecision::Deny => Some(Errno::EACCES),
        PendingDecision::Cancel => Some(Errno::ECANCELED),
    }
}

/// The error of the first decision that lets the operation fail.
pub open spec fn first_failure(decisions: Seq<PendingDecision>) -> Option<Errno>
    decreases decisions.len(),
{
    if decisions.len() == 0 {
        None
    } else {
        match first_failure(decisions.drop_last()) {
            Some(errno) => Some(errno),
            None => failure_of(decisions.last()),
        }
    }
}

/// The error that an operation is answered with after the decisions about its
/// effects; there is none when it is carried out. One refused effect is enough
/// to refuse the operation, and a write that was let go without doing anything
/// is not carried out.
pub open spec fn answered_with(writes: bool, decisions: Seq<PendingDecision>) -> Option<Errno> {
    match first_failure(decisions) {
        Some(errno) => Some(errno),
        None => if writes && decisions.contains(PendingDecision::DoNothing) {
            Some(Errno::EROFS)
        } else {
            None
        },
    }
}

/// The error that an operation is answered with after the decisions about its
/// effects.
pub fn decided_errno(writes: bool, decisions: &Vec<PendingDecision>) -> (errno: Option<Errno>)
    ensures
        errno == answered_with(writes, decisions@),
{
    let mut refused: Option<Errno> = None;
    let mut skipped = false;
    for i in 0..decisions.len()
        invariant
            refused == first_failure(decisions@.take(i as int)),
            skipped == decisions@.take(i as int).contains(PendingDecision::DoNothing),
    {
        let decision = decisions[i];
        proof {
            let next = decisions@.take(i + 1);
            assert(next.drop_last() =~= decisions@.take(i as int));
            assert(next =~= decisions@.take(i as int).push(decision));
            table::lemma_push_contains(decisions@.take(i as int), decision);
            assert(next.contains(PendingDecision::DoNothing) == (skipped || decision
                == PendingDecision::DoNothing));
        }
        if refused.is_none() {
            refused = read_errno(read_write_decision(decision));
        }
        if let PendingDecision::DoNothing = decision {
            skipped = true;
        }
    }
    assert(decisions@.take(decisions.len() as int) =~= decisions@);
    if refused.is_some() {
        refused
    } else if writes && skipped {
        Some(Errno::EROFS)
    } else {
        None
    }
}

/// Whether an effect of the operation has to be asked for. A rule that lets
/// extended attributes pass lets every effect of an operation on them pass.
pub open spec fn is_guarded(
    sandbox: SandboxView,
    about_xattrs: bool,
    effect: EffectView,
    host_is_dir: bool,
) -> bool {
    &&& metadata_request::guarded(sandbox, effect.kind, effect.path, host_is_dir)
    &&& !(about_xattrs && sandbox.passes(
        ProtectionKind::Xattr,
        effect.path.text(),
        metadata_request::shows_directory(sandbox, effect.path, host_is_dir),
    ))
}

/// The effects that have to be asked for, in order.
pub open spec fn guarded_effects(
    sandbox: SandboxView,
    about_xattrs: bool,
    effects: Seq<EffectView>,
    host_dirs: Seq<bool>,
) -> Seq<EffectView>
    decreases effects.len(),
{
    if effects.len() == 0 {
        Seq::empty()
    } else {
        let rest = guarded_effects(sandbox, about_xattrs, effects.drop_last(), host_dirs);
        if is_guarded(sandbox, about_xattrs, effects.last(), host_dirs[effects.len() - 1]) {
            rest.push(effects.last())
        } else {
            rest
        }
    }
}

fn list_guarded_effects(
    sandbox: &Sandbox,
    operation: &ReadWriteOperation,
    host_dirs: &Vec<bool>,
) -> (guarded: Vec<Effect>)
    requires
        host_dirs.len() == operation.effects().len(),
    ensures
        operation::effect_views(guarded@) == guarded_effects(
            sandbox@,
            operation.is_about_xattrs(),
            operation.effects(),
            host_dirs@,
        ),
        guarded.len() <= operation.effects().len(),
{
    let effects = operation.list_effects();
    let about_xattrs = operation.concerns_xattrs();
    let ghost all = operation.effects();
    let mut guarded: Vec<Effect> = Vec::new();
    assert(operation::effect_views(guarded@) =~= guarded_effects(
        sandbox@,
        about_xattrs,
        all.take(0),
        host_dirs@,
    ));
    for i in 0..effects.len()
        invariant
            all == operation::effect_views(effects@),
            effects.len() == host_dirs.len(),
            guarded.len() <= i,
            operation::effect_views(guarded@) == guarded_effects(
                sandbox@,
                about_xattrs,
                all.take(i as int),
                host_dirs@,
            ),
    {
        let effect = &effects[i];
        assert(all.take(i + 1).drop_last() =~= all.take(i as int));
        assert(all[i as int] == effect@);
        let is_dir = sandbox.path_is_directory(&effect.path, host_dirs[i]);
        let passes = about_xattrs && sandbox.is_passthrough(
            ProtectionKind::Xattr,
            &effect.path,
            is_dir,
        );
        if !passes && metadata_request::needs_authorization(
            sandbox,
            effect.kind,
            &effect.path,
            host_dirs[i],
        ) {
            let copy = effect.clone();
            assert(operation::effect_views(guarded@.push(copy)) =~= operation::effect_views(
                guarded@,
            ).push(effect@));
            guarded.push(copy);
        }
    }
    assert(all.take(effects.len() as int) =~= all);
    guarded
}

/// The numbers are those of the grants of the sandbox that are over, in
/// ascending order.
pub open spec fn expired_listing(
    registry: RegistryView,
    name: Seq<char>,
    now: Timestamp,
    ids: Seq<u64>,
) -> bool {
    &&& forall|i: int, j: int| 0 <= i < j < ids.len() ==> ids[i] < ids[j]
    &&& forall|id: u64| #[trigger]
        ids.contains(id) <==> registry.grants.contains_key(id) && registry.grants[id].sandbox == name
            && registry.grants[id].lifetime.over(now)
}

/// How the end of a grant reads in a log line.
pub open spec fn expired_body(grant_id: u64) -> Seq<char> {
    "grant-expired grant="@ + text::decimal(grant_id as nat) + " lifetime=duration"@
}

fn format_expired_body(grant_id: u64) -> (body: String)
    ensures
        body@ == expired_body(grant_id),
{
    let mut body = "grant-expired grant=".to_owned();
    body.append(text::decimal_of(grant_id).as_str());
    body.append(" lifetime=duration");
    body
}

/// The lines about grants that are over.
pub open spec fn expiry_lines(first: int, ids: Seq<u64>) -> Seq<EventView> {
    Seq::new(ids.len(), |i: int| ((first + i) as u64, expired_body(ids[i])))
}

impl RegistryView {
    /// The registry without the grants of the sandbox that are over, with
    /// `count` numbers handed out.
    pub open spec fn pruned(self, name: Seq<char>, now: Timestamp, count: nat) -> Self {
        RegistryView {
            grants: self.unexpired(name, now),
            next_id: (self.next_id + count) as u64,
            ..self
        }
    }
}

/// There is a number for every grant of the sandbox that is over, and `count`
/// more.
pub open spec fn room_to_authorize(
    registry: RegistryView,
    name: Seq<char>,
    now: Timestamp,
    count: nat,
) -> bool {
    forall|ids: Seq<u64>| #[trigger]
        expired_listing(registry, name, now, ids) ==> registry.next_id + ids.len() + count
            <= u64::MAX
}

/// An effect to ask for: the line about it and the request that is to wait.
#[derive(Debug)]
pub struct Ask {
    pub event: LogEvent,
    pub request: PendingReadWriteRequest,
}

/// What an effect to ask for says.
#[verifier::ext_equal]
pub struct AskView {
    pub event: EventView,
    pub request: ReadWriteRequestView,
}

impl View for Ask {
    type V = AskView;

    open spec fn view(&self) -> AskView {
        AskView { event: (self.event.id, self.event.body@), request: self.request@ }
    }
}

/// What the effects to ask for say.
pub open spec fn ask_views(asks: Seq<Ask>) -> Seq<AskView> {
    asks.map_values(|ask: Ask| ask@)
}

/// What a read or write leads to.
#[derive(Debug)]
pub enum Authorization {
    /// No rule guards its effects.
    Free,
    /// Grants cover every guarded effect; the lines are to be written as far as
    /// they can be.
    Granted { log_path: HostPath, events: Vec<LogEvent> },
    /// Each of the requests is to wait once its line is written, and the
    /// operation for all of them; the other lines are to be written as far as
    /// they can be.
    Ask { log_path: HostPath, events: Vec<LogEvent>, asks: Vec<Ask> },
}

/// Who asks for a read or write, and when.
pub struct AskerView {
    pub name: Seq<char>,
    pub attach_id: Option<u64>,
    pub requester: RequesterIdentity,
    pub identity: Option<ProcessIdentityEvidence>,
    pub now: Timestamp,
}

/// Some grant covers the effect.
pub open spec fn is_covered(registry: RegistryView, asker: AskerView, effect: EffectView) -> bool {
    exists|id: u64| #[trigger]
        registry.grants.contains_key(id) && registry.grants[id].covers(
            asker.name,
            effect.kind,
            effect.path,
            asker.identity,
            asker.now,
        )
}

/// The grant that covers the effect: the earliest one.
pub open spec fn cover_of(registry: RegistryView, asker: AskerView, effect: EffectView) -> u64 {
    choose|id: u64|
        registry.first_cover(
            id,
            asker.name,
            effect.kind,
            effect.path,
            asker.identity,
            asker.now,
        )
}

impl RegistryView {
    /// The registry after a grant let an effect pass: one for a single use is
    /// used up.
    pub open spec fn using_grant(self, grant_id: u64) -> Self {
        if self.grants[grant_id].lifetime is OneShot {
            RegistryView { grants: self.grants.remove(grant_id), ..self.numbered() }
        } else {
            self
        }
    }

    /// The lines about a grant that let an effect pass.
    pub open spec fn use_lines(self, grant_id: u64) -> Seq<EventView> {
        if self.grants[grant_id].lifetime is OneShot {
            seq![(self.next_id, grant_allow::consumed_body(grant_id))]
        } else {
            Seq::empty()
        }
    }

    /// The registry without the reads and writes of the numbers, and without
    /// their waiters.
    pub open spec fn withdrawn(self, ids: Seq<u64>) -> Self {
        RegistryView {
            pending_read_write: self.pending_read_write.remove_keys(ids.to_set()),
            waiters: self.waiters.difference(ids.to_set()),
            ..self
        }
    }
}

/// How far the guarded effects of an operation got: what is left of the
/// registry, the lines to write and the effects to ask for.
#[verifier::ext_equal]
pub struct SettlementView {
    pub registry: RegistryView,
    pub events: Seq<EventView>,
    pub asks: Seq<AskView>,
}

/// What becomes of one more guarded effect: a grant covers it, or it is to be
/// asked for.
pub open spec fn after_effect(
    sofar: SettlementView,
    asker: AskerView,
    operation: ReadWriteOperation,
    effect: EffectView,
) -> SettlementView {
    let registry = sofar.registry;
    if is_covered(registry, asker, effect) {
        let grant_id = cover_of(registry, asker, effect);
        SettlementView {
            registry: registry.using_grant(grant_id),
            events: sofar.events + registry.use_lines(grant_id),
            asks: sofar.asks,
        }
    } else {
        SettlementView {
            registry: registry.numbered(),
            events: sofar.events,
            asks: sofar.asks.push(
                AskView {
                    event: (
                        registry.next_id,
                        metadata_request::pending_body(asker.attach_id, effect.description),
                    ),
                    request: ReadWriteRequestView {
                        process_identity: asker.identity,
                        ..pending::effect_request(
                            registry.next_id,
                            asker.name,
                            asker.attach_id,
                            operation,
                            effect,
                            asker.requester,
                        )
                    },
                },
            ),
        }
    }
}

/// What becomes of the guarded effects of an operation, one after the other.
pub open spec fn settled(
    start: RegistryView,
    asker: AskerView,
    operation: ReadWriteOperation,
    effects: Seq<EffectView>,
) -> SettlementView
    decreases effects.len(),
{
    if effects.len() == 0 {
        SettlementView { registry: start, events: Seq::empty(), asks: Seq::empty() }
    } else {
        after_effect(
            settled(start, asker, operation, effects.drop_last()),
            asker,
            operation,
            effects.last(),
        )
    }
}

/// What the settlement of the guarded effects means for the operation.
pub open spec fn authorizes(
    log_path: Seq<char>,
    expiry: Seq<EventView>,
    done: SettlementView,
    result: Authorization,
) -> bool {
    if done.asks.len() == 0 {
        &&& result matches Authorization::Granted { log_path: path, events }
        &&& path@ == log_path
        &&& session::events(events@) == expiry + done.events
    } else {
        &&& result matches Authorization::Ask { log_path: path, events, asks }
        &&& path@ == log_path
        &&& session::events(events@) == expiry + done.events
        &&& ask_views(asks@) == done.asks
    }
}

proof fn lemma_earliest_cover(
    registry: RegistryView,
    asker: AskerView,
    effect: EffectView,
    grant_id: u64,
)
    requires
        registry.first_cover(
            grant_id,
            asker.name,
            effect.kind,
            effect.path,
            asker.identity,
            asker.now,
        ),
    ensures
        is_covered(registry, asker, effect),
        cover_of(registry, asker, effect) == grant_id,
{
    assert(registry.grants.contains_key(grant_id));
    let other = cover_of(registry, asker, effect);
    assert(registry.first_cover(
        other,
        asker.name,
        effect.kind,
        effect.path,
        asker.identity,
        asker.now,
    ));
    assert(registry.grants.contains_key(other));
}

/// What a read or write leads to as a whole: it is free exactly when no effect
/// of it has to be asked for, and where no grant covers any of these, each of
/// them is asked for.
pub open spec fn decided_by_rules(
    before: RegistryView,
    asker: AskerView,
    guarded: Seq<EffectView>,
    result: Result<Authorization, Errno>,
) -> bool {
    let uncovered = forall|i: int|
        0 <= i < guarded.len() ==> !is_covered(before, asker, #[trigger] guarded[i]);
    &&& result is Ok <==> before.sandboxes.contains_key(asker.name)
    &&& result is Ok ==> (result->Ok_0 is Free <==> guarded.len() == 0)
    &&& result is Ok && guarded.len() > 0 && uncovered ==> {
        &&& result->Ok_0 is Ask
        &&& result->Ok_0->asks.len() == guarded.len()
        &&& forall|i: int|
            0 <= i < guarded.len() ==> {
                let request = (#[trigger] result->Ok_0->asks@[i])@.request;
                &&& request.kind == guarded[i].kind
                &&& request.path == guarded[i].path
                &&& request.sandbox == asker.name
                &&& request.process_identity == asker.identity
            }
    }
}

impl SandboxFs {
    /// The host paths that the effects of a read or write are on, so that the
    /// caller can tell which of them are directories.
    pub fn authorization_targets(&self, registry: &SandboxRegistry, operation: &ReadWriteOperation) -> (targets:
        Vec<Option<HostPath>>)
        ensures
            targets.len() == operation.effects().len(),
            forall|i: int|
                0 <= i < targets.len() ==> is_target(
                    registry@,
                    self.sandbox_name@,
                    operation.effects()[i].path,
                    #[trigger] targets@[i],
                ),
    {
        let effects = operation.list_effects();
        let mut targets: Vec<Option<HostPath>> = Vec::new();
        for i in 0..effects.len()
            invariant
                targets.len() == i,
                operation::effect_views(effects@) == operation.effects(),
                forall|j: int|
                    0 <= j < i ==> is_target(
                        registry@,
                        self.sandbox_name@,
                        operation.effects()[j].path,
                        #[trigger] targets@[j],
                    ),
        {
            assert(operation.effects()[i as int] == effects@[i as int]@);
            targets.push(self.host_target(registry, &effects[i].path));
        }
        targets
    }

    /// The host path that a path stands for, where it stands for one.
    pub fn host_target(&self, registry: &SandboxRegistry, path: &SandboxPath) -> (target: Option<HostPath>)
        ensures
            is_target(registry@, self.sandbox_name@, *path, target),
    {
        match registry.sandboxes.get(&self.sandbox_name) {
            Some(sandbox) => match sandbox.resolve(path) {
                Some(ResolvedPath::Real { local_path, .. }) => Some(local_path),
                _ => None,
            },
            None => None,
        }
    }

    /// Who asks for a read or write, and when.
    pub open spec fn asker(
        self,
        requester: RequesterIdentity,
        identity: Option<ProcessIdentityEvidence>,
        now: Timestamp,
    ) -> AskerView {
        AskerView {
            name: self.sandbox_name@,
            attach_id: self.attach_id,
            requester,
            identity,
            now,
        }
    }

    /// Decides about a read or write, effect by effect: what no rule guards
    /// passes, what a grant covers passes, and everything else is to be asked
    /// for. `host_dirs` says which of the effects are on directories of the
    /// host; `identity` is who asks.
    pub fn authorize_read_write(
        &self,
        registry: &mut SandboxRegistry,
        requester: RequesterIdentity,
        operation: ReadWriteOperation,
        host_dirs: &Vec<bool>,
        identity: Option<ProcessIdentityEvidence>,
        now: Timestamp,
    ) -> (result: Result<Authorization, Errno>)
        requires
            old(registry)@.grants_in_place(),
            host_dirs.len() == operation.effects().len(),
            room_to_authorize(
                old(registry)@,
                self.sandbox_name@,
                now,
                operation.effects().len(),
            ),
        ensures
            crate::registry::stays_valid(old(registry)@, final(registry)@),
            ({
                let before = old(registry)@;
                let name = self.sandbox_name@;
                let guarded = guarded_effects(
                    before.sandboxes[name],
                    operation.is_about_xattrs(),
                    operation.effects(),
                    host_dirs@,
                );
                if !before.sandboxes.contains_key(name) {
                    &&& result == Err::<Authorization, Errno>(Errno::ENOENT)
                    &&& final(registry)@ == before
                } else if guarded.len() == 0 {
                    &&& result matches Ok(Authorization::Free)
                    &&& final(registry)@ == before
                } else {
                    &&& result is Ok
                    &&& exists|ids: Seq<u64>|
                        {
                            let done = settled(
                                before.pruned(name, now, ids.len()),
                                self.asker(requester, identity, now),
                                operation,
                                guarded,
                            );
                            &&& #[trigger] expired_listing(before, name, now, ids)
                            &&& final(registry)@ == done.registry
                            &&& authorizes(
                                before.sandboxes[name].log_path,
                                expiry_lines(before.next_id as int, ids),
                                done,
                                result->Ok_0,
                            )
                        }
                }
            }),
            decided_by_rules(
                old(registry)@,
                self.asker(requester, identity, now),
                guarded_effects(
                    old(registry)@.sandboxes[self.sandbox_name@],
                    operation.is_about_xattrs(),
                    operation.effects(),
                    host_dirs@,
                ),
                result,
            ),
    {
        let ghost before = registry@;
        let name = self.sandbox_name.as_str();
        let (guarded, log_path) = match registry.sandboxes.get(&self.sandbox_name) {
            Some(sandbox) => (
                list_guarded_effects(sandbox, &operation, host_dirs),
                sandbox.log_path.clone(),
            ),
            None => {
                return Err(Errno::ENOENT);
            },
        };
        let ghost views = operation::effect_views(guarded@);
        if guarded.len() == 0 {
            return Ok(Authorization::Free);
        }
        let (events, ids) = expire_grants(registry, name, now);
        let mut events = events;
        let ghost ids = ids@;
        let ghost expiry = session::events(events@);
        let ghost pruned = registry@;
        let ghost asker = self.asker(requester, identity, now);
        let mut asks: Vec<Ask> = Vec::new();
        assert(ask_views(asks@) =~= Seq::<AskView>::empty());
        assert(session::events(events@) =~= expiry + Seq::<EventView>::empty());
        for i in 0..guarded.len()
            invariant
                views == operation::effect_views(guarded@),
                name@ == self.sandbox_name@,
                asker == self.asker(requester, identity, now),
                crate::registry::stays_valid(pruned, registry@),
                pruned.next_id + guarded.len() <= u64::MAX,
                registry@.next_id <= pruned.next_id + i,
                ({
                    let done = settled(pruned, asker, operation, views.take(i as int));
                    &&& registry@ == done.registry
                    &&& session::events(events@) == expiry + done.events
                    &&& ask_views(asks@) == done.asks
                }),
        {
            let ghost sofar = settled(pruned, asker, operation, views.take(i as int));
            let effect = guarded[i].clone();
            proof {
                assert(views.take(i + 1).drop_last() =~= views.take(i as int));
                assert(views[i as int] == effect@);
                assert(settled(pruned, asker, operation, views.take(i + 1)) == after_effect(
                    sofar,
                    asker,
                    operation,
                    effect@,
                ));
            }
            match registry.match_read_write_grant_for_intent(
                name,
                effect.kind,
                &effect.path,
                identity,
                now,
            ) {
                GrantMatchOutcome::Matched { grant_id, consumed } => {
                    proof {
                        lemma_earliest_cover(sofar.registry, asker, effect@, grant_id);
                    }
                    if consumed {
                        let event_id = registry.next_operation_id();
                        let line = LogEvent {
                            id: event_id,
                            body: grant_allow::format_grant_consumed_body(grant_id),
                        };
                        assert(session::events(events@.push(line)) =~= session::events(
                            events@,
                        ).push((line.id, line.body@)));
                        events.push(line);
                    }
                    assert(registry@ =~= sofar.registry.using_grant(grant_id));
                    assert(session::events(events@) =~= expiry + (sofar.events
                        + sofar.registry.use_lines(grant_id)));
                },
                GrantMatchOutcome::NotMatched => {
                    assert(!is_covered(sofar.registry, asker, effect@));
                    let id = registry.next_operation_id();
                    let body = metadata_request::format_pending_body(
                        self.attach_id,
                        effect.description.as_str(),
                    );
                    let request = PendingReadWriteRequest::for_effect(
                        id,
                        self.sandbox_name.clone(),
                        self.attach_id,
                        operation.clone(),
                        effect,
                        requester,
                    ).with_process_identity(identity);
                    let ask = Ask { event: LogEvent { id, body }, request };
                    assert(ask_views(asks@.push(ask)) =~= ask_views(asks@).push(ask@));
                    asks.push(ask);
                },
            }
        }
        assert(views.take(guarded.len() as int) =~= views);
        let ghost done = settled(pruned, asker, operation, views);
        assert(ask_views(asks@).len() == asks.len());
        assert(expired_listing(before, name@, now, ids));
        proof {
            if forall|i: int|
                0 <= i < views.len() ==> !is_covered(before, asker, #[trigger] views[i]) {
                assert forall|id: u64, i: int|
                    #![trigger pruned.grants.contains_key(id), views[i]]
                    pruned.grants.contains_key(id) && 0 <= i < views.len() implies !pruned.grants[id].covers(
                    asker.name,
                    views[i].kind,
                    views[i].path,
                    asker.identity,
                    asker.now,
                ) by {
                    assert(!is_covered(before, asker, views[i]));
                    assert(before.grants.contains_key(id));
                }
                crate::laws::access::lemma_uncovered_effects_are_asked(
                    pruned,
                    asker,
                    operation,
                    views,
                );
                assert forall|i: int| 0 <= i < asks.len() implies (#[trigger] asks@[i])@
                    == done.asks[i] by {
                    assert(ask_views(asks@)[i] == asks@[i]@);
                }
            }
        }
        if asks.len() == 0 {
            Ok(Authorization::Granted { log_path, events })
        } else {
            Ok(Authorization::Ask { log_path, events, asks })
        }
    }

    /// Makes a read or write wait, unless its line could not be written.
    pub fn commit_read_write_request(
        &self,
        registry: &mut SandboxRegistry,
        request: PendingReadWriteRequest,
        log_failed: bool,
    ) -> (result: Result<u64, Errno>)
        ensures
            if log_failed {
                &&& result == Err::<u64, Errno>(Errno::EIO)
                &&& final(registry)@ == old(registry)@
            } else {
                &&& result == Ok::<u64, Errno>(request.id)
                &&& final(registry)@ == old(registry)@.awaiting(RequestView::ReadWrite(request@))
            },
    {
        if log_failed {
            return Err(Errno::EIO);
        }
        let id = request.id;
        registry.insert_pending_read_write_request(request);
        let _ = registry.pending_waiters.insert(id);
        Ok(id)
    }

    /// Takes requests of an operation back that nobody has to decide about any
    /// more, because another effect of the operation was refused.
    pub fn withdraw_requests(&self, registry: &mut SandboxRegistry, ids: &Vec<u64>)
        ensures
            final(registry)@ == old(registry)@.withdrawn(ids@),
            crate::registry::stays_valid(old(registry)@, final(registry)@),
    {
        let ghost before = registry@;
        assert(before.withdrawn(ids@.take(0)) =~= before);
        for i in 0..ids.len()
            invariant
                registry@ == before.withdrawn(ids@.take(i as int)),
        {
            let id = ids[i];
            let _ = registry.remove_pending_read_write_request(id);
            let _ = registry.pending_waiters.remove(&id);
            proof {
                let taken = ids@.take(i as int);
                assert(ids@.take(i + 1) =~= taken.push(id));
                table::lemma_push_contains(taken, id);
                assert(registry@ =~= before.withdrawn(ids@.take(i + 1)));
            }
        }
        assert(ids@.take(ids.len() as int) =~= ids@);
    }
}

/// The target is the host path that the path stands for.
pub open spec fn is_target(
    registry: RegistryView,
    name: Seq<char>,
    path: SandboxPath,
    target: Option<HostPath>,
) -> bool {
    let resolution = registry.sandboxes[name].resolution(path@);
    if registry.sandboxes.contains_key(name) && resolution is Some && resolution->0 is Real {
        target is Some && target->0@ == resolution->0->local_path
    } else {
        target is None
    }
}

fn expire_grants(registry: &mut SandboxRegistry, name: &str, now: Timestamp) -> (done: (
    Vec<LogEvent>,
    Ghost<Seq<u64>>,
))
    requires
        old(registry)@.grants_in_place(),
        room_to_authorize(old(registry)@, name@, now, 1),
    ensures
        expired_listing(old(registry)@, name@, now, done.1@),
        old(registry)@.next_id + done.1@.len() < u64::MAX,
        final(registry)@ == old(registry)@.pruned(name@, now, done.1@.len()),
        crate::registry::stays_valid(old(registry)@, final(registry)@),
        session::events(done.0@) == expiry_lines(old(registry)@.next_id as int, done.1@),
{
    let ghost before = registry@;
    let removed = registry.prune_expired_read_write_grants_for_sandbox(name, now);
    let ghost ids = removed@.map_values(|grant: ReadWriteAccessGrant| grant.id);
    proof {
        assert forall|id: u64| #[trigger] ids.contains(id) <==> before.grants.contains_key(id)
            && before.grants[id].sandbox == name@ && before.grants[id].lifetime.over(now) by {
            if ids.contains(id) {
                let i = choose|i: int| 0 <= i < ids.len() && ids[i] == id;
                assert(registry::is_expired_grant(before, name@, now, removed@[i]@));
            }
            if before.grants.contains_key(id) && before.grants[id].sandbox == name@
                && before.grants[id].lifetime.over(now) {
                let i = choose|i: int|
                    0 <= i < removed.len() && (#[trigger] removed@[i])@ == before.grants[id];
                assert(ids[i] == removed@[i]@.id);
                assert(ids[i] == id);
            }
        }
        assert(expired_listing(before, name@, now, ids));
    }
    let mut lines: Vec<LogEvent> = Vec::new();
    assert(session::events(lines@) =~= expiry_lines(before.next_id as int, ids).take(0));
    let mut i: usize = 0;
    while i < removed.len()
        invariant
            i <= removed.len(),
            ids == removed@.map_values(|grant: ReadWriteAccessGrant| grant.id),
            before.next_id + ids.len() < u64::MAX,
            registry@ == before.pruned(name@, now, i as nat),
            session::events(lines@) == expiry_lines(before.next_id as int, ids).take(i as int),
        decreases removed.len() - i,
    {
        let event_id = registry.next_operation_id();
        assert(registry@ =~= before.pruned(name@, now, (i + 1) as nat));
        let line = LogEvent { id: event_id, body: format_expired_body(removed[i].id) };
        proof {
            let all = expiry_lines(before.next_id as int, ids);
            assert(all.take(i + 1) =~= all.take(i as int).push((line.id, line.body@)));
            assert(session::events(lines@.push(line)) =~= session::events(lines@).push(
                (line.id, line.body@),
            ));
        }
        lines.push(line);
        i += 1;
    }
    proof {
        let all = expiry_lines(before.next_id as int, ids);
        assert(all.take(ids.len() as int) =~= all);
    }
    (lines, Ghost(ids))
}

} // verus!
