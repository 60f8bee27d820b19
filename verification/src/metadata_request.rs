//! Requests to change metadata: trusted ones are applied, others wait for a
//! decision and supersede what waits for the same parts of the same object.

use vstd::prelude::*;

use crate::attr::Errno;
use crate::decision;
use crate::fs::SandboxFs;
use crate::host::HostPath;
use crate::metadata;
use crate::metadata::MetadataObjectKey;
use crate::metadata::ObjectView;
use crate::metadata::PendingKeyView;
use crate::metadata::PendingOperationKey;
use crate::operation::MetadataOperation;
use crate::path;
use crate::path::SandboxPath;
use crate::pending;
use crate::pending::MetadataRequestView;
use crate::pending::PendingDecision;
use crate::pending::PendingMetadataRequest;
use crate::pending::RequestView;
use crate::pending::RequesterIdentity;
use crate::policy::ProtectionKind;
use crate::registry::RegistryView;
use crate::registry::SandboxRegistry;
use crate::registry::TrustedOperation;
use crate::registry::TrustedView;
use crate::sandbox;
use crate::sandbox::Overlay;
use crate::sandbox::Sandbox;
use crate::sandbox::SandboxView;
use crate::sandbox::TrustedPathScope;
use crate::session;
use crate::session::EventView;
use crate::session::LogEvent;
use crate::session::Notice;
use crate::table;
use crate::text;

verus! {

broadcast use {vstd::string::group_string_axioms, crate::table::group_shown};

/// The scope holds the path: it alone, or what lies below it too.
pub open spec fn in_scope(scope: TrustedPathScope, at: Seq<Seq<char>>) -> bool {
    if scope.recursive {
        path::under(at, scope.path@)
    } else {
        at == scope.path@
    }
}

/// The trusted operation may change the metadata of the path for the process.
pub open spec fn trusts(
    trusted: TrustedView,
    name: Seq<char>,
    pid: u32,
    uid: u32,
    at: Seq<Seq<char>>,
) -> bool {
    &&& trusted.sandbox == name
    &&& trusted.pid == Some(pid)
    &&& trusted.uid == Some(uid)
    &&& exists|i: int| 0 <= i < trusted.paths.len() && in_scope(#[trigger] trusted.paths[i], at)
}

/// Some trusted operation may change the metadata of the path for the process.
pub open spec fn is_trusted(
    registry: RegistryView,
    name: Seq<char>,
    pid: u32,
    uid: u32,
    at: Seq<Seq<char>>,
) -> bool {
    exists|token: Seq<char>| #[trigger]
        registry.trusted.contains_key(token) && trusts(registry.trusted[token], name, pid, uid, at)
}

fn holds_path(scopes: &Vec<TrustedPathScope>, at: &SandboxPath) -> (found: bool)
    ensures
        found == exists|i: int| 0 <= i < scopes.len() && in_scope(#[trigger] scopes@[i], at@),
{
    for i in 0..scopes.len()
        invariant
            forall|j: int| 0 <= j < i ==> !in_scope(#[trigger] scopes@[j], at@),
    {
        let inside = if scopes[i].recursive {
            at.starts_with(&scopes[i].path)
        } else {
            *at == scopes[i].path
        };
        if inside {
            assert(in_scope(scopes@[i as int], at@));
            return true;
        }
    }
    false
}

/// The number of a trusted operation that may change the metadata of the path
/// for the process, where there is one.
pub fn trusted_operation_id(
    registry: &SandboxRegistry,
    sandbox_name: &str,
    pid: u32,
    uid: u32,
    path: &SandboxPath,
) -> (found: Option<u64>)
    ensures
        match found {
            Some(id) => exists|token: Seq<char>|
                {
                    &&& #[trigger] registry@.trusted.contains_key(token)
                    &&& trusts(registry@.trusted[token], sandbox_name@, pid, uid, path@)
                    &&& registry@.trusted[token].id == id
                },
            None => !is_trusted(registry@, sandbox_name@, pid, uid, path@),
        },
{
    let n = registry.trusted.len();
    let ghost tokens = registry.trusted.ordered_keys();
    let mut i: usize = 0;
    while i < n
        invariant
            i <= n == tokens.len(),
            tokens == registry.trusted.ordered_keys(),
            tokens.to_set() == registry.trusted@.dom(),
            forall|j: int|
                0 <= j < i ==> !trusts(
                    registry@.trusted[#[trigger] tokens[j]],
                    sandbox_name@,
                    pid,
                    uid,
                    path@,
                ),
        decreases n - i,
    {
        assert(tokens.to_set().contains(tokens[i as int]));
        let trusted: &TrustedOperation = registry.trusted.value_at(i);
        let same_process = match (trusted.pid, trusted.uid) {
            (Some(p), Some(u)) => p == pid && u == uid,
            _ => false,
        };
        if text::same_text(trusted.sandbox.as_str(), sandbox_name) && same_process && holds_path(
            &trusted.paths,
            path,
        ) {
            assert(registry@.trusted.contains_key(tokens[i as int]));
            assert(registry@.trusted[tokens[i as int]] == trusted@);
            proof {
                let k = choose|k: int|
                    0 <= k < trusted.paths.len() && in_scope(#[trigger] trusted.paths@[k], path@);
                assert(in_scope(trusted@.paths[k], path@));
                assert(trusts(trusted@, sandbox_name@, pid, uid, path@));
            }
            return Some(trusted.id);
        }
        i += 1;
    }
    proof {
        if is_trusted(registry@, sandbox_name@, pid, uid, path@) {
            let token = choose|token: Seq<char>| #[trigger]
                registry@.trusted.contains_key(token) && trusts(
                    registry@.trusted[token],
                    sandbox_name@,
                    pid,
                    uid,
                    path@,
                );
            assert(tokens.to_set().contains(token));
            let j = choose|j: int| 0 <= j < tokens.len() && tokens[j] == token;
            assert(!trusts(registry@.trusted[tokens[j]], sandbox_name@, pid, uid, path@));
        }
    }
    None
}

/// Whether a trusted operation may change the metadata of the path for the
/// process.
pub fn is_trusted_operation(
    registry: &SandboxRegistry,
    sandbox_name: &str,
    pid: u32,
    uid: u32,
    path: &SandboxPath,
) -> (trusted: bool)
    ensures
        trusted == is_trusted(registry@, sandbox_name@, pid, uid, path@),
{
    trusted_operation_id(registry, sandbox_name, pid, uid, path).is_some()
}

/// The object that a request on a path is about. A directory that exists only
/// in the overlay stands for an object that no layer has.
pub open spec fn request_object(sandbox: SandboxView, at: Seq<Seq<char>>) -> ObjectView {
    match sandbox.object_key(at) {
        Some(key) => key,
        None => ObjectView { layer_id: metadata::NO_LAYER, relative_path: at },
    }
}

fn object_of_request(sandbox: &Sandbox, at: &SandboxPath) -> (object: MetadataObjectKey)
    ensures
        object@ == request_object(sandbox@, at@),
{
    match sandbox.metadata_object_key(at) {
        Some(key) => key,
        None => {
            let root = SandboxPath::root();
            assert(at@.subrange(0, 0) =~= root@);
            assert(at@.skip(0) =~= at@);
            let relative_path = match at.strip_prefix(&root) {
                Ok(rest) => rest,
                Err(_) => String::new(),
            };
            proof {
                path::lemma_names_are_normal(*at);
                path::lemma_relative_parts(at@);
            }
            MetadataObjectKey { layer_id: metadata::NO_LAYER, relative_path }
        },
    }
}

/// The requests that hold one of the keys, each once, in the order of the keys.
pub open spec fn superseded(index: Map<PendingKeyView, u64>, keys: Seq<PendingKeyView>) -> Seq<u64>
    decreases keys.len(),
{
    if keys.len() == 0 {
        Seq::empty()
    } else {
        let rest = superseded(index, keys.drop_last());
        let key = keys.last();
        if index.contains_key(key) && !rest.contains(index[key]) {
            rest.push(index[key])
        } else {
            rest
        }
    }
}

/// The superseded requests are different ones, at most one for each key, and
/// they are just those that hold one of the keys.
pub proof fn lemma_superseded(index: Map<PendingKeyView, u64>, keys: Seq<PendingKeyView>)
    ensures
        superseded(index, keys).len() <= keys.len(),
        forall|i: int, j: int|
            0 <= i < j < superseded(index, keys).len() ==> superseded(index, keys)[i] != superseded(
                index,
                keys,
            )[j],
        forall|id: u64| #[trigger]
            superseded(index, keys).contains(id) <==> exists|k: int|
                0 <= k < keys.len() && index.contains_key(#[trigger] keys[k]) && index[keys[k]] == id,
    decreases keys.len(),
{
    if keys.len() > 0 {
        let front = keys.drop_last();
        let rest = superseded(index, front);
        let all = superseded(index, keys);
        let key = keys.last();
        lemma_superseded(index, front);
        table::lemma_push_contains(rest, index[key]);
        assert forall|i: int, j: int| 0 <= i < j < all.len() implies all[i] != all[j] by {
            if j < rest.len() {
                assert(rest[i] != rest[j]);
            } else {
                assert(rest.contains(rest[i]));
            }
        }
        assert forall|id: u64| #[trigger] all.contains(id) <==> exists|k: int|
            0 <= k < keys.len() && index.contains_key(#[trigger] keys[k]) && index[keys[k]] == id by {
            assert(rest.contains(id) <==> exists|k: int|
                0 <= k < front.len() && index.contains_key(#[trigger] front[k]) && index[front[k]]
                    == id);
            if rest.contains(id) {
                let k = choose|k: int|
                    0 <= k < front.len() && index.contains_key(#[trigger] front[k])
                        && index[front[k]] == id;
                assert(keys[k] == front[k]);
            }
            if exists|k: int|
                0 <= k < keys.len() && index.contains_key(#[trigger] keys[k]) && index[keys[k]] == id {
                let k = choose|k: int|
                    0 <= k < keys.len() && index.contains_key(#[trigger] keys[k]) && index[keys[k]]
                        == id;
                if k < front.len() {
                    assert(front[k] == keys[k]);
                }
            }
            assert(keys[keys.len() - 1] == key);
        }
    }
}

fn superseded_ids(registry: &SandboxRegistry, keys: &Vec<PendingOperationKey>, Ghost(views): Ghost<
    Seq<PendingKeyView>,
>) -> (ids: Vec<u64>)
    requires
        views.len() == keys.len(),
        forall|i: int| 0 <= i < keys.len() ==> (#[trigger] keys@[i])@ == views[i],
    ensures
        ids@ == superseded(registry@.index, views),
{
    let mut ids: Vec<u64> = Vec::new();
    for i in 0..keys.len()
        invariant
            views.len() == keys.len(),
            forall|j: int| 0 <= j < keys.len() ==> (#[trigger] keys@[j])@ == views[j],
            ids@ == superseded(registry@.index, views.take(i as int)),
    {
        assert(views.take(i + 1).drop_last() =~= views.take(i as int));
        assert(keys@[i as int]@ == views[i as int]);
        if let Some(id) = registry.pending_index.get(&keys[i]) {
            if !holds_number(&ids, *id) {
                ids.push(*id);
            }
        }
    }
    assert(views.take(keys.len() as int) =~= views);
    ids
}

fn holds_number(numbers: &Vec<u64>, number: u64) -> (found: bool)
    ensures
        found == numbers@.contains(number),
{
    for i in 0..numbers.len()
        invariant
            forall|j: int| 0 <= j < i ==> numbers@[j] != number,
    {
        if numbers[i] == number {
            assert(numbers@[i as int] == number);
            return true;
        }
    }
    false
}

/// The verb of the decision about a superseded request.
pub open spec fn superseded_verb() -> Seq<char> {
    "DENY reason=superseded"@
}

/// The lines about superseded requests.
pub open spec fn supersede_lines(before: RegistryView, ids: Seq<u64>) -> Seq<EventView> {
    Seq::new(
        ids.len(),
        |i: int|
            (
                (before.next_id + i) as u64,
                decision::decision_body(ids[i], before.pending[ids[i]].attach_id, superseded_verb()),
            ),
    )
}

/// The pending requests with the numbers.
pub open spec fn requests_with(before: RegistryView, ids: Seq<u64>) -> Seq<RequestView> {
    ids.map_values(|id: u64| before.request(id)->0)
}

/// How a request that starts to wait reads in a log line.
pub open spec fn pending_body(attach_id: Option<u64>, description: Seq<char>) -> Seq<char> {
    "pending"@ + session::attach_field(attach_id) + " "@ + description
}

/// How a request that starts to wait reads in a log line.
pub fn format_pending_body(attach_id: Option<u64>, description: &str) -> (body: String)
    ensures
        body@ == pending_body(attach_id, description@),
{
    let mut body = "pending".to_owned();
    body.append(session::format_attach_field(attach_id).as_str());
    body.append(" ");
    body.append(description);
    body
}

/// How a change by a trusted operation reads in a log line.
pub open spec fn trusted_body(trusted_id: u64, operation: MetadataOperation) -> Seq<char> {
    "trusted trusted="@ + text::decimal(trusted_id as nat) + " "@ + operation.body()
}

/// A fresh request about metadata.
pub open spec fn fresh_metadata_request(
    id: u64,
    sandbox: Seq<char>,
    attach_id: Option<u64>,
    operation: MetadataOperation,
    object: ObjectView,
    requester: RequesterIdentity,
) -> MetadataRequestView {
    MetadataRequestView {
        id,
        sandbox,
        attach_id,
        operation,
        object,
        kinds: operation.parts(),
        pid: requester.pid,
        uid: requester.uid,
        gid: requester.gid,
        description: operation.body(),
    }
}

/// What a request to change metadata leads to.
#[derive(Debug)]
pub enum MetadataStep {
    /// There is nothing to change.
    Unchanged,
    /// The change was made.
    Applied,
    /// The change is to be made once the line is written.
    Trusted { log_path: HostPath, event: LogEvent },
    /// The request is to wait once the lines are written; callers of
    /// superseded requests are to be woken in any case.
    Ask {
        log_path: HostPath,
        events: Vec<LogEvent>,
        notices: Vec<Notice>,
        request: PendingMetadataRequest,
    },
}

/// The request supersedes others and is ready to wait.
pub open spec fn asks(
    before: RegistryView,
    after: RegistryView,
    name: Seq<char>,
    attach_id: Option<u64>,
    requester: RequesterIdentity,
    operation: MetadataOperation,
    log_path: Seq<char>,
    events: Seq<EventView>,
    notices: Seq<Notice>,
    request: MetadataRequestView,
) -> bool {
    let sandbox = before.sandboxes[name];
    let object = request_object(sandbox, operation.subject()@);
    let ids = superseded(before.index, pending::claimed_keys(name, object, operation.parts()));
    let id = (before.next_id + ids.len()) as u64;
    &&& after == before.without_all(ids).numbered()
    &&& log_path == sandbox.log_path
    &&& events == supersede_lines(before, ids).push((id, pending_body(attach_id, operation.body())))
    &&& notices == decision::woken_all(
        before.waiters,
        requests_with(before, ids),
        PendingDecision::Deny,
    )
    &&& request == fresh_metadata_request(id, name, attach_id, operation, object, requester)
}

/// A trusted operation makes the change: one line is to be written first.
pub open spec fn goes_trusted(
    before: RegistryView,
    after: RegistryView,
    name: Seq<char>,
    requester: RequesterIdentity,
    operation: MetadataOperation,
    log_path: Seq<char>,
    event: EventView,
) -> bool {
    &&& after == before.numbered()
    &&& log_path == before.sandboxes[name].log_path
    &&& event.0 == before.next_id
    &&& exists|token: Seq<char>|
        {
            &&& #[trigger] before.trusted.contains_key(token)
            &&& trusts(
                before.trusted[token],
                name,
                requester.pid,
                requester.uid,
                operation.subject()@,
            )
            &&& event.1 == trusted_body(before.trusted[token].id, operation)
        }
}

/// What a request to change metadata leads to when nothing lets it pass. A path
/// that stands for nothing is answered as missing, whoever asks.
pub open spec fn begins(
    before: RegistryView,
    after: RegistryView,
    name: Seq<char>,
    attach_id: Option<u64>,
    requester: RequesterIdentity,
    operation: MetadataOperation,
    result: Result<MetadataStep, Errno>,
) -> bool {
    let at = operation.subject()@;
    if !before.shows(name, at) {
        result == Err::<MetadataStep, Errno>(Errno::ENOENT) && after == before
    } else if is_trusted(before, name, requester.pid, requester.uid, at) {
        result matches Ok(MetadataStep::Trusted { log_path, event }) && goes_trusted(
            before,
            after,
            name,
            requester,
            operation,
            log_path@,
            (event.id, event.body@),
        )
    } else if operation.parts().len() == 0 {
        result matches Ok(MetadataStep::Unchanged) && after == before
    } else {
        result matches Ok(MetadataStep::Ask { log_path, events, notices, request }) && asks(
            before,
            after,
            name,
            attach_id,
            requester,
            operation,
            log_path@,
            session::events(events@),
            notices@,
            request@,
        )
    }
}

/// Whether a directory shows at the path.
pub open spec fn shows_directory(sandbox: SandboxView, at: SandboxPath, host_is_dir: bool) -> bool {
    match sandbox.overlay(at@) {
        Overlay::VirtualDir => true,
        Overlay::Real(_) => host_is_dir,
        _ => false,
    }
}

/// Whether an effect on the path has to be asked for. A rule that lets it pass
/// wins over one that protects it, and rules reach only paths that stand for
/// something.
pub open spec fn guarded(
    sandbox: SandboxView,
    kind: ProtectionKind,
    at: SandboxPath,
    host_is_dir: bool,
) -> bool {
    let is_dir = shows_directory(sandbox, at, host_is_dir);
    &&& sandbox.resolution(at@) is Some
    &&& !sandbox.passes(kind, at.text(), is_dir)
    &&& sandbox.protects(kind, at.text(), is_dir)
}

/// Whether an effect on the path has to be asked for.
pub fn needs_authorization(
    sandbox: &Sandbox,
    kind: ProtectionKind,
    path: &SandboxPath,
    host_is_dir: bool,
) -> (needed: bool)
    ensures
        needed == guarded(sandbox@, kind, *path, host_is_dir),
{
    let is_dir = sandbox.path_is_directory(path, host_is_dir);
    sandbox.resolve(path).is_some() && !sandbox.is_passthrough(kind, path, is_dir)
        && sandbox.is_protected(kind, path, is_dir)
}

/// What a change of metadata leads to: it is made at once where it is neither
/// trusted nor guarded, and goes through a request otherwise.
pub open spec fn changes(
    before: RegistryView,
    after: RegistryView,
    name: Seq<char>,
    attach_id: Option<u64>,
    requester: RequesterIdentity,
    operation: MetadataOperation,
    host_is_dir: bool,
    result: Result<MetadataStep, Errno>,
) -> bool {
    let sandbox = before.sandboxes[name];
    let at = operation.subject();
    if !before.shows(name, at@) {
        result == Err::<MetadataStep, Errno>(Errno::ENOENT) && after == before
    } else if !is_trusted(before, name, requester.pid, requester.uid, at@)
        && operation.parts().len() > 0 && !guarded(
        sandbox,
        ProtectionKind::Metadata,
        at,
        host_is_dir,
    ) {
        match sandbox.object_key(at@) {
            Some(key) => {
                &&& result matches Ok(MetadataStep::Applied)
                &&& after == before.with_sandbox(name, sandbox.after_override(key, operation))
            },
            None => result == Err::<MetadataStep, Errno>(Errno::ENOTSUP) && after == before,
        }
    } else {
        begins(before, after, name, attach_id, requester, operation, result)
    }
}

impl SandboxFs {
    /// Starts a request to change metadata. A trusted one is to be logged and
    /// then made; any other supersedes what waits for the same parts of the
    /// same object and waits itself. Nothing waits for a path that stands for
    /// nothing.
    pub fn begin_metadata_request(
        &self,
        registry: &mut SandboxRegistry,
        requester: RequesterIdentity,
        operation: MetadataOperation,
    ) -> (result: Result<MetadataStep, Errno>)
        requires
            old(registry)@.cancelable(),
            old(registry)@.next_id + operation.parts().len() < u64::MAX,
        ensures
            begins(
                old(registry)@,
                final(registry)@,
                self.sandbox_name@,
                self.attach_id,
                requester,
                operation,
                result,
            ),
            crate::registry::stays_valid(old(registry)@, final(registry)@),
    {
        let name = self.sandbox_name.as_str();
        let (log_path, object) = match registry.sandboxes.get(&self.sandbox_name) {
            Some(sandbox) => {
                if sandbox.resolve(operation.path()).is_none() {
                    return Err(Errno::ENOENT);
                }
                (sandbox.log_path.clone(), object_of_request(sandbox, operation.path()))
            },
            None => {
                return Err(Errno::ENOENT);
            },
        };
        if let Some(trusted_id) = trusted_operation_id(
            registry,
            name,
            requester.pid,
            requester.uid,
            operation.path(),
        ) {
            assert(is_trusted(
                registry@,
                name@,
                requester.pid,
                requester.uid,
                operation.subject()@,
            ));
            let id = registry.next_operation_id();
            let mut body = "trusted trusted=".to_owned();
            body.append(text::decimal_of(trusted_id).as_str());
            body.append(" ");
            body.append(operation.event_body().as_str());
            return Ok(MetadataStep::Trusted { log_path, event: LogEvent { id, body } });
        }
        let kinds = operation.pending_kinds();
        if kinds.len() == 0 {
            return Ok(MetadataStep::Unchanged);
        }
        let keys = pending::pending_metadata_keys(name, &object, &kinds);
        let ids = superseded_ids(
            registry,
            &keys,
            Ghost(pending::claimed_keys(name@, object@, kinds@)),
        );
        proof {
            lemma_superseded(
                registry@.index,
                pending::claimed_keys(name@, object@, operation.parts()),
            );
        }
        let (events, notices) = supersede(registry, &ids);
        let id = registry.next_operation_id();
        let description = operation.event_body();
        let mut events = events;
        let line = LogEvent { id, body: format_pending_body(self.attach_id, description.as_str()) };
        assert(session::events(events@.push(line)) =~= session::events(events@).push(
            (line.id, line.body@),
        ));
        events.push(line);
        let request = PendingMetadataRequest {
            id,
            sandbox: self.sandbox_name.clone(),
            attach_id: self.attach_id,
            operation,
            object,
            kinds,
            pid: requester.pid,
            uid: requester.uid,
            gid: requester.gid,
            description,
        };
        Ok(MetadataStep::Ask { log_path, events, notices, request })
    }

    /// Changes metadata as the rules say: a trusted or guarded change goes
    /// through a request, any other is made at once. `host_is_dir` says whether
    /// the host path of the object is a directory.
    pub fn change_metadata(
        &self,
        registry: &mut SandboxRegistry,
        requester: RequesterIdentity,
        operation: MetadataOperation,
        host_is_dir: bool,
    ) -> (result: Result<MetadataStep, Errno>)
        requires
            old(registry)@.cancelable(),
            old(registry)@.next_id + operation.parts().len() < u64::MAX,
        ensures
            crate::registry::stays_valid(old(registry)@, final(registry)@),
            changes(
                old(registry)@,
                final(registry)@,
                self.sandbox_name@,
                self.attach_id,
                requester,
                operation,
                host_is_dir,
                result,
            ),
    {
        let ghost before = registry@;
        let trusted = is_trusted_operation(
            registry,
            self.sandbox_name.as_str(),
            requester.pid,
            requester.uid,
            operation.path(),
        );
        let guard = match registry.sandboxes.get(&self.sandbox_name) {
            Some(sandbox) => {
                if sandbox.resolve(operation.path()).is_none() {
                    return Err(Errno::ENOENT);
                }
                needs_authorization(
                    sandbox,
                    ProtectionKind::Metadata,
                    operation.path(),
                    host_is_dir,
                )
            },
            None => {
                return Err(Errno::ENOENT);
            },
        };
        if trusted || guard || operation.pending_kinds().len() == 0 {
            return self.begin_metadata_request(registry, requester, operation);
        }
        match self.apply_at_path(registry, &operation) {
            Ok(_) => Ok(MetadataStep::Applied),
            Err(errno) => Err(errno),
        }
    }

    /// Makes a request wait, unless its lines could not be written.
    pub fn commit_metadata_request(
        &self,
        registry: &mut SandboxRegistry,
        request: PendingMetadataRequest,
        log_failed: bool,
    ) -> (result: Result<u64, Errno>)
        ensures
            if log_failed {
                &&& result == Err::<u64, Errno>(Errno::EIO)
                &&& final(registry)@ == old(registry)@
            } else {
                &&& result == Ok::<u64, Errno>(request.id)
                &&& final(registry)@ == old(registry)@.awaiting(RequestView::Metadata(request@))
            },
    {
        if log_failed {
            return Err(Errno::EIO);
        }
        let id = request.id;
        registry.insert_pending_request(request);
        let _ = registry.pending_waiters.insert(id);
        Ok(id)
    }

    /// Makes a trusted change, unless its line could not be written.
    pub fn commit_trusted_change(
        &self,
        registry: &mut SandboxRegistry,
        operation: &MetadataOperation,
        log_failed: bool,
    ) -> (result: Result<(), Errno>)
        ensures
            crate::registry::stays_valid(old(registry)@, final(registry)@),
            if log_failed {
                &&& result == Err::<(), Errno>(Errno::EIO)
                &&& final(registry)@ == old(registry)@
            } else {
                applies_at_path(
                    old(registry)@,
                    final(registry)@,
                    self.sandbox_name@,
                    *operation,
                    result,
                )
            },
    {
        if log_failed {
            return Err(Errno::EIO);
        }
        self.apply_at_path(registry, operation)
    }

    fn apply_at_path(&self, registry: &mut SandboxRegistry, operation: &MetadataOperation) -> (result:
        Result<(), Errno>)
        ensures
            applies_at_path(
                old(registry)@,
                final(registry)@,
                self.sandbox_name@,
                *operation,
                result,
            ),
            crate::registry::stays_valid(old(registry)@, final(registry)@),
    {
        let ghost sandboxes = registry@.sandboxes;
        let result = match registry.sandboxes.get_mut(&self.sandbox_name) {
            Some(sandbox) => match sandbox.apply_metadata_override(operation) {
                Ok(_) => Ok(()),
                Err(_) => {
                    assert(sandboxes.insert(
                        self.sandbox_name@,
                        sandboxes[self.sandbox_name@],
                    ) =~= sandboxes);
                    Err(Errno::ENOTSUP)
                },
            },
            None => Err(Errno::ENOENT),
        };
        proof {
            let before = old(registry)@;
            let name = self.sandbox_name@;
            crate::registry::lemma_same_requests(before, registry@);
            if before.sandboxes.contains_key(name) {
                if let Some(key) = before.sandboxes[name].object_key(operation.subject()@) {
                    crate::sandbox::lemma_object_layer_exists(
                        before.sandboxes[name].layers,
                        before.sandboxes[name].hides,
                        operation.subject()@,
                    );
                    crate::registry::lemma_override_stays_sound(before, name, key, *operation);
                }
            }
        }
        result
    }

    /// Makes the change of an allowed request, on the object that the request
    /// was about.
    pub fn apply_pending_operation(
        &self,
        registry: &mut SandboxRegistry,
        object: MetadataObjectKey,
        operation: &MetadataOperation,
    ) -> (result: Result<(), Errno>)
        ensures
            crate::registry::stays_valid(old(registry)@, final(registry)@),
            ({
                let before = old(registry)@;
                let name = self.sandbox_name@;
                let sandbox = before.sandboxes[name];
                if !before.sandboxes.contains_key(name) {
                    &&& result == Err::<(), Errno>(Errno::ENOENT)
                    &&& final(registry)@ == before
                } else if !sandbox.has_layer(object.layer_id) {
                    &&& result == Err::<(), Errno>(Errno::ENOTSUP)
                    &&& final(registry)@ == before
                } else {
                    &&& result is Ok
                    &&& final(registry)@ == before.with_sandbox(
                        name,
                        sandbox.after_override(object@, *operation),
                    )
                }
            }),
    {
        let ghost sandboxes = registry@.sandboxes;
        let ghost key = object@;
        let result = match registry.sandboxes.get_mut(&self.sandbox_name) {
            Some(sandbox) => match sandbox.apply_metadata_override_to_object(
                object,
                operation.path().clone(),
                operation,
            ) {
                Ok(_) => Ok(()),
                Err(_) => {
                    assert(sandboxes.insert(
                        self.sandbox_name@,
                        sandboxes[self.sandbox_name@],
                    ) =~= sandboxes);
                    Err(Errno::ENOTSUP)
                },
            },
            None => Err(Errno::ENOENT),
        };
        proof {
            let before = old(registry)@;
            let name = self.sandbox_name@;
            crate::registry::lemma_same_requests(before, registry@);
            if before.sandboxes.contains_key(name) && before.sandboxes[name].has_layer(key.layer_id) {
                crate::registry::lemma_override_stays_sound(before, name, key, *operation);
            }
        }
        result
    }
}

/// The error that a caller gets for a decision about a change of metadata;
/// there is none when the request was allowed.
pub fn metadata_errno(decision: PendingDecision) -> (errno: Option<Errno>)
    ensures
        errno == match decision {
            PendingDecision::Apply => None::<Errno>,
            PendingDecision::DoNothing => None,
            PendingDecision::Deny => Some(Errno::EPERM),
            PendingDecision::Cancel => Some(Errno::ECANCELED),
        },
{
    match decision {
        PendingDecision::Apply => None,
        PendingDecision::DoNothing => None,
        PendingDecision::Deny => Some(Errno::EPERM),
        PendingDecision::Cancel => Some(Errno::ECANCELED),
    }
}

impl RegistryView {
    /// The path stands for something in the sandbox.
    pub open spec fn shows(self, name: Seq<char>, at: Seq<Seq<char>>) -> bool {
        self.sandboxes.contains_key(name) && self.sandboxes[name].resolution(at) is Some
    }

    /// The registry with one more request, and a caller that waits for it.
    pub open spec fn awaiting(self, request: RequestView) -> Self {
        RegistryView {
            waiters: self.waiters.insert(request.id()),
            ..self.with_request(request)
        }
    }
}

/// A change of metadata is made on the object that the path stands for.
pub open spec fn applies_at_path(
    before: RegistryView,
    after: RegistryView,
    name: Seq<char>,
    operation: MetadataOperation,
    result: Result<(), Errno>,
) -> bool {
    if !before.sandboxes.contains_key(name) {
        result == Err::<(), Errno>(Errno::ENOENT) && after == before
    } else {
        let sandbox = before.sandboxes[name];
        match sandbox.object_key(operation.subject()@) {
            Some(key) => result is Ok && after == before.with_sandbox(
                name,
                sandbox.after_override(key, operation),
            ),
            None => result == Err::<(), Errno>(Errno::ENOTSUP) && after == before,
        }
    }
}

/// When a request waits after superseding others, every part that it claims
/// leads to it alone, requests for other parts or objects wait on as before,
/// and the registry stays consistent.
pub proof fn lemma_superseding(before: RegistryView, request: MetadataRequestView)
    requires
        before.consistent(),
        before.handed_out(),
        ({
            let ids = superseded(before.index, request.claims());
            &&& request.id == before.next_id + ids.len()
            &&& before.next_id + ids.len() < u64::MAX
        }),
    ensures
        ({
            let ids = superseded(before.index, request.claims());
            let after = before.without_all(ids).numbered().awaiting(RequestView::Metadata(request));
            &&& after.consistent()
            &&& after.handed_out()
            &&& after.pending.contains_key(request.id) && after.pending[request.id] == request
            &&& after.waiters.contains(request.id)
            &&& forall|key: PendingKeyView| #[trigger]
                request.claims().contains(key) ==> after.index.contains_key(key) && after.index[key]
                    == request.id
            &&& forall|id: u64|
                #![trigger after.pending.contains_key(id)]
                id != request.id ==> (after.pending.contains_key(id) <==> before.pending.contains_key(id)
                    && forall|key: PendingKeyView|
                    !(before.pending[id].claims().contains(key) && #[trigger] request.claims().contains(
                        key,
                    )))
            &&& forall|id: u64|
                id != request.id && #[trigger] after.pending.contains_key(id) ==> after.pending[id]
                    == before.pending[id]
            &&& after.pending_read_write =~= before.pending_read_write
        }),
{
    let keys = request.claims();
    let ids = superseded(before.index, keys);
    let clean = before.without_all(ids);
    let after = clean.numbered().awaiting(RequestView::Metadata(request));
    lemma_superseded(before.index, keys);
    assert forall|id: u64| #[trigger] ids.contains(id) implies before.pending.contains_key(id) by {
        let k = choose|k: int|
            0 <= k < keys.len() && before.index.contains_key(#[trigger] keys[k])
                && before.index[keys[k]] == id;
        assert(before.index.contains_key(keys[k]));
    }
    assert forall|key: PendingKeyView|
        keys.contains(key) implies !(#[trigger] clean.index.contains_key(key)) by {
        if before.index.contains_key(key) {
            let k = choose|k: int| 0 <= k < keys.len() && keys[k] == key;
            assert(before.index.contains_key(keys[k]));
            assert(ids.contains(before.index[key]));
        }
    }
    assert forall|id: u64| before.pending.contains_key(id) implies (#[trigger] ids.contains(id)
        <==> exists|key: PendingKeyView|
        before.pending[id].claims().contains(key) && #[trigger] keys.contains(key)) by {
        if ids.contains(id) {
            let k = choose|k: int|
                0 <= k < keys.len() && before.index.contains_key(#[trigger] keys[k])
                    && before.index[keys[k]] == id;
            assert(before.index.contains_key(keys[k]));
            assert(keys.contains(keys[k]));
        }
        if exists|key: PendingKeyView|
            before.pending[id].claims().contains(key) && #[trigger] keys.contains(key) {
            let key = choose|key: PendingKeyView|
                before.pending[id].claims().contains(key) && #[trigger] keys.contains(key);
            assert(before.pending[id].claims().contains(key));
            let k = choose|k: int| 0 <= k < keys.len() && keys[k] == key;
            assert(before.index.contains_key(keys[k]));
        }
    }
    assert forall|key: PendingKeyView| #[trigger] after.index.contains_key(key) implies
        after.pending.contains_key(after.index[key]) && after.pending[after.index[key]].claims().contains(
        key,
    ) by {
        if !keys.contains(key) {
            assert(before.index.contains_key(key));
        }
    }
    assert forall|id: u64, key: PendingKeyView|
        #![trigger after.pending[id].claims().contains(key)]
        after.pending.contains_key(id) && after.pending[id].claims().contains(key) implies
        after.index.contains_key(key) && after.index[key] == id by {
        if id != request.id {
            assert(before.pending.contains_key(id));
            assert(before.pending[id].claims().contains(key));
            if keys.contains(key) {
                assert(ids.contains(id));
            }
        }
    }
    assert(after.pending_read_write =~= before.pending_read_write) by {
        assert forall|id: u64| #[trigger] before.pending_read_write.contains_key(id) implies !ids.contains(
            id,
        ) by {
            if ids.contains(id) {
                assert(before.pending.contains_key(id));
            }
        }
    }
}

fn supersede(registry: &mut SandboxRegistry, ids: &Vec<u64>) -> (done: (Vec<LogEvent>, Vec<Notice>))
    requires
        old(registry)@.cancelable(),
        old(registry)@.next_id + ids.len() < u64::MAX,
        forall|i: int, j: int| 0 <= i < j < ids.len() ==> ids@[i] != ids@[j],
        forall|id: u64| #[trigger]
            ids@.contains(id) ==> old(registry)@.pending.contains_key(id),
    ensures
        final(registry)@ == old(registry)@.without_all(ids@),
        crate::registry::stays_valid(old(registry)@, final(registry)@),
        session::events(done.0@) == supersede_lines(old(registry)@, ids@),
        done.1@ == decision::woken_all(
            old(registry)@.waiters,
            requests_with(old(registry)@, ids@),
            PendingDecision::Deny,
        ),
{
    let ghost before = registry@;
    let ghost requests = requests_with(before, ids@);
    let mut lines: Vec<LogEvent> = Vec::new();
    let mut notices: Vec<Notice> = Vec::new();
    proof {
        decision::lemma_without_none(before);
        assert(ids@.take(0) =~= Seq::<u64>::empty());
        assert(session::events(lines@) =~= supersede_lines(before, ids@).take(0));
    }
    let mut i: usize = 0;
    while i < ids.len()
        invariant
            i <= ids.len(),
            before == old(registry)@,
            before.cancelable(),
            before.consistent() ==> registry@.consistent(),
            requests == requests_with(before, ids@),
            before.next_id + ids.len() < u64::MAX,
            forall|a: int, b: int| 0 <= a < b < ids.len() ==> ids@[a] != ids@[b],
            forall|id: u64| #[trigger] ids@.contains(id) ==> before.pending.contains_key(id),
            registry@ == before.without_all(ids@.take(i as int)),
            session::events(lines@) == supersede_lines(before, ids@).take(i as int),
            notices@ == decision::woken_all(
                before.waiters,
                requests.take(i as int),
                PendingDecision::Deny,
            ),
        decreases ids.len() - i,
    {
        let id = ids[i];
        let ghost here = registry@;
        proof {
            assert(ids@.contains(ids@[i as int]));
            assert(!ids@.take(i as int).contains(id)) by {
                if ids@.take(i as int).contains(id) {
                    let k = choose|k: int| 0 <= k < i && ids@.take(i as int)[k] == id;
                    assert(ids@[k] == id);
                }
            }
            decision::lemma_without_all_step(before, ids@.take(i as int), id);
            if before.consistent() {
                decision::lemma_settled_is_consistent(here, id);
            }
            assert(ids@.take(i as int).push(id) =~= ids@.take(i + 1));
            assert(here.pending.contains_key(id));
        }
        let mut attach_id: Option<u64> = None;
        if let Some(request) = registry.remove_pending_request(id) {
            attach_id = request.attach_id;
        }
        let event_id = registry.next_operation_id();
        let waited = registry.pending_waiters.remove(&id);
        assert(registry@ =~= here.settled(id));
        assert(waited == before.waiters.contains(id));
        let line = LogEvent {
            id: event_id,
            body: decision::format_decision_body(id, attach_id, "DENY reason=superseded"),
        };
        proof {
            let all = supersede_lines(before, ids@);
            assert(all.take(i + 1) =~= all.take(i as int).push((line.id, line.body@)));
            assert(session::events(lines@.push(line)) =~= session::events(lines@).push(
                (line.id, line.body@),
            ));
            assert(requests.take(i + 1).drop_last() =~= requests.take(i as int));
            assert(requests[i as int] == before.request(id)->0);
        }
        lines.push(line);
        if waited {
            notices.push(Notice { id, decision: PendingDecision::Deny });
        }
        i += 1;
    }
    proof {
        assert(ids@.take(ids.len() as int) =~= ids@);
        assert(requests.take(ids.len() as int) =~= requests);
        let all = supersede_lines(before, ids@);
        assert(all.take(ids.len() as int) =~= all);
    }
    (lines, notices)
}

} // verus!
