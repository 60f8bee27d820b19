//! What the session keeps: numbers, objects, claims, waiting requests and views.

use vstd::prelude::*;

use crate::attr;
use crate::attr::Errno;
use crate::authorize;
use crate::decision;
use crate::error::Error;
use crate::fs;
use crate::grant_allow;
use crate::host;
use crate::host::HostPath;
use crate::metadata::ObjectView;
use crate::metadata::PendingKeyView;
use crate::metadata_request;
use crate::metadata_request::MetadataStep;
use crate::operation::MetadataOperation;
use crate::operation::PendingOperationKind;
use crate::operation::ReadWriteOperation;
use crate::path;
use crate::path::SandboxPath;
use crate::pending;
use crate::pending::MetadataRequestView;
use crate::pending::PendingDecision;
use crate::pending::ReadWriteRequestView;
use crate::pending::RequestView;
use crate::pending::RequesterIdentity;
use crate::policy::ProtectionKind;
use crate::process_info::ProcessIdentityEvidence;
use crate::registry::RegistryView;
use crate::sandbox;
use crate::sandbox::ResolvedView;
use crate::sandbox::SandboxView;
use crate::sandbox::TrustedPathScope;
use crate::session;
use crate::session::MountedSession;
use crate::session::Notice;
use crate::session::Outcome;
use crate::text;
use crate::time::Timestamp;

verus! {

broadcast use vstd::string::group_string_axioms;

/// The number of the next mount or hide is beyond both counters, so that it is
/// beyond those of all mounts and all hides.
pub proof fn lemma_next_number_is_beyond(s: SandboxView)
    ensures
        s.next_order() >= s.next_layer_id,
        s.next_order() >= s.next_hide_id,
        s.next_order() == s.next_layer_id || s.next_order() == s.next_hide_id,
{
}

/// An override is listed exactly when it sets something and shows under the path
/// that it was set through.
pub proof fn lemma_listed_overrides(s: SandboxView, key: ObjectView)
    ensures
        s.differs(key) <==> {
            &&& s.metadata.contains_key(key)
            &&& s.object_key(s.metadata[key].sandbox_path@) == Some(key)
            &&& s.metadata[key].override_.mode is Some || s.metadata[key].override_.uid is Some
                || s.metadata[key].override_.gid is Some || s.metadata[key].override_.flags is Some
                || s.metadata[key].override_.atime is Some
                || s.metadata[key].override_.mtime is Some
        },
{
}

/// Requests on different paths of a sandbox are about different objects.
pub proof fn lemma_requests_are_about_their_path(
    s: SandboxView,
    a: Seq<Seq<char>>,
    b: Seq<Seq<char>>,
)
    requires
        s.well_ordered(),
        metadata_request::request_object(s, a) == metadata_request::request_object(s, b),
    ensures
        a == b,
        s.object_key(a) is Some ==> metadata_request::request_object(s, a) == s.object_key(a)->0,
        s.object_key(a) is None ==> metadata_request::request_object(s, a).layer_id == 0,
{
    crate::overlay::lemma_object_of_real_path(s, a);
    crate::overlay::lemma_object_of_real_path(s, b);
    if s.object_key(a) is Some {
        let key = s.object_key(a)->0;
        sandbox::lemma_object_layer_exists(s.layers, s.hides, a);
        if s.object_key(b) is Some {
            crate::laws::stacking::lemma_objects_are_apart(s, a, b);
        } else {
            let i = choose|i: int| 0 <= i < s.layers.len() && (#[trigger] s.layers[i]).id == key.layer_id;
            assert(s.layers[i].id > 0);
        }
    } else if s.object_key(b) is Some {
        let key = s.object_key(b)->0;
        sandbox::lemma_object_layer_exists(s.layers, s.hides, b);
        let i = choose|i: int| 0 <= i < s.layers.len() && (#[trigger] s.layers[i]).id == key.layer_id;
        assert(s.layers[i].id > 0);
    }
}

/// A request claims its own parts of its own object in its own sandbox, and
/// nothing else: requests of other sandboxes, on other objects or for other
/// parts have no claim in common with it.
pub proof fn lemma_claims_are_its_own(
    name: Seq<char>,
    object: ObjectView,
    kinds: Seq<PendingOperationKind>,
    key: PendingKeyView,
)
    ensures
        pending::claimed_keys(name, object, kinds).contains(key) <==> key.sandbox == name
            && key.object == object && kinds.contains(key.kind),
        pending::claimed_keys(name, object, kinds).len() == kinds.len(),
{
    let keys = pending::claimed_keys(name, object, kinds);
    if keys.contains(key) {
        let i = choose|i: int| 0 <= i < keys.len() && keys[i] == key;
        assert(kinds[i] == key.kind);
    }
    if key.sandbox == name && key.object == object && kinds.contains(key.kind) {
        let i = choose|i: int| 0 <= i < kinds.len() && kinds[i] == key.kind;
        assert(keys[i] == key);
    }
}

/// A change that is asked for supersedes what waits for a part that it sets of
/// the same object in the same sandbox, and those who wait for that are told
/// that it is denied. Everything else waits on.
pub proof fn lemma_superseded_requests_are_denied(
    before: RegistryView,
    after: RegistryView,
    name: Seq<char>,
    attach_id: Option<u64>,
    requester: RequesterIdentity,
    operation: MetadataOperation,
    result: Result<MetadataStep, Errno>,
    id: u64,
    kind: PendingOperationKind,
)
    requires
        before.consistent(),
        before.sandboxes.contains_key(name),
        metadata_request::begins(before, after, name, attach_id, requester, operation, result),
        result is Ok,
        result->Ok_0 is Ask,
        before.pending.contains_key(id),
        before.next_id + operation.parts().len() < u64::MAX,
    ensures
        ({
            let told = result->Ok_0->Ask_notices@;
            let claim = PendingKeyView {
                sandbox: name,
                object: metadata_request::request_object(
                    before.sandboxes[name],
                    operation.subject()@,
                ),
                kind,
            };
            &&& before.pending[id].claims().contains(claim) && operation.parts().contains(kind)
                ==> !after.pending.contains_key(id) && (before.waiters.contains(id)
                ==> told.contains(Notice { id, decision: PendingDecision::Deny }))
            &&& before.pending[id].sandbox != name || before.pending[id].object != claim.object || (
            forall|part: PendingOperationKind|
                #![trigger operation.parts().contains(part)]
                !(operation.parts().contains(part) && before.pending[id].kinds.contains(part)))
                ==> after.pending.contains_key(id) && after.pending[id] == before.pending[id]
            &&& after.pending.contains_key(id) ==> (after.waiters.contains(id)
                <==> before.waiters.contains(id))
            &&& forall|notice: Notice| #[trigger]
                told.contains(notice) ==> notice.decision is Deny && before.waiters.contains(
                    notice.id,
                ) && !after.pending.contains_key(notice.id)
        }),
{
    let object = metadata_request::request_object(before.sandboxes[name], operation.subject()@);
    let keys = pending::claimed_keys(name, object, operation.parts());
    let ids = metadata_request::superseded(before.index, keys);
    let told = result->Ok_0->Ask_notices@;
    let items = metadata_request::requests_with(before, ids);
    metadata_request::lemma_superseded(before.index, keys);
    let claim = PendingKeyView { sandbox: name, object, kind };
    lemma_claims_are_its_own(name, object, operation.parts(), claim);
    assert forall|x: u64| #[trigger] ids.contains(x) implies before.pending.contains_key(x)
        && before.pending[x].sandbox == name && before.pending[x].object == object && exists|
        part: PendingOperationKind,
    |
        #![trigger operation.parts().contains(part)]
        operation.parts().contains(part) && before.pending[x].kinds.contains(part) by {
        let k = choose|k: int|
            0 <= k < keys.len() && before.index.contains_key(#[trigger] keys[k])
                && before.index[keys[k]] == x;
        assert(before.pending[x].claims().contains(keys[k]));
        lemma_claims_are_its_own(
            before.pending[x].sandbox,
            before.pending[x].object,
            before.pending[x].kinds,
            keys[k],
        );
        lemma_claims_are_its_own(name, object, operation.parts(), keys[k]);
        assert(keys.contains(keys[k]));
        assert(operation.parts().contains(keys[k].kind));
    }
    assert forall|i: int| 0 <= i < ids.len() implies (#[trigger] items[i]).id() == ids[i] by {
        assert(ids.contains(ids[i]));
    }
    if before.pending[id].claims().contains(claim) && operation.parts().contains(kind) {
        assert(before.index.contains_key(claim) && before.index[claim] == id);
        assert(keys.contains(claim));
        let k = choose|k: int| 0 <= k < keys.len() && keys[k] == claim;
        assert(before.index.contains_key(keys[k]) && before.index[keys[k]] == id);
        assert(ids.contains(id));
        let i = choose|i: int| 0 <= i < ids.len() && ids[i] == id;
        assert(items[i].id() == id);
        crate::laws::decisions::lemma_all_waiters_are_told(
            before.waiters,
            items,
            PendingDecision::Deny,
            Notice { id, decision: PendingDecision::Deny },
        );
    }
    assert forall|notice: Notice| #[trigger] told.contains(notice) implies notice.decision is Deny
        && before.waiters.contains(notice.id) && !after.pending.contains_key(notice.id) by {
        crate::laws::decisions::lemma_all_waiters_are_told(
            before.waiters,
            items,
            PendingDecision::Deny,
            notice,
        );
        let i = choose|i: int| 0 <= i < items.len() && (#[trigger] items[i]).id() == notice.id;
        assert(ids[i] == notice.id);
        assert(ids.contains(notice.id));
    }
}

/// A change that sets nothing asks for nothing and changes nothing, unless it is
/// a trusted one, which is written down.
pub proof fn lemma_empty_change_changes_nothing(
    before: RegistryView,
    after: RegistryView,
    name: Seq<char>,
    attach_id: Option<u64>,
    requester: RequesterIdentity,
    operation: MetadataOperation,
    host_is_dir: bool,
    result: Result<MetadataStep, Errno>,
)
    requires
        operation.parts().len() == 0,
        before.shows(name, operation.subject()@),
        !metadata_request::is_trusted(
            before,
            name,
            requester.pid,
            requester.uid,
            operation.subject()@,
        ),
        metadata_request::changes(
            before,
            after,
            name,
            attach_id,
            requester,
            operation,
            host_is_dir,
            result,
        ),
    ensures
        result is Ok,
        result->Ok_0 is Unchanged,
        after == before,
{
}

/// A change that was allowed is made on the object that its path stands for now;
/// where the path stands for none it fails and nothing changes.
pub proof fn lemma_allowed_change_is_made(
    before: RegistryView,
    after: RegistryView,
    name: Seq<char>,
    operation: MetadataOperation,
    result: Result<(), Errno>,
)
    requires
        metadata_request::applies_at_path(before, after, name, operation, result),
    ensures
        !before.sandboxes.contains_key(name) ==> result == Err::<(), Errno>(Errno::ENOENT) && after
            == before,
        before.sandboxes.contains_key(name) && before.sandboxes[name].object_key(
            operation.subject()@,
        ) is None ==> result == Err::<(), Errno>(Errno::ENOTSUP) && after == before,
        before.sandboxes.contains_key(name) && before.sandboxes[name].object_key(
            operation.subject()@,
        ) is Some ==> {
            let key = before.sandboxes[name].object_key(operation.subject()@)->0;
            &&& result is Ok
            &&& after.sandboxes.contains_key(name)
            &&& after.sandboxes[name].metadata.contains_key(key)
            &&& after.sandboxes[name].override_at(operation.subject()@) == Some(
                after.sandboxes[name].metadata[key].override_,
            )
            &&& before.sandboxes[name].metadata.contains_key(key)
                ==> after.sandboxes[name].metadata[key].override_
                == before.sandboxes[name].metadata[key].override_.after(operation)
            &&& after.sandboxes.remove(name) == before.sandboxes.remove(name)
            &&& after == (RegistryView { sandboxes: after.sandboxes, ..before })
        },
{
    if before.sandboxes.contains_key(name) && before.sandboxes[name].object_key(
        operation.subject()@,
    ) is Some {
        assert(after.sandboxes.remove(name) =~= before.sandboxes.remove(name));
    }
}

/// The grant that lets an effect pass is the earliest that covers it.
pub proof fn lemma_earliest_grant_is_used(
    registry: RegistryView,
    grant_id: u64,
    other: u64,
    name: Seq<char>,
    kind: ProtectionKind,
    at: SandboxPath,
    identity: Option<ProcessIdentityEvidence>,
    now: Timestamp,
)
    requires
        registry.first_cover(grant_id, name, kind, at, identity, now),
    ensures
        registry.grants.contains_key(grant_id),
        registry.grants[grant_id].covers(name, kind, at, identity, now),
        registry.grants.contains_key(other) && registry.grants[other].covers(
            name,
            kind,
            at,
            identity,
            now,
        ) ==> grant_id <= other,
{
}

/// Requests that are taken back are gone with those who wait for them, and all
/// others stay as they are.
pub proof fn lemma_taking_back(registry: RegistryView, ids: Seq<u64>, id: u64)
    ensures
        ({
            let after = registry.withdrawn(ids);
            &&& after.pending_read_write.contains_key(id)
                <==> registry.pending_read_write.contains_key(id) && !ids.contains(id)
            &&& after.pending_read_write.contains_key(id) ==> after.pending_read_write[id]
                == registry.pending_read_write[id]
            &&& after.waiters.contains(id) <==> registry.waiters.contains(id) && !ids.contains(id)
            &&& after == (RegistryView {
                pending_read_write: after.pending_read_write,
                waiters: after.waiters,
                ..registry
            })
        }),
{
    assert(ids.to_set().contains(id) <==> ids.contains(id));
}

/// A read or write that starts to wait is pending under its number, somebody
/// waits for it, and nothing else changes.
pub proof fn lemma_starting_to_wait(
    registry: RegistryView,
    request: ReadWriteRequestView,
    other: u64,
)
    ensures
        ({
            let after = registry.awaiting(RequestView::ReadWrite(request));
            &&& after.pending_read_write.contains_key(request.id)
            &&& after.pending_read_write[request.id] == request
            &&& after.waiters.contains(request.id)
            &&& other != request.id ==> after.pending_read_write.contains_key(other)
                == registry.pending_read_write.contains_key(other)
            &&& other != request.id && registry.pending_read_write.contains_key(other)
                ==> after.pending_read_write[other] == registry.pending_read_write[other]
            &&& other != request.id ==> after.waiters.contains(other) == registry.waiters.contains(
                other,
            )
            &&& after == (RegistryView {
                pending_read_write: after.pending_read_write,
                waiters: after.waiters,
                ..registry
            })
        }),
{
}

/// Clearing away grants ends just those of the sandbox whose time is over.
pub proof fn lemma_only_expired_grants_go(
    registry: RegistryView,
    name: Seq<char>,
    now: Timestamp,
    count: nat,
    id: u64,
)
    ensures
        ({
            let after = registry.pruned(name, now, count);
            &&& after.grants.contains_key(id) <==> registry.grants.contains_key(id) && (
            registry.grants[id].sandbox != name || !registry.grants[id].lifetime.over(now))
            &&& after.grants.contains_key(id) ==> after.grants[id] == registry.grants[id]
            &&& after == (RegistryView { grants: after.grants, next_id: after.next_id, ..registry })
        }),
{
}

/// From a directory a name leads to the path with that name more, and a text
/// from the root leads where it leads from everywhere.
pub proof fn lemma_names_lead_down(dir: Seq<Seq<char>>, name: Seq<char>)
    ensures
        path::normal(name) ==> sandbox::child_path(dir, name) == dir.push(name),
        name.len() > 0 && name[0] == '/' ==> sandbox::child_path(dir, name) == path::components(
            name,
        ),
{
    if path::normal(name) {
        assert(name.contains(name[0]));
        path::lemma_join_name(dir, name);
    }
}

/// The requests of an attached view are the pending ones of its sandbox that
/// came through it.
pub proof fn lemma_requests_of_a_view(
    registry: RegistryView,
    name: Seq<char>,
    attach_id: u64,
    items: Seq<RequestView>,
    id: u64,
)
    requires
        registry.listable(),
        decision::view_listing(registry, name, attach_id, items),
    ensures
        registry.pending.contains_key(id) ==> (items.contains(
            RequestView::Metadata(registry.pending[id]),
        ) <==> registry.pending[id].sandbox == name && registry.pending[id].attach_id == Some(
            attach_id,
        )),
        registry.pending_read_write.contains_key(id) ==> (items.contains(
            RequestView::ReadWrite(registry.pending_read_write[id]),
        ) <==> registry.pending_read_write[id].sandbox == name
            && registry.pending_read_write[id].attach_id == Some(attach_id)),
        forall|i: int|
            0 <= i < items.len() ==> (#[trigger] items[i]).sandbox() == name
                && items[i].attach_id() == Some(attach_id),
{
    assert forall|i: int| 0 <= i < items.len() implies (#[trigger] items[i]).sandbox() == name
        && items[i].attach_id() == Some(attach_id) by {
        assert(items.contains(items[i]));
    }
    if registry.pending.contains_key(id) {
        let request = RequestView::Metadata(registry.pending[id]);
        assert(items.contains(request) <==> registry.is_pending(name, request)
            && request.attach_id() == Some(attach_id));
    }
    if registry.pending_read_write.contains_key(id) {
        let request = RequestView::ReadWrite(registry.pending_read_write[id]);
        assert(items.contains(request) <==> registry.is_pending(name, request)
            && request.attach_id() == Some(attach_id));
    }
}

/// Canceling many requests writes one line for the whole and one for each, with
/// numbers one after the other that are all used up then.
pub proof fn lemma_canceling_numbers_its_lines(
    before: RegistryView,
    after: RegistryView,
    outcome: Outcome,
    name: Seq<char>,
    items: Seq<RequestView>,
    attach_id: Option<u64>,
    scope: Seq<char>,
    reason: Seq<char>,
    i: int,
)
    requires
        decision::cancels_all(before, after, outcome, name, items, attach_id, scope, reason),
        before.next_id + items.len() < u64::MAX,
    ensures
        outcome.events().len() == items.len() + 1,
        0 <= i <= items.len() ==> outcome.events()[i].0 == before.next_id + i,
        after.next_id == before.next_id + items.len() + 1,
        outcome.log_path@ == before.sandboxes[name].log_path,
{
}

/// A mounted view is known by its sandbox, its number and its mountpoint,
/// however that is written, and by nothing else.
pub proof fn lemma_views_are_told_apart(
    mounted: MountedSession,
    name: Seq<char>,
    attach_id: u64,
    mountpoint: Seq<char>,
)
    ensures
        session::is_mounted_as(
            mounted,
            mounted.sandbox@,
            mounted.attach_id,
            mounted.mountpoint@,
        ),
        mounted.mountpoint@.len() > 0 ==> session::is_mounted_as(
            mounted,
            mounted.sandbox@,
            mounted.attach_id,
            mounted.mountpoint@.push('/'),
        ),
        session::is_mounted_as(mounted, name, attach_id, mountpoint) ==> name == mounted.sandbox@
            && attach_id == mounted.attach_id && host::parts(mountpoint) == host::parts(
            mounted.mountpoint@,
        ),
{
    if mounted.mountpoint@.len() > 0 {
        crate::laws::writing::lemma_host_paths_step_by_step(
            mounted.mountpoint@,
            Seq::<char>::empty(),
        );
    }
}

/// Remembering paths keeps each under its inode number, as the last path with
/// that number, and forgets none of the others.
pub proof fn lemma_remembering_paths(
    inodes: Map<u64, SandboxPath>,
    paths: Seq<SandboxPath>,
    i: int,
    ino: u64,
)
    ensures
        0 <= i < paths.len() ==> fs::remembered(inodes, paths).contains_key(
            attr::inode_of(paths[i]) as u64,
        ),
        0 <= i < paths.len() && (forall|j: int|
            i < j < paths.len() ==> attr::inode_of(#[trigger] paths[j]) != attr::inode_of(paths[i]))
            ==> fs::remembered(inodes, paths)[attr::inode_of(paths[i]) as u64] == paths[i],
        (forall|j: int|
            0 <= j < paths.len() ==> attr::inode_of(#[trigger] paths[j]) != ino) ==> (
        fs::remembered(inodes, paths).contains_key(ino) == inodes.contains_key(ino) && (
        inodes.contains_key(ino) ==> fs::remembered(inodes, paths)[ino] == inodes[ino])),
    decreases paths.len(),
{
    if paths.len() > 0 {
        let front = paths.drop_last();
        lemma_remembering_paths(inodes, front, i, ino);
        assert forall|j: int| 0 <= j < front.len() implies front[j] == paths[j] by {}
        assert(paths[paths.len() - 1] == paths.last());
        crate::laws::attributes::lemma_root_inode(paths.last()@);
        if 0 <= i < paths.len() {
            crate::laws::attributes::lemma_root_inode(paths[i]@);
        }
        if 0 <= i < front.len() && forall|j: int|
            i < j < paths.len() ==> attr::inode_of(#[trigger] paths[j]) != attr::inode_of(
                paths[i],
            ) {
            assert forall|j: int| i < j < front.len() implies attr::inode_of(#[trigger] front[j])
                != attr::inode_of(front[i]) by {
                assert(front[j] == paths[j]);
            }
        }
        if forall|j: int| 0 <= j < paths.len() ==> attr::inode_of(#[trigger] paths[j]) != ino {
            assert forall|j: int| 0 <= j < front.len() implies attr::inode_of(#[trigger] front[j])
                != ino by {
                assert(front[j] == paths[j]);
            }
        }
    }
}

/// The host path that an effect is looked at on is the one that its path stands
/// for; there is none in a directory of the overlay, nor where the path stands
/// for nothing.
pub proof fn lemma_effects_are_looked_at_on_the_host(
    registry: RegistryView,
    name: Seq<char>,
    at: SandboxPath,
    target: Option<HostPath>,
)
    requires
        authorize::is_target(registry, name, at, target),
        registry.sandboxes.contains_key(name),
    ensures
        target is Some <==> registry.sandboxes[name].resolution(at@) is Some
            && registry.sandboxes[name].resolution(at@)->0 is Real,
        target is Some ==> target->0@ == registry.sandboxes[name].resolution(at@)->0->local_path,
{
}

/// Operations of a session never share a token.
pub proof fn lemma_tokens_differ(name: Seq<char>, a: u64, b: u64, process_id: u32)
    requires
        session::trusted_token(name, a, process_id) == session::trusted_token(name, b, process_id),
    ensures
        a == b,
{
    let x = text::decimal(a as nat);
    let y = text::decimal(b as nat);
    let one = session::trusted_token(name, a, process_id);
    let two = session::trusted_token(name, b, process_id);
    let tail = "-"@ + text::decimal(process_id as nat);
    let head = name + "-"@;
    assert(one =~= head + x + tail);
    assert(two =~= head + y + tail);
    assert(x.len() == y.len());
    assert(one.subrange(head.len() as int, (head.len() + x.len()) as int) =~= x);
    assert(two.subrange(head.len() as int, (head.len() + x.len()) as int) =~= y);
    crate::laws::writing::lemma_decimal_is_read_back(a as nat);
    crate::laws::writing::lemma_decimal_is_read_back(b as nat);
}

/// A quoted text stands between quotes, with a backslash in front of every
/// backslash and every quote that it holds, and is otherwise as it was.
pub proof fn lemma_quoting(a: Seq<char>, c: char)
    ensures
        grant_allow::escaped(Seq::empty()) == Seq::<char>::empty(),
        c == '\\' ==> grant_allow::escaped(a.push(c)) == grant_allow::escaped(a).push('\\').push(
            '\\',
        ),
        c == '"' ==> grant_allow::escaped(a.push(c)) == grant_allow::escaped(a).push('\\').push(
            '"',
        ),
        c != '\\' && c != '"' ==> grant_allow::escaped(a.push(c)) == grant_allow::escaped(a).push(
            c,
        ),
        grant_allow::quoted(a) == seq!['"'] + grant_allow::escaped(a) + seq!['"'],
{
    reveal_strlit("\\\\");
    reveal_strlit("\\\"");
    reveal_strlit("\"");
    assert(a.push(c).drop_last() =~= a);
    let front = grant_allow::escaped(a);
    assert("\\\\"@ =~= seq!['\\', '\\']);
    assert("\\\""@ =~= seq!['\\', '"']);
    assert("\""@ =~= seq!['"']);
    assert(front + seq!['\\', '\\'] =~= front.push('\\').push('\\'));
    assert(front + seq!['\\', '"'] =~= front.push('\\').push('"'));
    assert(front + seq![c] =~= front.push(c));
}

/// A sandbox begins empty: it shows a root of its own and nothing else, guards
/// nothing and has no overrides.
pub proof fn lemma_fresh_sandbox_is_empty(
    name: Seq<char>,
    log_path: Seq<char>,
    at: SandboxPath,
    kind: ProtectionKind,
    host_is_dir: bool,
)
    ensures
        ({
            let s = sandbox::fresh_sandbox(name, log_path);
            &&& s.well_ordered()
            &&& s.resolution(Seq::empty()) == Some(
                ResolvedView::VirtualDir { sandbox_path: Seq::empty() },
            )
            &&& at@.len() > 0 ==> s.resolution(at@) is None
            &&& !metadata_request::guarded(s, kind, at, host_is_dir)
            &&& s.override_at(at@) is None
            &&& s.log_path == log_path
        }),
{
}

/// Only listed operations are trusted: where none is listed nobody is, and an
/// operation that is listed with its process, and has the path among its scopes,
/// is trusted there.
pub proof fn lemma_trust_comes_from_the_list(
    registry: RegistryView,
    token: Seq<char>,
    pid: u32,
    uid: u32,
    at: SandboxPath,
    i: int,
)
    ensures
        (forall|other: Seq<char>| !#[trigger] registry.trusted.contains_key(other))
            ==> !metadata_request::is_trusted(registry, registry.trusted[token].sandbox, pid, uid, at@),
        registry.trusted.contains_key(token) && registry.trusted[token].pid == Some(pid)
            && registry.trusted[token].uid == Some(uid) && 0 <= i
            < registry.trusted[token].paths.len() && registry.trusted[token].paths[i].path@ == at@
            ==> metadata_request::is_trusted(
            registry,
            registry.trusted[token].sandbox,
            pid,
            uid,
            at@,
        ),
{
    if registry.trusted.contains_key(token) && 0 <= i < registry.trusted[token].paths.len()
        && registry.trusted[token].paths[i].path@ == at@ {
        let scope = registry.trusted[token].paths[i];
        crate::laws::changes::lemma_scope_holds(scope, at@, Seq::empty());
        assert(metadata_request::in_scope(registry.trusted[token].paths[i], at@));
    }
}

/// The grants that are over are the ones that clearing away ends.
pub proof fn lemma_expired_grants_are_listed(
    registry: RegistryView,
    name: Seq<char>,
    now: Timestamp,
    ids: Seq<u64>,
    id: u64,
)
    requires
        authorize::expired_listing(registry, name, now, ids),
    ensures
        registry.pruned(name, now, ids.len()).grants.contains_key(id)
            <==> registry.grants.contains_key(id) && !ids.contains(id),
        ids.contains(id) ==> registry.grants.contains_key(id) && registry.grants[id].sandbox
            == name && registry.grants[id].lifetime.over(now),
{
}

/// A fresh request about a whole operation is of the kind of the operation, and
/// tells who asks.
pub proof fn lemma_fresh_requests(
    id: u64,
    name: Seq<char>,
    attach_id: Option<u64>,
    operation: ReadWriteOperation,
    at: SandboxPath,
    requester: RequesterIdentity,
)
    ensures
        ({
            let request = pending::fresh_read_write_request(
                id,
                name,
                attach_id,
                operation,
                at,
                requester,
            );
            &&& request.id == id
            &&& request.sandbox == name
            &&& request.attach_id == attach_id
            &&& request.operation == operation
            &&& request.path == at
            &&& request.pid == requester.pid
            &&& request.uid == requester.uid
            &&& request.gid == requester.gid
            &&& request.process_identity is None
            &&& request.kind is Read <==> operation is ReadFile || operation is ReadDirectory
                || operation is GetXattr || operation is ListXattr
            &&& request.kind is Read || request.kind is Write
        }),
{
}

/// A change that starts to wait takes over the parts that it claims, from whoever
/// had them, and no others.
pub proof fn lemma_waiting_takes_over_claims(
    registry: RegistryView,
    request: MetadataRequestView,
    key: PendingKeyView,
)
    ensures
        ({
            let after = registry.with_request(RequestView::Metadata(request));
            &&& request.claims().contains(key) ==> after.index.contains_key(key) && after.index[key]
                == request.id
            &&& !request.claims().contains(key) ==> after.index.contains_key(key)
                == registry.index.contains_key(key)
            &&& !request.claims().contains(key) && registry.index.contains_key(key)
                ==> after.index[key] == registry.index[key]
            &&& after.pending.contains_key(request.id) && after.pending[request.id] == request
            &&& after.pending_read_write == registry.pending_read_write
            &&& after.waiters == registry.waiters
        }),
{
}

/// A change that is taken out gives up the parts that are still its own, and
/// leaves those that another request took over.
pub proof fn lemma_leaving_gives_up_own_claims(
    registry: RegistryView,
    id: u64,
    key: PendingKeyView,
)
    requires
        registry.pending.contains_key(id),
    ensures
        ({
            let after = registry.without_request(id);
            &&& registry.index.contains_key(key) && registry.index[key] != id
                ==> after.index.contains_key(key) && after.index[key] == registry.index[key]
            &&& registry.pending[id].claims().contains(key) && registry.index.contains_key(key)
                && registry.index[key] == id ==> !after.index.contains_key(key)
            &&& after.index.contains_key(key) ==> registry.index.contains_key(key)
            &&& !after.pending.contains_key(id)
            &&& after.pending == registry.pending.remove(id)
            &&& after.pending_read_write == registry.pending_read_write
            &&& after.waiters == registry.waiters
        }),
{
}

/// Recording a trusted operation lets nobody through who was not let through
/// before: that takes naming its process.
pub proof fn lemma_recorded_trust_waits_for_its_process(
    before: RegistryView,
    after: RegistryView,
    token: Seq<char>,
    name: Seq<char>,
    paths: Seq<TrustedPathScope>,
    sandbox: Seq<char>,
    pid: u32,
    uid: u32,
    at: Seq<Seq<char>>,
)
    requires
        session::records_trust(before, after, token, name, paths),
        metadata_request::is_trusted(after, sandbox, pid, uid, at),
    ensures
        metadata_request::is_trusted(before, sandbox, pid, uid, at),
        after.trusted[token].paths == paths,
        after.trusted[token].sandbox == name,
        after.sandboxes == before.sandboxes,
        after.pending == before.pending,
{
    let other = choose|other: Seq<char>| #[trigger]
        after.trusted.contains_key(other) && metadata_request::trusts(
            after.trusted[other],
            sandbox,
            pid,
            uid,
            at,
        );
    assert(other != token);
    assert(before.trusted.contains_key(other));
}

/// Mounting a host path changes the sandbox that is named and no other, and fails
/// only where there is no such sandbox.
pub proof fn lemma_mounting_stays_in_the_sandbox(
    before: RegistryView,
    after: RegistryView,
    name: Seq<char>,
    local: HostPath,
    on_fs: SandboxPath,
    result: Result<Outcome, Error>,
    other: Seq<char>,
)
    requires
        session::has_room(before, name),
        session::mounts_layer(before, after, name, local, on_fs, result),
    ensures
        result is Ok <==> before.sandboxes.contains_key(name),
        after.next_id == before.next_id + 1,
        after.sandboxes.dom() == before.sandboxes.dom(),
        other != name && before.sandboxes.contains_key(other) ==> after.sandboxes[other]
            == before.sandboxes[other],
        before.sandboxes.contains_key(name) ==> {
            let layers = after.sandboxes[name].layers;
            &&& layers.len() == before.sandboxes[name].layers.len() + 1
            &&& layers.drop_last() == before.sandboxes[name].layers
            &&& layers.last().local == local
            &&& layers.last().on_fs == on_fs
            &&& after.sandboxes[name].hides == before.sandboxes[name].hides
        },
        after == (RegistryView {
            sandboxes: after.sandboxes,
            next_id: after.next_id,
            ..before
        }),
{
    assert(after.sandboxes.dom() =~= before.sandboxes.dom());
    if before.sandboxes.contains_key(name) {
        assert(after.sandboxes[name].layers.drop_last() =~= before.sandboxes[name].layers);
    }
}

} // verus!
