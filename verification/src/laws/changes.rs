//! Changes of metadata: who may make them at once, what is asked for, and what
//! operations then work on.

use vstd::prelude::*;

use crate::attr;
use crate::attr::Errno;
use crate::forward;
use crate::metadata::MetadataOverride;
use crate::metadata::ObjectView;
use crate::metadata_request;
use crate::metadata_request::MetadataStep;
use crate::operation;
use crate::operation::MetadataOperation;
use crate::operation::PendingOperationKind;
use crate::path::SandboxPath;
use crate::pending::RequesterIdentity;
use crate::policy::ProtectionKind;
use crate::registry::RegistryView;
use crate::registry::TrustedView;
use crate::sandbox::SandboxView;
use crate::sandbox::TrustedPathScope;

verus! {

/// A scope always holds its own path. One that goes below it holds just the
/// paths that begin with it, and any other holds no further path.
pub proof fn lemma_scope_holds(scope: TrustedPathScope, at: Seq<Seq<char>>, name: Seq<char>)
    ensures
        metadata_request::in_scope(scope, scope.path@),
        scope.recursive ==> (metadata_request::in_scope(scope, at) <==> scope.path@.is_prefix_of(
            at,
        )),
        !scope.recursive ==> (metadata_request::in_scope(scope, at) <==> at == scope.path@),
        scope.recursive && metadata_request::in_scope(scope, at) ==> metadata_request::in_scope(
            scope,
            at.push(name),
        ),
        !scope.recursive ==> !metadata_request::in_scope(scope, scope.path@.push(name)),
{
    if scope.recursive && metadata_request::in_scope(scope, at) {
        assert(scope.path@.is_prefix_of(at.push(name)));
    }
    assert(scope.path@.push(name).len() != scope.path@.len());
}

/// A trusted operation is trusted in its own sandbox, for its own process and
/// user, once these are named, and on paths that one of its scopes holds.
pub proof fn lemma_trust_is_narrow(
    trusted: TrustedView,
    name: Seq<char>,
    pid: u32,
    uid: u32,
    at: Seq<Seq<char>>,
)
    ensures
        metadata_request::trusts(trusted, name, pid, uid, at) <==> {
            &&& trusted.sandbox == name
            &&& trusted.pid == Some(pid)
            &&& trusted.uid == Some(uid)
            &&& exists|i: int|
                {
                    &&& 0 <= i < trusted.paths.len()
                    &&& (#[trigger] trusted.paths[i]).path@.is_prefix_of(at)
                    &&& trusted.paths[i].recursive || trusted.paths[i].path@.len() == at.len()
                }
        },
{
    assert forall|i: int| 0 <= i < trusted.paths.len() implies metadata_request::in_scope(
        #[trigger] trusted.paths[i],
        at,
    ) == (trusted.paths[i].path@.is_prefix_of(at) && (trusted.paths[i].recursive
        || trusted.paths[i].path@.len() == at.len())) by {
        let scope = trusted.paths[i];
        if scope.path@.is_prefix_of(at) && scope.path@.len() == at.len() {
            assert(at =~= scope.path@);
        }
    }
    if metadata_request::trusts(trusted, name, pid, uid, at) {
        let i = choose|i: int|
            0 <= i < trusted.paths.len() && metadata_request::in_scope(
                #[trigger] trusted.paths[i],
                at,
            );
        assert(trusted.paths[i].path@.is_prefix_of(at));
    }
    if exists|i: int|
        {
            &&& 0 <= i < trusted.paths.len()
            &&& (#[trigger] trusted.paths[i]).path@.is_prefix_of(at)
            &&& trusted.paths[i].recursive || trusted.paths[i].path@.len() == at.len()
        } {
        let i = choose|i: int|
            {
                &&& 0 <= i < trusted.paths.len()
                &&& (#[trigger] trusted.paths[i]).path@.is_prefix_of(at)
                &&& trusted.paths[i].recursive || trusted.paths[i].path@.len() == at.len()
            };
        assert(metadata_request::in_scope(trusted.paths[i], at));
    }
}

proof fn lemma_concat_contains<T>(a: Seq<T>, b: Seq<T>, x: T)
    ensures
        (a + b).contains(x) <==> a.contains(x) || b.contains(x),
{
    if a.contains(x) {
        let i = choose|i: int| 0 <= i < a.len() && a[i] == x;
        assert((a + b)[i] == x);
    }
    if b.contains(x) {
        let i = choose|i: int| 0 <= i < b.len() && b[i] == x;
        assert((a + b)[a.len() + i] == x);
    }
}

proof fn lemma_when_contains<T>(condition: bool, element: T, x: T)
    ensures
        operation::when(condition, element).contains(x) <==> condition && x == element,
{
    if condition {
        assert(operation::when(condition, element)[0] == element);
    }
}

proof fn lemma_parts_of_setattr(
    mode: bool,
    uid: bool,
    gid: bool,
    flags: bool,
    times: bool,
    kind: PendingOperationKind,
)
    ensures
        (operation::when(mode, PendingOperationKind::Mode) + operation::when(
            uid,
            PendingOperationKind::Uid,
        ) + operation::when(gid, PendingOperationKind::Gid) + operation::when(
            flags,
            PendingOperationKind::Flags,
        ) + operation::when(times, PendingOperationKind::Times)).contains(kind) <==> match kind {
            PendingOperationKind::Mode => mode,
            PendingOperationKind::Uid => uid,
            PendingOperationKind::Gid => gid,
            PendingOperationKind::Flags => flags,
            PendingOperationKind::Times => times,
            PendingOperationKind::Xattr => false,
        },
{
    let m = operation::when(mode, PendingOperationKind::Mode);
    let u = operation::when(uid, PendingOperationKind::Uid);
    let g = operation::when(gid, PendingOperationKind::Gid);
    let f = operation::when(flags, PendingOperationKind::Flags);
    let t = operation::when(times, PendingOperationKind::Times);
    lemma_concat_contains(m, u, kind);
    lemma_concat_contains(m + u, g, kind);
    lemma_concat_contains(m + u + g, f, kind);
    lemma_concat_contains(m + u + g + f, t, kind);
    lemma_when_contains(mode, PendingOperationKind::Mode, kind);
    lemma_when_contains(uid, PendingOperationKind::Uid, kind);
    lemma_when_contains(gid, PendingOperationKind::Gid, kind);
    lemma_when_contains(flags, PendingOperationKind::Flags, kind);
    lemma_when_contains(times, PendingOperationKind::Times, kind);
}

/// The parts that a change claims are those that it sets, and every change is on
/// the path that it names.
pub proof fn lemma_parts_of_changes(operation: MetadataOperation, kind: PendingOperationKind)
    ensures
        match operation {
            MetadataOperation::Chmod { path, .. } => operation.subject() == path && (
            operation.parts().contains(kind) <==> kind is Mode),
            MetadataOperation::Chown { path, uid, gid } => operation.subject() == path && (
            operation.parts().contains(kind) <==> (kind is Uid && uid is Some) || (kind is Gid
                && gid is Some)),
            MetadataOperation::Chattr { path, .. } => operation.subject() == path && (
            operation.parts().contains(kind) <==> kind is Flags),
            MetadataOperation::SetAttr { path, mode, uid, gid, flags, atime, mtime } =>
            operation.subject() == path && (operation.parts().contains(kind) <==> match kind {
                PendingOperationKind::Mode => mode is Some,
                PendingOperationKind::Uid => uid is Some,
                PendingOperationKind::Gid => gid is Some,
                PendingOperationKind::Flags => flags is Some,
                PendingOperationKind::Times => atime is Some || mtime is Some,
                PendingOperationKind::Xattr => false,
            }),
            MetadataOperation::SetXattr { path, .. } => operation.subject() == path && (
            operation.parts().contains(kind) <==> kind is Xattr),
            MetadataOperation::RemoveXattr { path, .. } => operation.subject() == path && (
            operation.parts().contains(kind) <==> kind is Xattr),
        },
{
    let parts = operation.parts();
    match operation {
        MetadataOperation::Chown { uid, gid, .. } => {
            lemma_concat_contains(
                operation::when(uid is Some, PendingOperationKind::Uid),
                operation::when(gid is Some, PendingOperationKind::Gid),
                kind,
            );
            lemma_when_contains(uid is Some, PendingOperationKind::Uid, kind);
            lemma_when_contains(gid is Some, PendingOperationKind::Gid, kind);
        },
        MetadataOperation::SetAttr { mode, uid, gid, flags, atime, mtime, .. } => {
            lemma_parts_of_setattr(
                mode is Some,
                uid is Some,
                gid is Some,
                flags is Some,
                atime is Some || mtime is Some,
                kind,
            );
        },
        _ => {
            assert(parts.len() == 1);
            assert(parts.contains(parts[0]));
        },
    }
}

/// A change that no rule guards is made at once, on the object that the path
/// stands for and no other, and supersedes nothing. A directory of the overlay
/// cannot be changed.
pub proof fn lemma_free_change_is_made(
    before: RegistryView,
    after: RegistryView,
    name: Seq<char>,
    attach_id: Option<u64>,
    requester: RequesterIdentity,
    operation: MetadataOperation,
    host_is_dir: bool,
    result: Result<MetadataStep, Errno>,
    other: Seq<Seq<char>>,
)
    requires
        before.sandboxes.contains_key(name),
        before.sandboxes[name].well_ordered(),
        before.sandboxes[name].resolution(operation.subject()@) is Some,
        !metadata_request::is_trusted(
            before,
            name,
            requester.pid,
            requester.uid,
            operation.subject()@,
        ),
        !metadata_request::guarded(
            before.sandboxes[name],
            ProtectionKind::Metadata,
            operation.subject(),
            host_is_dir,
        ),
        operation.parts().len() > 0,
        metadata_request::changes(
            before,
            after,
            name,
            attach_id,
            requester,
            operation,
            host_is_dir,
            result,
        ),
    ensures
        after.pending == before.pending,
        after.pending_read_write == before.pending_read_write,
        after.waiters == before.waiters,
        after.grants == before.grants,
        before.sandboxes[name].resolution(operation.subject()@)->0 is VirtualDir ==> result == Err::<
            MetadataStep,
            Errno,
        >(Errno::ENOTSUP) && after == before,
        before.sandboxes[name].resolution(operation.subject()@)->0 is Real ==> {
            let sandbox = before.sandboxes[name];
            let next = after.sandboxes[name];
            let shown = match sandbox.override_at(operation.subject()@) {
                Some(change) => change,
                None => MetadataOverride {
                    mode: None,
                    uid: None,
                    gid: None,
                    flags: None,
                    atime: None,
                    mtime: None,
                },
            };
            &&& result matches Ok(MetadataStep::Applied)
            &&& after.sandboxes.contains_key(name)
            &&& next.override_at(operation.subject()@) == Some(shown.after(operation))
            &&& other != operation.subject()@ ==> next.override_at(other) == sandbox.override_at(
                other,
            )
            &&& next.resolution(other) == sandbox.resolution(other)
            &&& next.protection_rules == sandbox.protection_rules
            &&& next.passthrough_rules == sandbox.passthrough_rules
        },
{
    let sandbox = before.sandboxes[name];
    let at = operation.subject()@;
    crate::overlay::lemma_object_of_real_path(sandbox, at);
    if sandbox.object_key(at) is Some {
        let key = sandbox.object_key(at)->0;
        crate::overlay::lemma_override_is_shown(sandbox, operation, key, other);
        if other != at && sandbox.object_key(other) == Some(key) {
            crate::laws::stacking::lemma_objects_are_apart(sandbox, at, other);
        }
    }
}

/// A guarded change waits: nothing is changed yet, and the request says who asks
/// for what. It has the number after those of the decisions about the requests
/// that it supersedes.
pub proof fn lemma_guarded_change_waits(
    before: RegistryView,
    after: RegistryView,
    name: Seq<char>,
    attach_id: Option<u64>,
    requester: RequesterIdentity,
    operation: MetadataOperation,
    host_is_dir: bool,
    result: Result<MetadataStep, Errno>,
)
    requires
        before.sandboxes.contains_key(name),
        before.next_id + operation.parts().len() < u64::MAX,
        metadata_request::guarded(
            before.sandboxes[name],
            ProtectionKind::Metadata,
            operation.subject(),
            host_is_dir,
        ),
        !metadata_request::is_trusted(
            before,
            name,
            requester.pid,
            requester.uid,
            operation.subject()@,
        ),
        operation.parts().len() > 0,
        metadata_request::changes(
            before,
            after,
            name,
            attach_id,
            requester,
            operation,
            host_is_dir,
            result,
        ),
    ensures
        result is Ok,
        result->Ok_0 is Ask,
        after.sandboxes == before.sandboxes,
        after.pending_read_write.dom().subset_of(before.pending_read_write.dom()),
        after.pending.dom().subset_of(before.pending.dom()),
        after.grants == before.grants,
        after.trusted == before.trusted,
        ({
            let request = result->Ok_0->request@;
            &&& before.next_id <= request.id < after.next_id
            &&& after.next_id == request.id + 1
            &&& request.sandbox == name
            &&& request.attach_id == attach_id
            &&& request.operation == operation
            &&& request.kinds == operation.parts()
            &&& request.pid == requester.pid
            &&& request.uid == requester.uid
            &&& request.gid == requester.gid
            &&& before.sandboxes[name].object_key(operation.subject()@) is Some ==> request.object
                == before.sandboxes[name].object_key(operation.subject()@)->0
            &&& before.sandboxes[name].object_key(operation.subject()@) is None
                ==> request.object.layer_id == 0
        }),
{
    let object = metadata_request::request_object(
        before.sandboxes[name],
        operation.subject()@,
    );
    let keys = crate::pending::claimed_keys(name, object, operation.parts());
    metadata_request::lemma_superseded(before.index, keys);
}

/// A trusted change is made without asking: nothing is superseded and nothing
/// waits.
pub proof fn lemma_trusted_change_is_not_asked(
    before: RegistryView,
    after: RegistryView,
    name: Seq<char>,
    attach_id: Option<u64>,
    requester: RequesterIdentity,
    operation: MetadataOperation,
    host_is_dir: bool,
    result: Result<MetadataStep, Errno>,
)
    requires
        before.sandboxes.contains_key(name),
        before.sandboxes[name].resolution(operation.subject()@) is Some,
        before.next_id < u64::MAX,
        metadata_request::is_trusted(
            before,
            name,
            requester.pid,
            requester.uid,
            operation.subject()@,
        ),
        metadata_request::changes(
            before,
            after,
            name,
            attach_id,
            requester,
            operation,
            host_is_dir,
            result,
        ),
    ensures
        result is Ok,
        result->Ok_0 is Trusted,
        after.next_id == before.next_id + 1,
        after == (RegistryView { next_id: after.next_id, ..before }),
{
}

/// Setting attributes of an object changes the entry of that object alone, which
/// remembers the path that it was set through.
pub proof fn lemma_one_object_changes(
    sandbox: SandboxView,
    key: ObjectView,
    operation: MetadataOperation,
    other: ObjectView,
)
    ensures
        ({
            let next = sandbox.after_override(key, operation);
            &&& next.metadata.contains_key(key)
            &&& next.metadata[key].sandbox_path == operation.subject()
            &&& sandbox.metadata.contains_key(key) ==> next.metadata[key].override_
                == sandbox.metadata[key].override_.after(operation)
            &&& !sandbox.metadata.contains_key(key) ==> next.metadata[key].override_
                == MetadataOverride {
                mode: None,
                uid: None,
                gid: None,
                flags: None,
                atime: None,
                mtime: None,
            }.after(operation)
            &&& other != key ==> next.metadata.contains_key(other)
                == sandbox.metadata.contains_key(other)
            &&& other != key && sandbox.metadata.contains_key(other) ==> next.metadata[other]
                == sandbox.metadata[other]
            &&& next == (SandboxView { metadata: next.metadata, ..sandbox })
        }),
{
}

/// An operation works on the host path that its path stands for. Writing works
/// on none where the sandbox shows the object as immutable, and there is nothing
/// to work on in a directory of the overlay or at a path that stands for
/// nothing.
pub proof fn lemma_target_is_the_host_path(sandbox: SandboxView, writes: bool, at: SandboxPath)
    ensures
        ({
            let stands_for = sandbox.resolution(at@);
            let target = forward::target_of(sandbox, writes, at);
            let flags = match sandbox.override_at(at@) {
                Some(change) => change.flags,
                None => None,
            };
            let fixed = flags is Some && flags->0 / 16 % 2 == 1;
            &&& stands_for is Some && stands_for->0 is Real && !(writes && fixed) ==> target == Ok::<
                Seq<char>,
                Errno,
            >(stands_for->0->local_path)
            &&& stands_for is Some && stands_for->0 is Real && writes && fixed ==> target == Err::<
                Seq<char>,
                Errno,
            >(Errno::EPERM)
            &&& stands_for is Some && stands_for->0 is VirtualDir ==> target == Err::<
                Seq<char>,
                Errno,
            >(
                if writes {
                    Errno::EROFS
                } else {
                    Errno::ENOTSUP
                },
            )
            &&& stands_for is None ==> target == Err::<Seq<char>, Errno>(
                if writes {
                    Errno::EROFS
                } else {
                    Errno::ENOENT
                },
            )
        }),
{
    let flags = match sandbox.override_at(at@) {
        Some(change) => change.flags,
        None => None,
    };
    if flags is Some {
        let bits = flags->0;
        assert(bits & attr::FS_IMMUTABLE_FL != 0 <==> bits / 16 % 2 == 1) by (bit_vector);
    }
}

/// The first path that cannot be worked on is what the operation fails with, and
/// it goes on where all can.
pub proof fn lemma_first_path_fails(
    sandbox: SandboxView,
    writes: bool,
    paths: Seq<SandboxPath>,
    i: int,
)
    ensures
        0 <= i < paths.len() && forward::target_of(sandbox, writes, paths[i]) is Err && (forall|
            j: int,
        |
            0 <= j < i ==> forward::target_of(sandbox, writes, #[trigger] paths[j]) is Ok)
            ==> forward::first_obstacle(sandbox, writes, paths) == Some(
            forward::target_of(sandbox, writes, paths[i])->Err_0,
        ),
        (forall|j: int|
            0 <= j < paths.len() ==> forward::target_of(sandbox, writes, #[trigger] paths[j]) is Ok)
            ==> forward::first_obstacle(sandbox, writes, paths) is None,
    decreases paths.len(),
{
    if paths.len() > 0 {
        let front = paths.drop_last();
        lemma_first_path_fails(sandbox, writes, front, i);
        assert forall|j: int| 0 <= j < front.len() implies front[j] == paths[j] by {}
        assert(paths[paths.len() - 1] == paths.last());
        if forall|j: int|
            0 <= j < i ==> forward::target_of(sandbox, writes, #[trigger] paths[j]) is Ok {
            assert forall|j: int| 0 <= j < i && j < front.len() implies forward::target_of(
                sandbox,
                writes,
                #[trigger] front[j],
            ) is Ok by {
                assert(front[j] == paths[j]);
            }
            if i >= front.len() {
                assert forall|j: int| 0 <= j < front.len() implies forward::target_of(
                    sandbox,
                    writes,
                    #[trigger] front[j],
                ) is Ok by {
                    assert(front[j] == paths[j]);
                }
            }
        }
        if forall|j: int|
            0 <= j < paths.len() ==> forward::target_of(sandbox, writes, #[trigger] paths[j]) is Ok {
            assert forall|j: int| 0 <= j < front.len() implies forward::target_of(
                sandbox,
                writes,
                #[trigger] front[j],
            ) is Ok by {
                assert(front[j] == paths[j]);
            }
        }
    }
}

} // verus!
