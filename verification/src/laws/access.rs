//! What operations do to paths, and which of it is asked for.

use vstd::prelude::*;

use crate::attr;
use crate::authorize;
use crate::authorize::AskerView;
use crate::authorize::Authorization;
use crate::metadata_request;
use crate::operation::EffectView;
use crate::operation::ReadWriteOperation;
use crate::path::SandboxPath;
use crate::pending::PendingDecision;
use crate::policy;
use crate::policy::ProtectionKind;
use crate::registry::RegistryView;
use crate::sandbox::ResolvedView;
use crate::sandbox::SandboxView;

verus! {

/// Which effects operations have. What creates, removes, renames or changes an
/// object writes to each path that it changes, and nothing else writes. Reading
/// contents, entries or extended attributes is what reads. Metadata changes with
/// a new size, with a hard link to the file and with extended attributes, and
/// these have an effect of their own besides.
pub proof fn lemma_effects_of_operations(operation: ReadWriteOperation, at: SandboxPath)
    ensures
        ({
            let effects = operation.effects();
            (exists|i: int|
                0 <= i < effects.len() && (#[trigger] effects[i]).kind == ProtectionKind::Write
                    && effects[i].path == at) <==> match operation {
                ReadWriteOperation::ReadFile { .. } => false,
                ReadWriteOperation::ReadDirectory { .. } => false,
                ReadWriteOperation::OpenWrite { path } => path == at,
                ReadWriteOperation::WriteFile { path } => path == at,
                ReadWriteOperation::Truncate { path } => path == at,
                ReadWriteOperation::Create { path } => path == at,
                ReadWriteOperation::Mkdir { path } => path == at,
                ReadWriteOperation::Mknod { path } => path == at,
                ReadWriteOperation::Symlink { path } => path == at,
                ReadWriteOperation::Link { to, .. } => to == at,
                ReadWriteOperation::Unlink { path } => path == at,
                ReadWriteOperation::Rmdir { path } => path == at,
                ReadWriteOperation::Rename { from, to } => from == at || to == at,
                ReadWriteOperation::GetXattr { .. } => false,
                ReadWriteOperation::ListXattr { .. } => false,
                ReadWriteOperation::SetXattr { path, .. } => path == at,
                ReadWriteOperation::RemoveXattr { path, .. } => path == at,
            }
        }),
        ({
            let effects = operation.effects();
            (exists|i: int|
                0 <= i < effects.len() && (#[trigger] effects[i]).kind == ProtectionKind::Read
                    && effects[i].path == at) <==> match operation {
                ReadWriteOperation::ReadFile { path } => path == at,
                ReadWriteOperation::ReadDirectory { path } => path == at,
                ReadWriteOperation::GetXattr { path, .. } => path == at,
                ReadWriteOperation::ListXattr { path } => path == at,
                _ => false,
            }
        }),
        ({
            let effects = operation.effects();
            (exists|i: int|
                0 <= i < effects.len() && (#[trigger] effects[i]).kind == ProtectionKind::Metadata
                    && effects[i].path == at) <==> match operation {
                ReadWriteOperation::Truncate { path } => path == at,
                ReadWriteOperation::Link { from, .. } => from == at,
                ReadWriteOperation::SetXattr { path, .. } => path == at,
                ReadWriteOperation::RemoveXattr { path, .. } => path == at,
                _ => false,
            }
        }),
        ({
            let effects = operation.effects();
            (exists|i: int|
                0 <= i < effects.len() && (#[trigger] effects[i]).kind == ProtectionKind::Xattr
                    && effects[i].path == at) <==> match operation {
                ReadWriteOperation::GetXattr { path, .. } => path == at,
                ReadWriteOperation::ListXattr { path } => path == at,
                ReadWriteOperation::SetXattr { path, .. } => path == at,
                ReadWriteOperation::RemoveXattr { path, .. } => path == at,
                _ => false,
            }
        }),
{
    let effects = operation.effects();
    assert(effects.len() > 0 && effects[0] == effects.first());
    if effects.len() > 1 {
        assert(effects[1].path == effects[1].path);
    }
    if effects.len() > 2 {
        assert(effects[2].path == effects[2].path);
    }
}

/// The kind of an operation is what it does first of all: reading for those that
/// read, writing for all others. The paths that decide about it are those that
/// it has effects on.
pub proof fn lemma_kind_of_operations(operation: ReadWriteOperation, at: SandboxPath)
    ensures
        operation.effect() == ProtectionKind::Read || operation.effect() == ProtectionKind::Write,
        operation.effect() == ProtectionKind::Read <==> exists|i: int|
            0 <= i < operation.effects().len() && (#[trigger] operation.effects()[i]).kind
                == ProtectionKind::Read,
        operation.is_about_xattrs() <==> exists|i: int|
            0 <= i < operation.effects().len() && (#[trigger] operation.effects()[i]).kind
                == ProtectionKind::Xattr,
        operation.subjects().contains(at) <==> exists|i: int|
            0 <= i < operation.effects().len() && (#[trigger] operation.effects()[i]).path == at,
        operation.subjects().contains(operation.subject()),
        operation.subject() == operation.subjects()[0],
{
    let effects = operation.effects();
    let subjects = operation.subjects();
    assert(effects[0] == effects.first());
    assert(subjects[0] == operation.subject());
    if effects.len() > 1 {
        assert(effects[1].path == effects[1].path);
    }
    if effects.len() > 2 {
        assert(effects[2].path == effects[2].path);
    }
    if subjects.len() > 1 {
        assert(subjects.contains(subjects[1]));
    }
}

/// An effect on a path is asked for exactly when the path stands for something,
/// some protection rule of its kind selects the path, and no passthrough rule of
/// its kind does. A directory of the overlay is a directory whatever the host
/// has.
pub proof fn lemma_rules_guard(
    sandbox: SandboxView,
    kind: ProtectionKind,
    at: SandboxPath,
    host_is_dir: bool,
)
    ensures
        ({
            let is_dir = host_is_dir || sandbox.resolution(at@) == Some(
                ResolvedView::VirtualDir { sandbox_path: at@ },
            );
            metadata_request::guarded(sandbox, kind, at, host_is_dir) <==> {
                &&& sandbox.resolution(at@) is Some
                &&& exists|i: int|
                    0 <= i < sandbox.protection_rules.len() && (
                    #[trigger] sandbox.protection_rules[i]).kind == kind && policy::selects(
                        sandbox.protection_rules[i].pattern@,
                        at.text(),
                        is_dir,
                    )
                &&& forall|i: int|
                    0 <= i < sandbox.passthrough_rules.len() && (
                    #[trigger] sandbox.passthrough_rules[i]).kind == kind ==> !policy::selects(
                        sandbox.passthrough_rules[i].pattern@,
                        at.text(),
                        is_dir,
                    )
            }
        }),
{
    if sandbox.resolution(at@) is Some {
        let is_dir = host_is_dir || sandbox.resolution(at@) == Some(
            ResolvedView::VirtualDir { sandbox_path: at@ },
        );
        assert(is_dir == metadata_request::shows_directory(sandbox, at, host_is_dir));
    }
}

/// The effects to ask for are the guarded ones among those of the operation, all
/// of them, in their order. An operation on extended attributes is asked for
/// nothing where a rule lets these pass.
pub proof fn lemma_guarded_effects_in_order(
    sandbox: SandboxView,
    about_xattrs: bool,
    effects: Seq<EffectView>,
    host_dirs: Seq<bool>,
) -> (places: Seq<int>)
    ensures
        ({
            let asked = authorize::guarded_effects(sandbox, about_xattrs, effects, host_dirs);
            &&& places.len() == asked.len()
            &&& forall|i: int, j: int| 0 <= i < j < places.len() ==> places[i] < places[j]
            &&& forall|i: int|
                0 <= i < places.len() ==> 0 <= #[trigger] places[i] < effects.len() && asked[i]
                    == effects[places[i]]
            &&& forall|k: int|
                0 <= k < effects.len() ==> (places.contains(k) <==> {
                    let effect = #[trigger] effects[k];
                    &&& metadata_request::guarded(sandbox, effect.kind, effect.path, host_dirs[k])
                    &&& about_xattrs ==> !sandbox.passes(
                        ProtectionKind::Xattr,
                        effect.path.text(),
                        metadata_request::shows_directory(sandbox, effect.path, host_dirs[k]),
                    )
                })
        }),
    decreases effects.len(),
{
    if effects.len() == 0 {
        Seq::empty()
    } else {
        let front = effects.drop_last();
        let before = lemma_guarded_effects_in_order(sandbox, about_xattrs, front, host_dirs);
        let last = effects.len() - 1;
        assert forall|k: int| 0 <= k < front.len() implies front[k] == effects[k] by {}
        assert(!before.contains(last));
        if authorize::is_guarded(sandbox, about_xattrs, effects.last(), host_dirs[last]) {
            let places = before.push(last);
            assert forall|k: int| #[trigger] places.contains(k) <==> before.contains(k) || k
                == last by {
                crate::table::lemma_push_contains(before, last);
            }
            assert forall|k: int| 0 <= k < effects.len() implies (places.contains(k) <==> {
                let effect = #[trigger] effects[k];
                &&& metadata_request::guarded(sandbox, effect.kind, effect.path, host_dirs[k])
                &&& about_xattrs ==> !sandbox.passes(
                    ProtectionKind::Xattr,
                    effect.path.text(),
                    metadata_request::shows_directory(sandbox, effect.path, host_dirs[k]),
                )
            }) by {
                if k < last {
                    assert(front[k] == effects[k]);
                }
            }
            places
        } else {
            assert forall|k: int| 0 <= k < effects.len() implies (before.contains(k) <==> {
                let effect = #[trigger] effects[k];
                &&& metadata_request::guarded(sandbox, effect.kind, effect.path, host_dirs[k])
                &&& about_xattrs ==> !sandbox.passes(
                    ProtectionKind::Xattr,
                    effect.path.text(),
                    metadata_request::shows_directory(sandbox, effect.path, host_dirs[k]),
                )
            }) by {
                if k < last {
                    assert(front[k] == effects[k]);
                }
            }
            before
        }
    }
}

/// Where writes to a path are guarded, no operation that creates, removes,
/// renames or changes the object there goes on unasked.
pub proof fn lemma_guarded_writes_are_asked(
    sandbox: SandboxView,
    operation: ReadWriteOperation,
    at: SandboxPath,
    host_dirs: Seq<bool>,
)
    requires
        match operation {
            ReadWriteOperation::OpenWrite { path } => path == at,
            ReadWriteOperation::WriteFile { path } => path == at,
            ReadWriteOperation::Truncate { path } => path == at,
            ReadWriteOperation::Create { path } => path == at,
            ReadWriteOperation::Mkdir { path } => path == at,
            ReadWriteOperation::Mknod { path } => path == at,
            ReadWriteOperation::Symlink { path } => path == at,
            ReadWriteOperation::Link { to, .. } => to == at,
            ReadWriteOperation::Unlink { path } => path == at,
            ReadWriteOperation::Rmdir { path } => path == at,
            ReadWriteOperation::Rename { from, to } => from == at || to == at,
            _ => false,
        },
        host_dirs.len() == operation.effects().len(),
        forall|i: int|
            0 <= i < host_dirs.len() ==> metadata_request::guarded(
                sandbox,
                ProtectionKind::Write,
                at,
                #[trigger] host_dirs[i],
            ),
    ensures
        ({
            let asked = authorize::guarded_effects(
                sandbox,
                operation.is_about_xattrs(),
                operation.effects(),
                host_dirs,
            );
            exists|i: int|
                0 <= i < asked.len() && (#[trigger] asked[i]).kind == ProtectionKind::Write
                    && asked[i].path == at
        }),
{
    let effects = operation.effects();
    let asked = authorize::guarded_effects(
        sandbox,
        operation.is_about_xattrs(),
        effects,
        host_dirs,
    );
    lemma_effects_of_operations(operation, at);
    lemma_kind_of_operations(operation, at);
    let places = lemma_guarded_effects_in_order(
        sandbox,
        operation.is_about_xattrs(),
        effects,
        host_dirs,
    );
    let k = choose|k: int|
        0 <= k < effects.len() && (#[trigger] effects[k]).kind == ProtectionKind::Write
            && effects[k].path == at;
    assert(metadata_request::guarded(sandbox, ProtectionKind::Write, at, host_dirs[k]));
    assert(places.contains(k));
    let i = choose|i: int| 0 <= i < places.len() && places[i] == k;
    assert(asked[i] == effects[k]);
}

/// An operation that reads no contents is never asked for a read, and one that
/// changes nothing is never asked for a write.
pub proof fn lemma_only_own_effects_are_asked(
    sandbox: SandboxView,
    operation: ReadWriteOperation,
    host_dirs: Seq<bool>,
    i: int,
)
    requires
        0 <= i < authorize::guarded_effects(
            sandbox,
            operation.is_about_xattrs(),
            operation.effects(),
            host_dirs,
        ).len(),
    ensures
        ({
            let asked = authorize::guarded_effects(
                sandbox,
                operation.is_about_xattrs(),
                operation.effects(),
                host_dirs,
            )[i];
            &&& asked.kind == ProtectionKind::Read ==> operation is ReadFile
                || operation is ReadDirectory || operation is GetXattr || operation is ListXattr
            &&& asked.kind == ProtectionKind::Write ==> !(operation is ReadFile
                || operation is ReadDirectory || operation is GetXattr || operation is ListXattr)
            &&& asked.kind == ProtectionKind::Xattr ==> operation is GetXattr
                || operation is ListXattr || operation is SetXattr || operation is RemoveXattr
        }),
{
    let places = lemma_guarded_effects_in_order(
        sandbox,
        operation.is_about_xattrs(),
        operation.effects(),
        host_dirs,
    );
    let effect = operation.effects()[places[i]];
    lemma_effects_of_operations(operation, effect.path);
}

/// The first decision that refuses is what the operation is answered with. Where
/// none does, a write that one decision lets go without doing anything finds the
/// file system read-only, and everything else is carried out.
pub proof fn lemma_first_refusal_answers(writes: bool, decisions: Seq<PendingDecision>, i: int)
    ensures
        0 <= i < decisions.len() && (forall|j: int|
            0 <= j < i ==> decisions[j] is Apply || decisions[j] is DoNothing)
            && decisions[i] is Deny ==> authorize::answered_with(writes, decisions) == Some(
            attr::Errno::EACCES,
        ),
        0 <= i < decisions.len() && (forall|j: int|
            0 <= j < i ==> decisions[j] is Apply || decisions[j] is DoNothing)
            && decisions[i] is Cancel ==> authorize::answered_with(writes, decisions) == Some(
            attr::Errno::ECANCELED,
        ),
        0 <= i < decisions.len() && (forall|j: int|
            0 <= j < decisions.len() ==> decisions[j] is Apply || decisions[j] is DoNothing)
            && decisions[i] is DoNothing ==> authorize::answered_with(writes, decisions) == (
        if writes {
            Some(attr::Errno::EROFS)
        } else {
            None::<attr::Errno>
        }),
        (forall|j: int| 0 <= j < decisions.len() ==> decisions[j] is Apply)
            ==> authorize::answered_with(writes, decisions) is None,
{
    lemma_first_failure(decisions, i);
    if decisions.contains(PendingDecision::DoNothing) {
        let k = choose|k: int|
            0 <= k < decisions.len() && decisions[k] == PendingDecision::DoNothing;
        assert(!(decisions[k] is Apply));
    }
}

proof fn lemma_first_failure(decisions: Seq<PendingDecision>, i: int)
    ensures
        0 <= i < decisions.len() && (forall|j: int|
            0 <= j < i ==> decisions[j] is Apply || decisions[j] is DoNothing) ==> (
        decisions[i] is Deny ==> authorize::first_failure(decisions) == Some(attr::Errno::EACCES))
            && (decisions[i] is Cancel ==> authorize::first_failure(decisions) == Some(
            attr::Errno::ECANCELED,
        )),
        (forall|j: int|
            0 <= j < decisions.len() ==> decisions[j] is Apply || decisions[j] is DoNothing)
            ==> authorize::first_failure(decisions) is None,
    decreases decisions.len(),
{
    if decisions.len() > 0 {
        let front = decisions.drop_last();
        assert forall|j: int| 0 <= j < front.len() implies front[j] == decisions[j] by {}
        lemma_first_failure(front, i);
        if 0 <= i < decisions.len() && forall|j: int|
            0 <= j < i ==> decisions[j] is Apply || decisions[j] is DoNothing {
            assert forall|j: int| 0 <= j < i && j < front.len() implies front[j] is Apply
                || front[j] is DoNothing by {
                assert(front[j] == decisions[j]);
            }
            assert(i == front.len() ==> authorize::first_failure(front) is None);
        }
        if forall|j: int|
            0 <= j < decisions.len() ==> decisions[j] is Apply || decisions[j] is DoNothing {
            assert forall|j: int| 0 <= j < front.len() implies front[j] is Apply
                || front[j] is DoNothing by {
                assert(front[j] == decisions[j]);
            }
            assert(decisions[decisions.len() - 1] == decisions.last());
        }
    }
}

/// Where no grant covers them, all effects to ask for become requests, with
/// numbers one after the other, and nothing else changes.
pub proof fn lemma_uncovered_effects_are_asked(
    start: RegistryView,
    asker: AskerView,
    operation: ReadWriteOperation,
    effects: Seq<EffectView>,
)
    requires
        start.next_id + effects.len() <= u64::MAX,
        forall|id: u64, i: int|
            #![trigger start.grants.contains_key(id), effects[i]]
            start.grants.contains_key(id) && 0 <= i < effects.len() ==> !start.grants[id].covers(
                asker.name,
                effects[i].kind,
                effects[i].path,
                asker.identity,
                asker.now,
            ),
    ensures
        ({
            let done = authorize::settled(start, asker, operation, effects);
            &&& done.registry == RegistryView {
                next_id: (start.next_id + effects.len()) as u64,
                ..start
            }
            &&& done.events.len() == 0
            &&& done.asks.len() == effects.len()
            &&& forall|i: int|
                0 <= i < effects.len() ==> {
                    let request = (#[trigger] done.asks[i]).request;
                    &&& request.id == start.next_id + i
                    &&& done.asks[i].event.0 == request.id
                    &&& request.sandbox == asker.name
                    &&& request.attach_id == asker.attach_id
                    &&& request.operation == operation
                    &&& request.kind == effects[i].kind
                    &&& request.path == effects[i].path
                    &&& request.pid == asker.requester.pid
                    &&& request.uid == asker.requester.uid
                    &&& request.gid == asker.requester.gid
                    &&& request.process_identity == asker.identity
                    &&& request.description == effects[i].description
                }
        }),
    decreases effects.len(),
{
    if effects.len() > 0 {
        let before = effects.drop_last();
        assert forall|i: int| 0 <= i < before.len() implies before[i] == effects[i] by {}
        assert(effects[effects.len() - 1] == effects.last());
        lemma_uncovered_effects_are_asked(start, asker, operation, before);
        let done = authorize::settled(start, asker, operation, effects);
        let front = authorize::settled(start, asker, operation, effects.drop_last());
        assert forall|i: int| 0 <= i < front.asks.len() implies #[trigger] done.asks[i]
            == front.asks[i] by {}
    }
}

/// Whatever is held, deciding about the effects of an operation touches no
/// sandbox and no pending request, makes no grant and ends none but those for a
/// single use, and never asks for an effect that a lasting grant covers.
pub proof fn lemma_settling_keeps(
    start: RegistryView,
    asker: AskerView,
    operation: ReadWriteOperation,
    effects: Seq<EffectView>,
    grant_id: u64,
)
    ensures
        ({
            let done = authorize::settled(start, asker, operation, effects);
            &&& done.registry.sandboxes == start.sandboxes
            &&& done.registry.pending == start.pending
            &&& done.registry.pending_read_write == start.pending_read_write
            &&& done.registry.waiters == start.waiters
            &&& done.registry.index == start.index
            &&& done.registry.trusted == start.trusted
            &&& done.registry.grants.contains_key(grant_id) ==> start.grants.contains_key(grant_id)
                && done.registry.grants[grant_id] == start.grants[grant_id]
            &&& start.grants.contains_key(grant_id)
                && start.grants[grant_id].lifetime is Duration
                ==> done.registry.grants.contains_key(grant_id)
            &&& done.asks.len() <= effects.len()
            &&& forall|i: int|
                0 <= i < done.asks.len() && start.grants.contains_key(grant_id)
                    && start.grants[grant_id].lifetime is Duration
                    ==> !start.grants[grant_id].covers(
                    asker.name,
                    (#[trigger] done.asks[i]).request.kind,
                    done.asks[i].request.path,
                    asker.identity,
                    asker.now,
                )
        }),
    decreases effects.len(),
{
    if effects.len() > 0 {
        lemma_settling_keeps(start, asker, operation, effects.drop_last(), grant_id);
        let front = authorize::settled(start, asker, operation, effects.drop_last());
        let done = authorize::settled(start, asker, operation, effects);
        if authorize::is_covered(front.registry, asker, effects.last()) {
            let used = authorize::cover_of(front.registry, asker, effects.last());
            assert(done.asks == front.asks);
        } else {
            assert forall|i: int|
                0 <= i < done.asks.len() && start.grants.contains_key(grant_id)
                    && start.grants[grant_id].lifetime is Duration implies !start.grants[grant_id].covers(
                asker.name,
                (#[trigger] done.asks[i]).request.kind,
                done.asks[i].request.path,
                asker.identity,
                asker.now,
            ) by {
                if i < front.asks.len() {
                    assert(done.asks[i] == front.asks[i]);
                } else {
                    assert(front.registry.grants.contains_key(grant_id));
                }
            }
        }
    }
}

/// No guarded write passes unasked: where writes to a path are guarded and no
/// grant covers what the operation does, an operation that creates, removes,
/// renames or changes the object there waits for a decision about just that.
pub proof fn lemma_guarded_writes_wait(
    before: RegistryView,
    asker: AskerView,
    operation: ReadWriteOperation,
    at: SandboxPath,
    host_dirs: Seq<bool>,
    result: Result<Authorization, attr::Errno>,
) -> (place: int)
    requires
        before.sandboxes.contains_key(asker.name),
        forall|id: u64| !#[trigger] before.grants.contains_key(id),
        match operation {
            ReadWriteOperation::OpenWrite { path } => path == at,
            ReadWriteOperation::WriteFile { path } => path == at,
            ReadWriteOperation::Truncate { path } => path == at,
            ReadWriteOperation::Create { path } => path == at,
            ReadWriteOperation::Mkdir { path } => path == at,
            ReadWriteOperation::Mknod { path } => path == at,
            ReadWriteOperation::Symlink { path } => path == at,
            ReadWriteOperation::Link { to, .. } => to == at,
            ReadWriteOperation::Unlink { path } => path == at,
            ReadWriteOperation::Rmdir { path } => path == at,
            ReadWriteOperation::Rename { from, to } => from == at || to == at,
            _ => false,
        },
        host_dirs.len() == operation.effects().len(),
        forall|i: int|
            0 <= i < host_dirs.len() ==> metadata_request::guarded(
                before.sandboxes[asker.name],
                ProtectionKind::Write,
                at,
                #[trigger] host_dirs[i],
            ),
        authorize::decided_by_rules(
            before,
            asker,
            authorize::guarded_effects(
                before.sandboxes[asker.name],
                operation.is_about_xattrs(),
                operation.effects(),
                host_dirs,
            ),
            result,
        ),
    ensures
        result is Ok,
        result->Ok_0 is Ask,
        0 <= place < result->Ok_0->asks.len(),
        result->Ok_0->asks@[place].request.kind is Write,
        result->Ok_0->asks@[place].request.path == at,
{
    lemma_guarded_writes_are_asked(before.sandboxes[asker.name], operation, at, host_dirs);
    let asked = authorize::guarded_effects(
        before.sandboxes[asker.name],
        operation.is_about_xattrs(),
        operation.effects(),
        host_dirs,
    );
    let place = choose|i: int|
        0 <= i < asked.len() && (#[trigger] asked[i]).kind == ProtectionKind::Write
            && asked[i].path == at;
    assert(asked[place].path == at);
    let request = result->Ok_0->asks@[place]@.request;
    assert(request.kind == asked[place].kind);
    place
}

/// What no rule guards passes: an operation none of whose effects is guarded is
/// free, in every sandbox that there is.
pub proof fn lemma_unguarded_operations_pass(
    before: RegistryView,
    asker: AskerView,
    operation: ReadWriteOperation,
    host_dirs: Seq<bool>,
    result: Result<Authorization, attr::Errno>,
)
    requires
        before.sandboxes.contains_key(asker.name),
        forall|i: int|
            0 <= i < operation.effects().len() ==> !metadata_request::guarded(
                before.sandboxes[asker.name],
                (#[trigger] operation.effects()[i]).kind,
                operation.effects()[i].path,
                host_dirs[i],
            ),
        authorize::decided_by_rules(
            before,
            asker,
            authorize::guarded_effects(
                before.sandboxes[asker.name],
                operation.is_about_xattrs(),
                operation.effects(),
                host_dirs,
            ),
            result,
        ),
    ensures
        result is Ok,
        result->Ok_0 is Free,
{
    crate::laws::lemma_every_effect_counts(
        before.sandboxes[asker.name],
        operation.is_about_xattrs(),
        operation.effects(),
        host_dirs,
    );
}

/// An effect that some grant covers passes by the earliest such grant and is not
/// asked for: a grant for a single use is gone then, and any other is left.
pub proof fn lemma_covered_effect_passes(
    start: RegistryView,
    asker: AskerView,
    operation: ReadWriteOperation,
    effect: EffectView,
    grant_id: u64,
) -> (used: u64)
    requires
        start.next_id < u64::MAX,
        start.grants.contains_key(grant_id),
        start.grants[grant_id].covers(
            asker.name,
            effect.kind,
            effect.path,
            asker.identity,
            asker.now,
        ),
    ensures
        ({
            let done = authorize::settled(start, asker, operation, seq![effect]);
            &&& used <= grant_id
            &&& start.grants.contains_key(used)
            &&& start.grants[used].covers(
                asker.name,
                effect.kind,
                effect.path,
                asker.identity,
                asker.now,
            )
            &&& done.asks.len() == 0
            &&& start.grants[used].lifetime is OneShot ==> done.registry.grants
                == start.grants.remove(used) && done.events.len() == 1
            &&& start.grants[used].lifetime is Duration ==> done.registry == start
                && done.events.len() == 0
        }),
{
    let covers = |id: u64|
        start.grants.contains_key(id) && start.grants[id].covers(
            asker.name,
            effect.kind,
            effect.path,
            asker.identity,
            asker.now,
        );
    assert(covers(grant_id));
    crate::laws::grants::lemma_least(covers, grant_id as nat);
    let least = choose|e: u64|
        e <= grant_id && #[trigger] covers(e) && forall|y: u64| y < e ==> !#[trigger] covers(y);
    assert forall|id: u64| #[trigger]
        start.grants.contains_key(id) && id < least implies !start.grants[id].covers(
        asker.name,
        effect.kind,
        effect.path,
        asker.identity,
        asker.now,
    ) by {
        assert(!covers(id));
    }
    assert(start.first_cover(
        least,
        asker.name,
        effect.kind,
        effect.path,
        asker.identity,
        asker.now,
    ));
    let used = authorize::cover_of(start, asker, effect);
    assert(start.first_cover(
        used,
        asker.name,
        effect.kind,
        effect.path,
        asker.identity,
        asker.now,
    ));
    assert(used <= grant_id) by {
        if grant_id < used {
            assert(start.grants.contains_key(grant_id));
        }
    }
    assert(authorize::is_covered(start, asker, effect));
    let none = Seq::<EffectView>::empty();
    assert(seq![effect].drop_last() =~= none);
    let begun = authorize::settled(start, asker, operation, none);
    assert(begun.registry == start && begun.events.len() == 0 && begun.asks.len() == 0);
    assert(authorize::settled(start, asker, operation, seq![effect]) == authorize::after_effect(
        begun,
        asker,
        operation,
        effect,
    ));
    used
}

} // verus!
