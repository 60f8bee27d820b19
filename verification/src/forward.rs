//! What an operation that may be carried out works on.

use vstd::prelude::*;

use crate::attr;
use crate::attr::Errno;
use crate::fs::SandboxFs;
use crate::host::HostPath;
use crate::operation::ReadWriteOperation;
use crate::path::SandboxPath;
use crate::policy::ProtectionKind;
use crate::registry::SandboxRegistry;
use crate::sandbox::ResolvedPath;
use crate::sandbox::ResolvedView;
use crate::sandbox::Sandbox;
use crate::sandbox::SandboxView;

verus! {

broadcast use {vstd::string::group_string_axioms, crate::table::group_shown};

/// The inode flags say that the object cannot change.
pub open spec fn is_immutable(flags: u32) -> bool {
    flags & attr::FS_IMMUTABLE_FL != 0
}

/// The sandbox shows the object at the path with flags that forbid changes.
pub open spec fn forbids_changes(sandbox: SandboxView, at: SandboxPath) -> bool {
    match sandbox.override_at(at@) {
        Some(change) => change.flags is Some && is_immutable(change.flags->0),
        None => false,
    }
}

/// The host path that the operation works on for one of its paths. Only what a
/// layer shows can be worked on, and what is immutable cannot be changed.
pub open spec fn target_of(sandbox: SandboxView, writes: bool, at: SandboxPath) -> Result<
    Seq<char>,
    Errno,
> {
    match sandbox.resolution(at@) {
        Some(ResolvedView::Real { local_path, .. }) => if writes && forbids_changes(sandbox, at) {
            Err(Errno::EPERM)
        } else {
            Ok(local_path)
        },
        Some(ResolvedView::VirtualDir { .. }) => Err(
            if writes {
                Errno::EROFS
            } else {
                Errno::ENOTSUP
            },
        ),
        None => Err(
            if writes {
                Errno::EROFS
            } else {
                Errno::ENOENT
            },
        ),
    }
}

/// The error of the first path that the operation cannot work on.
pub open spec fn first_obstacle(sandbox: SandboxView, writes: bool, paths: Seq<SandboxPath>) -> Option<
    Errno,
>
    decreases paths.len(),
{
    if paths.len() == 0 {
        None
    } else {
        match first_obstacle(sandbox, writes, paths.drop_last()) {
            Some(errno) => Some(errno),
            None => match target_of(sandbox, writes, paths.last()) {
                Ok(_) => None,
                Err(errno) => Some(errno),
            },
        }
    }
}

fn forward_target(sandbox: &Sandbox, writes: bool, path: &SandboxPath) -> (result: Result<
    HostPath,
    Errno,
>)
    ensures
        match target_of(sandbox@, writes, *path) {
            Ok(local_path) => result matches Ok(target) && target@ == local_path,
            Err(errno) => result == Err::<HostPath, Errno>(errno),
        },
{
    match sandbox.resolve(path) {
        Some(ResolvedPath::Real { local_path, .. }) => {
            if writes {
                if let Some(change) = sandbox.metadata_override_for_path(path) {
                    if let Some(flags) = change.flags {
                        if flags & attr::FS_IMMUTABLE_FL != 0 {
                            return Err(Errno::EPERM);
                        }
                    }
                }
            }
            Ok(local_path)
        },
        Some(ResolvedPath::VirtualDir { .. }) => if writes {
            Err(Errno::EROFS)
        } else {
            Err(Errno::ENOTSUP)
        },
        None => if writes {
            Err(Errno::EROFS)
        } else {
            Err(Errno::ENOENT)
        },
    }
}

impl SandboxFs {
    /// The host paths that an operation works on when it is carried out, one for
    /// each of its paths.
    pub fn forward_targets(&self, registry: &SandboxRegistry, operation: &ReadWriteOperation) -> (result:
        Result<Vec<HostPath>, Errno>)
        ensures
            ({
                let sandbox = registry@.sandboxes[self.sandbox_name@];
                let writes = operation.effect() is Write;
                let paths = operation.subjects();
                if !registry@.sandboxes.contains_key(self.sandbox_name@) {
                    result == Err::<Vec<HostPath>, Errno>(Errno::ENOENT)
                } else {
                    match first_obstacle(sandbox, writes, paths) {
                        Some(errno) => result == Err::<Vec<HostPath>, Errno>(errno),
                        None => {
                            &&& result is Ok
                            &&& result->Ok_0.len() == paths.len()
                            &&& forall|i: int|
                                0 <= i < paths.len() ==> target_of(sandbox, writes, paths[i])
                                    == Ok::<Seq<char>, Errno>((#[trigger] result->Ok_0@[i])@)
                        },
                    }
                }
            }),
    {
        let sandbox = match registry.sandboxes.get(&self.sandbox_name) {
            Some(sandbox) => sandbox,
            None => {
                return Err(Errno::ENOENT);
            },
        };
        let writes = operation.kind() == ProtectionKind::Write;
        let paths = operation.protection_paths();
        let ghost subjects = operation.subjects();
        let mut targets: Vec<HostPath> = Vec::new();
        for i in 0..paths.len()
            invariant
                targets.len() == i,
                paths.len() == subjects.len(),
                forall|j: int| 0 <= j < paths.len() ==> *(#[trigger] paths@[j]) == subjects[j],
                first_obstacle(sandbox@, writes, subjects.take(i as int)) is None,
                forall|j: int|
                    0 <= j < i ==> target_of(sandbox@, writes, subjects[j]) == Ok::<Seq<char>, Errno>(
                        (#[trigger] targets@[j])@,
                    ),
                registry@.sandboxes.contains_key(self.sandbox_name@),
                sandbox@ == registry@.sandboxes[self.sandbox_name@],
                writes == (operation.effect() is Write),
                subjects == operation.subjects(),
        {
            assert(subjects.take(i + 1).drop_last() =~= subjects.take(i as int));
            assert(*paths@[i as int] == subjects[i as int]);
            match forward_target(sandbox, writes, paths[i]) {
                Ok(target) => targets.push(target),
                Err(errno) => {
                    proof {
                        lemma_first_obstacle_stays(sandbox@, writes, subjects, i + 1);
                    }
                    return Err(errno);
                },
            }
        }
        assert(subjects.take(paths.len() as int) =~= subjects);
        Ok(targets)
    }
}

proof fn lemma_first_obstacle_stays(
    sandbox: SandboxView,
    writes: bool,
    paths: Seq<SandboxPath>,
    n: int,
)
    requires
        0 <= n <= paths.len(),
        first_obstacle(sandbox, writes, paths.take(n)) is Some,
    ensures
        first_obstacle(sandbox, writes, paths) == first_obstacle(sandbox, writes, paths.take(n)),
    decreases paths.len(),
{
    if n == paths.len() {
        assert(paths.take(n) =~= paths);
    } else {
        let rest = paths.drop_last();
        assert(rest.take(n) =~= paths.take(n));
        lemma_first_obstacle_stays(sandbox, writes, rest, n);
    }
}

} // verus!
