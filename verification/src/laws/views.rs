//! What a mounted view shows and plans.

use vstd::prelude::*;

use crate::attr;
use crate::attr::DirEntryInfo;
use crate::attr::Errno;
use crate::attr::FileAttr;
use crate::attr::FileType;
use crate::attr::HostMetadata;
use crate::authorize;
use crate::fs;
use crate::fs::Child;
use crate::fs::OpenPlan;
use crate::fs::SandboxFs;
use crate::fs::SetAttrPlan;
use crate::metadata_request;
use crate::operation::ReadWriteOperation;
use crate::path;
use crate::path::SandboxPath;
use crate::policy::ProtectionKind;
use crate::sandbox::ResolvedView;
use crate::sandbox::SandboxView;

verus! {

/// What shows at a path is what the override of the path sets, and for the rest
/// what the host tells of the object, or what a directory of the overlay is
/// like. The inode number is always that of the path.
pub proof fn lemma_shown_attributes(
    sandbox: SandboxView,
    path: SandboxPath,
    host: Result<HostMetadata, Errno>,
    euid: u32,
    egid: u32,
    shown: FileAttr,
)
    requires
        fs::shows_as(sandbox, path, host, euid, egid, shown),
    ensures
        sandbox.resolution(path@) is Some,
        shown.ino == attr::inode_of(path) as u64,
        sandbox.resolution(path@)->0 is VirtualDir ==> shown.kind is Directory,
        sandbox.resolution(path@)->0 is Real ==> host is Ok && shown.size == host->Ok_0.size,
        sandbox.override_at(path@) matches Some(change) ==> {
            &&& change.mode is Some ==> shown.perm == change.mode->0
            &&& change.uid is Some ==> shown.uid == change.uid->0
            &&& change.gid is Some ==> shown.gid == change.gid->0
            &&& change.flags is Some ==> shown.flags == change.flags->0
            &&& change.atime is Some ==> shown.atime == change.atime->0
            &&& change.mtime is Some ==> shown.mtime == change.mtime->0
        },
        sandbox.override_at(path@) is None && sandbox.resolution(path@)->0 is Real ==> shown.uid
            == host->Ok_0.uid && shown.gid == host->Ok_0.gid && shown.perm == host->Ok_0.mode
            % 0x1000,
        sandbox.override_at(path@) is None && sandbox.resolution(path@)->0 is VirtualDir
            ==> shown.uid == euid && shown.gid == egid,
{
    if sandbox.resolution(path@)->0 is Real {
        crate::laws::attributes::lemma_host_attributes(path, host->Ok_0);
    } else {
        crate::laws::attributes::lemma_virtual_directory(path, euid, egid, 0, 0, 0);
    }
    if sandbox.override_at(path@) is Some {
        let plain = if sandbox.resolution(path@)->0 is Real {
            attr::host_attr(path, host->Ok_0)
        } else {
            attr::virtual_dir(path, euid, egid)
        };
        crate::laws::attributes::lemma_override_shows_each_attribute(
            plain,
            sandbox.override_at(path@)->0,
        );
    }
}

/// Nothing is opened for writing without asking: where writes to the path are
/// guarded the plan is asked for. What is only read is read where the path
/// stands.
pub proof fn lemma_opening_asks_first(
    sandbox: SandboxView,
    known: SandboxPath,
    resolution: Option<ResolvedView>,
    read_only: bool,
    result: Result<OpenPlan, Errno>,
    host_dirs: Seq<bool>,
)
    requires
        fs::opens(Some(known), resolution, read_only, result),
    ensures
        !read_only ==> result is Ok && result->Ok_0 is Authorize,
        !read_only && host_dirs.len() == 1 && metadata_request::guarded(
            sandbox,
            ProtectionKind::Write,
            known,
            host_dirs[0],
        ) ==> authorize::guarded_effects(
            sandbox,
            false,
            result->Ok_0->operation.effects(),
            host_dirs,
        ).len() > 0,
        read_only && result is Ok ==> result->Ok_0 is Read && result->Ok_0->path == known
            && resolution is Some && resolution->0 is Real && result->Ok_0->local_path@
            == resolution->0->local_path,
        read_only && resolution is Some && resolution->0 is Real ==> result is Ok,
        read_only && !(resolution is Some && resolution->0 is Real) ==> result is Err,
{
    if !read_only && host_dirs.len() == 1 && metadata_request::guarded(
        sandbox,
        ProtectionKind::Write,
        known,
        host_dirs[0],
    ) {
        let operation = ReadWriteOperation::OpenWrite { path: known };
        crate::laws::access::lemma_guarded_writes_are_asked(sandbox, operation, known, host_dirs);
        crate::laws::access::lemma_kind_of_operations(operation, known);
    }
}

/// A new size is a write and nothing else; any other change of attributes is a
/// change of metadata on the same path, with the last twelve bits of the mode.
pub proof fn lemma_changes_are_told_apart(
    known: Option<SandboxPath>,
    mode: Option<u32>,
    size: Option<u64>,
    result: Result<SetAttrPlan, Errno>,
)
    requires
        fs::plans_change(known, mode, size, result),
    ensures
        known is None <==> result is Err,
        known is Some && size is Some ==> result->Ok_0 is Write && result->Ok_0->Write_operation == (
        ReadWriteOperation::Truncate { path: known->0 }),
        known is Some && size is None ==> {
            let operation = result->Ok_0->Metadata_operation;
            &&& result->Ok_0 is Metadata
            &&& operation.subject() == known->0
            &&& operation is SetAttr
            &&& mode is Some ==> operation->SetAttr_mode is Some && operation->SetAttr_mode->0
                == mode->0 % 4096
            &&& mode is None ==> operation->SetAttr_mode is None
        },
{
}

/// Every directory lists itself and its parent first, and the way up from the
/// root leads to the root.
pub proof fn lemma_directories_list_their_parent(
    dir: Seq<Seq<char>>,
    name: Seq<char>,
    ino: u64,
    entries: Seq<DirEntryInfo>,
)
    requires
        fs::begins_with_dots(ino, dir.push(name), entries),
    ensures
        entries[0].ino == ino,
        entries[1].ino == attr::inode_at(dir),
        dir.len() == 0 ==> entries[1].ino == 1,
        entries[0].kind is Directory,
        entries[1].kind is Directory,
{
    assert(dir.push(name).drop_last() =~= dir);
}

/// The root lists itself as its own parent.
pub proof fn lemma_root_lists_itself(ino: u64, entries: Seq<DirEntryInfo>)
    requires
        fs::begins_with_dots(ino, Seq::empty(), entries),
    ensures
        entries[0].ino == ino,
        entries[1].ino == ino,
{
}

/// A view that was just made knows the root under the inode number one, and
/// nothing else.
pub proof fn lemma_fresh_view_knows_the_root(
    view: SandboxFs,
    name: Seq<char>,
    attach_id: Option<u64>,
    ino: u64,
)
    requires
        fs::is_fresh(view, name, attach_id),
    ensures
        view.known(ino) is Some <==> ino == 1,
        view.known(1) is Some && view.known(1)->0@.len() == 0,
        view.sandbox_name@ == name,
        view.attach_id == attach_id,
        forall|fh: u64| !#[trigger] view.handles@.contains_key(fh),
{
    assert(view.inodes@.dom().contains(ino) <==> ino == attr::ROOT_INO);
    assert(view.inodes@.dom().contains(1));
}

/// An entry has the inode number of the path that it leads to, and is a file
/// where nobody knows better.
pub proof fn lemma_entries_lead_to_their_path(
    entry: DirEntryInfo,
    child: Child,
    kind: Option<FileType>,
)
    requires
        fs::is_child_entry(entry, child, kind),
    ensures
        entry.name@ == child.name@,
        entry.ino == attr::inode_of(child.path),
        kind is Some ==> entry.kind == kind->0,
        kind is None ==> entry.kind is RegularFile,
{
}

/// A directory lists each name once, and just those that it shows, with the path
/// that the name leads to there.
pub proof fn lemma_directories_list_what_they_show(
    sandbox: SandboxView,
    dir: Seq<Seq<char>>,
    listing: Option<Seq<Seq<char>>>,
    children: Seq<Child>,
    name: Seq<char>,
    i: int,
    j: int,
)
    requires
        fs::lists_children(sandbox, dir, listing, children),
    ensures
        sandbox.child(dir, listing, name) is Some <==> exists|k: int|
            0 <= k < children.len() && (#[trigger] children[k]).name@ == name,
        0 <= i < children.len() ==> sandbox.child(dir, listing, children[i].name@) is Some,
        0 <= i < children.len() && path::normal(children[i].name@) ==> children[i].path@ == dir.push(
            children[i].name@,
        ),
        0 <= i < j < children.len() ==> children[i].name@ != children[j].name@,
{
    if 0 <= i < children.len() {
        let own = children[i].name@;
        assert(children[i].name@ == own);
        assert(sandbox.child(dir, listing, own) is Some);
        if path::normal(own) {
            crate::laws::keeping::lemma_names_lead_down(dir, own);
        }
    }
    if 0 <= i < j < children.len() {
        let names = children.map_values(|child: Child| child.name@);
        assert(names[i] == children[i].name@ && names[j] == children[j].name@);
        crate::table::lemma_before_irreflexive(
            <String as crate::table::TableKey>::code(children[i].name@),
        );
    }
}

} // verus!
