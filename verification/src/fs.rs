//! A view of a sandbox as a filesystem: inodes, open files, and what each
//! request of the kernel leads to.

use std::collections::BTreeMap;

use vstd::prelude::*;

use crate::attr;
use crate::attr::DirEntryInfo;
use crate::attr::Errno;
use crate::attr::FileAttr;
use crate::attr::FileType;
use crate::attr::HostMetadata;
use crate::host::HostPath;
use crate::operation::MetadataOperation;
use crate::operation::ReadWriteOperation;
use crate::path::SandboxPath;
use crate::registry::SandboxRegistry;
use crate::sandbox::ResolvedPath;
use crate::sandbox::ResolvedView;
use crate::text;
use crate::time::Timestamp;

verus! {

broadcast use {vstd::string::group_string_axioms, crate::table::group_shown};

/// An open file.
#[derive(Debug)]
pub struct HandleInfo {
    pub local_path: HostPath,
    pub sandbox_path: SandboxPath,
    /// Whether data goes to the end, wherever it is written.
    pub append: bool,
}

impl HandleInfo {
    /// Where data that is written at an offset goes; `None` is the end.
    pub fn write_position(&self, offset: u64) -> (position: Option<u64>)
        ensures
            position == if self.append {
                None::<u64>
            } else {
                Some(offset)
            },
    {
        if self.append {
            None
        } else {
            Some(offset)
        }
    }
}

impl Clone for HandleInfo {
    fn clone(&self) -> (copy: Self)
        ensures
            copy == *self,
    {
        HandleInfo {
            local_path: self.local_path.clone(),
            sandbox_path: self.sandbox_path.clone(),
            append: self.append,
        }
    }
}

/// A view of a sandbox: the inodes that the kernel knows, and the open files.
#[derive(Debug)]
pub struct SandboxFs {
    pub sandbox_name: String,
    pub attach_id: Option<u64>,
    pub inodes: BTreeMap<u64, SandboxPath>,
    pub handles: BTreeMap<u64, HandleInfo>,
    pub next_handle: u64,
}

/// The inodes after paths were remembered.
pub open spec fn remembered(inodes: Map<u64, SandboxPath>, paths: Seq<SandboxPath>) -> Map<
    u64,
    SandboxPath,
>
    decreases paths.len(),
{
    if paths.len() == 0 {
        inodes
    } else {
        remembered(inodes, paths.drop_last()).insert(
            attr::inode_of(paths.last()) as u64,
            paths.last(),
        )
    }
}

/// A view that knows only the root and has no open files.
pub open spec fn is_fresh(fs: SandboxFs, name: Seq<char>, attach_id: Option<u64>) -> bool {
    &&& fs.sandbox_name@ == name
    &&& fs.attach_id == attach_id
    &&& fs.inodes@.dom() == set![attr::ROOT_INO]
    &&& fs.inodes@[attr::ROOT_INO]@ == Seq::<Seq<char>>::empty()
    &&& fs.handles@ == Map::<u64, HandleInfo>::empty()
    &&& fs.next_handle == 1
}

/// What an open file needs.
#[derive(Debug)]
pub enum OpenPlan {
    /// Opening for writing has to be authorized first.
    Authorize { operation: ReadWriteOperation },
    /// The file is read from the host path.
    Read { local_path: HostPath, path: SandboxPath },
}

/// What a change of attributes asks for.
#[allow(inconsistent_fields)]
#[derive(Debug)]
pub enum SetAttrPlan {
    /// A change of size is a write.
    Write { operation: ReadWriteOperation },
    Metadata { operation: MetadataOperation },
}

/// A name in a directory with the path that it leads to.
#[derive(Debug)]
pub struct Child {
    pub name: String,
    pub path: SandboxPath,
}

/// An entry of a directory with the offset of the next one.
#[derive(Debug)]
pub struct DirectoryItem {
    pub entry: DirEntryInfo,
    pub next: u64,
}

/// The entry of a directory for a child.
pub open spec fn is_child_entry(entry: DirEntryInfo, child: Child, kind: Option<FileType>) -> bool {
    &&& entry.name@ == child.name@
    &&& entry.ino == attr::inode_of(child.path)
    &&& entry.kind == attr::replaced(kind, FileType::RegularFile)
}

/// The attributes that show at a path: those of a directory of the overlay or
/// those that the host tells, under the override of the path.
pub open spec fn shows_as(
    sandbox: crate::sandbox::SandboxView,
    path: SandboxPath,
    host: Result<HostMetadata, Errno>,
    euid: u32,
    egid: u32,
    shown: FileAttr,
) -> bool {
    let plain = if sandbox.resolution(path@)->0 is Real {
        attr::host_attr(path, host->Ok_0)
    } else {
        attr::virtual_dir(path, euid, egid)
    };
    &&& sandbox.resolution(path@) is Some
    &&& sandbox.resolution(path@)->0 is Real ==> host is Ok
    &&& shown == attr::overridden(plain, sandbox.override_at(path@))
}

/// What opening an inode leads to: a question before it is written to, and the
/// file of the host where it is only read.
pub open spec fn opens(
    known: Option<SandboxPath>,
    resolution: Option<ResolvedView>,
    read_only: bool,
    result: Result<OpenPlan, Errno>,
) -> bool {
    match result {
        Ok(OpenPlan::Authorize { operation }) => {
            &&& known is Some
            &&& !read_only
            &&& operation == (ReadWriteOperation::OpenWrite { path: known->0 })
        },
        Ok(OpenPlan::Read { local_path, path }) => {
            &&& known == Some(path)
            &&& read_only
            &&& resolution is Some && resolution->0 is Real
            &&& local_path@ == resolution->0->local_path
        },
        Err(errno) => known is None || (read_only && !(resolution is Some
            && resolution->0 is Real)),
    }
}

/// What a change of attributes asks for: a new size is a write, and everything
/// else a change of metadata with the permission bits of the mode.
pub open spec fn plans_change(
    known: Option<SandboxPath>,
    mode: Option<u32>,
    size: Option<u64>,
    result: Result<SetAttrPlan, Errno>,
) -> bool {
    match result {
        Ok(SetAttrPlan::Write { operation }) => {
            &&& known is Some
            &&& size is Some
            &&& operation == (ReadWriteOperation::Truncate { path: known->0 })
        },
        Ok(SetAttrPlan::Metadata { operation }) => {
            &&& known == Some(operation.subject())
            &&& size is None
            &&& operation is SetAttr
            &&& operation->SetAttr_mode is Some <==> mode is Some
            &&& mode is Some ==> operation->SetAttr_mode->0 == mode->0 % 0x1000
        },
        Err(errno) => known is None && errno == Errno::ENOENT,
    }
}

/// The entries of a directory begin with the directory itself and its parent;
/// the root is its own parent.
pub open spec fn begins_with_dots(
    ino: u64,
    dir: Seq<Seq<char>>,
    entries: Seq<DirEntryInfo>,
) -> bool {
    &&& entries.len() >= 2
    &&& entries[0].kind is Directory && entries[0].ino == ino
    &&& entries[1].kind is Directory
    &&& dir.len() == 0 ==> entries[1].ino == ino
    &&& dir.len() > 0 ==> entries[1].ino == attr::inode_at(dir.drop_last())
}

impl SandboxFs {
    /// The path that is known under an inode number.
    pub open spec fn known(self, ino: u64) -> Option<SandboxPath> {
        if self.inodes@.contains_key(ino) {
            Some(self.inodes@[ino])
        } else {
            None
        }
    }

    pub fn new(sandbox_name: String) -> (fs: Self)
        ensures
            is_fresh(fs, sandbox_name@, None),
    {
        SandboxFs::new_with_attach_id(sandbox_name, None)
    }

    pub fn new_with_attach_id(sandbox_name: String, attach_id: Option<u64>) -> (fs: Self)
        ensures
            is_fresh(fs, sandbox_name@, attach_id),
    {
        let mut inodes: BTreeMap<u64, SandboxPath> = BTreeMap::new();
        let _ = inodes.insert(attr::ROOT_INO, SandboxPath::root());
        assert(inodes@.dom() =~= set![attr::ROOT_INO]);
        SandboxFs {
            sandbox_name,
            attach_id,
            inodes,
            handles: BTreeMap::new(),
            next_handle: 1,
        }
    }

    /// Remembers the path under its inode number.
    pub fn remember(&mut self, path: &SandboxPath) -> (ino: u64)
        ensures
            ino == attr::inode_of(*path),
            *final(self) == (SandboxFs { inodes: final(self).inodes, ..*old(self) }),
            final(self).inodes@ == old(self).inodes@.insert(ino, *path),
    {
        let ino = attr::stable_ino(path);
        let _ = self.inodes.insert(ino, path.clone());
        ino
    }

    /// The path that is remembered under an inode number.
    pub fn path_for_ino(&self, ino: u64) -> (path: Option<SandboxPath>)
        ensures
            match path {
                Some(path) => self.inodes@.contains_key(ino) && path == self.inodes@[ino],
                None => !self.inodes@.contains_key(ino),
            },
    {
        match self.inodes.get(&ino) {
            Some(path) => Some(path.clone()),
            None => None,
        }
    }

    /// The path that a name leads to from a directory.
    pub fn path_child(&self, parent: u64, name: &str) -> (result: Result<SandboxPath, Errno>)
        ensures
            match result {
                Ok(child) => {
                    &&& self.inodes@.contains_key(parent)
                    &&& child@ == crate::sandbox::child_path(self.inodes@[parent]@, name@)
                },
                Err(errno) => !self.inodes@.contains_key(parent) && errno == Errno::ENOENT,
            },
    {
        match self.path_for_ino(parent) {
            Some(path) => match path.join(name) {
                Ok(child) => Ok(child),
                Err(_) => Err(Errno::EINVAL),
            },
            None => Err(Errno::ENOENT),
        }
    }

    /// The attributes of a path. `host` is what the host says of the host path
    /// where the path stands for one, or why it says nothing.
    pub fn attr_for_path(
        &mut self,
        registry: &SandboxRegistry,
        path: &SandboxPath,
        host: Result<HostMetadata, Errno>,
        euid: u32,
        egid: u32,
    ) -> (result: Result<FileAttr, Errno>)
        requires
            host is Ok ==> host->Ok_0.tells_times(),
        ensures
            *final(self) == (SandboxFs { inodes: final(self).inodes, ..*old(self) }),
            final(self).inodes@ == if result is Ok {
                remembered(old(self).inodes@, seq![*path])
            } else {
                old(self).inodes@
            },
            result matches Ok(shown) ==> shows_as(
                registry@.sandboxes[old(self).sandbox_name@],
                *path,
                host,
                euid,
                egid,
                shown,
            ),
            ({
                let sandbox = registry@.sandboxes[old(self).sandbox_name@];
                if !registry@.sandboxes.contains_key(old(self).sandbox_name@) {
                    result == Err::<FileAttr, Errno>(Errno::ENOENT)
                } else {
                    match sandbox.resolution(path@) {
                        None => result == Err::<FileAttr, Errno>(Errno::ENOENT),
                        Some(ResolvedView::VirtualDir { .. }) => result == Ok::<FileAttr, Errno>(
                            attr::overridden(
                                attr::virtual_dir(*path, euid, egid),
                                sandbox.override_at(path@),
                            ),
                        ),
                        Some(ResolvedView::Real { .. }) => result == match host {
                            Ok(meta) => Ok::<FileAttr, Errno>(
                                attr::overridden(
                                    attr::host_attr(*path, meta),
                                    sandbox.override_at(path@),
                                ),
                            ),
                            Err(errno) => Err(errno),
                        },
                    }
                }
            }),
    {
        let sandbox = match registry.sandboxes.get(&self.sandbox_name) {
            Some(sandbox) => sandbox,
            None => {
                return Err(Errno::ENOENT);
            },
        };
        let plain = match sandbox.resolve(path) {
            Some(ResolvedPath::VirtualDir { .. }) => attr::virtual_dir_attr(path, euid, egid),
            Some(ResolvedPath::Real { .. }) => match host {
                Ok(meta) => attr::real_attr(path, &meta),
                Err(errno) => {
                    return Err(errno);
                },
            },
            None => {
                return Err(Errno::ENOENT);
            },
        };
        let shown = attr::apply_override(plain, sandbox.metadata_override_for_path(path));
        assert(seq![*path].drop_last() =~= Seq::<SandboxPath>::empty());
        assert(remembered(self.inodes@, Seq::empty()) == self.inodes@);
        let _ = self.remember(path);
        Ok(shown)
    }

    /// The host path of a symbolic link.
    pub fn readlink_target(&self, registry: &SandboxRegistry, ino: u64) -> (result: Result<
        HostPath,
        Errno,
    >)
        ensures
            match self.resolution_of(registry@, ino) {
                Some(ResolvedView::Real { local_path, .. }) => result matches Ok(target) && target@
                    == local_path,
                Some(ResolvedView::VirtualDir { .. }) => result == Err::<HostPath, Errno>(
                    Errno::EINVAL,
                ),
                None => result == Err::<HostPath, Errno>(Errno::ENOENT),
            },
    {
        match self.resolve_ino(registry, ino) {
            Some(ResolvedPath::Real { local_path, .. }) => Ok(local_path),
            Some(ResolvedPath::VirtualDir { .. }) => Err(Errno::EINVAL),
            None => Err(Errno::ENOENT),
        }
    }

    /// What the path of an inode stands for.
    pub open spec fn resolution_of(
        self,
        registry: crate::registry::RegistryView,
        ino: u64,
    ) -> Option<ResolvedView> {
        if self.inodes@.contains_key(ino) && registry.sandboxes.contains_key(self.sandbox_name@) {
            registry.sandboxes[self.sandbox_name@].resolution(self.inodes@[ino]@)
        } else {
            None
        }
    }

    fn resolve_ino(&self, registry: &SandboxRegistry, ino: u64) -> (resolved: Option<ResolvedPath>)
        ensures
            match resolved {
                Some(resolved) => self.resolution_of(registry@, ino) == Some(resolved@),
                None => self.resolution_of(registry@, ino) is None,
            },
    {
        match self.inodes.get(&ino) {
            Some(path) => match registry.sandboxes.get(&self.sandbox_name) {
                Some(sandbox) => sandbox.resolve(path),
                None => None,
            },
            None => None,
        }
    }

    /// The host path whose filesystem is shown for an inode. An inode that is
    /// not known counts as the root, and a directory that exists only in the
    /// overlay shows the filesystem of the last layer.
    pub fn statfs_target(&self, registry: &SandboxRegistry, ino: u64) -> (result: Result<
        HostPath,
        Errno,
    >)
        ensures
            ({
                let sandbox = registry@.sandboxes[self.sandbox_name@];
                let at = if self.inodes@.contains_key(ino) {
                    self.inodes@[ino]@
                } else {
                    Seq::empty()
                };
                if !registry@.sandboxes.contains_key(self.sandbox_name@) {
                    result == Err::<HostPath, Errno>(Errno::ENOENT)
                } else {
                    match sandbox.resolution(at) {
                        Some(ResolvedView::Real { local_path, .. }) => result matches Ok(target)
                            && target@ == local_path,
                        Some(ResolvedView::VirtualDir { .. }) => result matches Ok(target)
                            && target@ == if sandbox.layers.len() > 0 {
                            sandbox.layers.last().local@
                        } else {
                            "/"@
                        },
                        None => result == Err::<HostPath, Errno>(Errno::ENOENT),
                    }
                }
            }),
    {
        let path = match self.path_for_ino(ino) {
            Some(path) => path,
            None => SandboxPath::root(),
        };
        let sandbox = match registry.sandboxes.get(&self.sandbox_name) {
            Some(sandbox) => sandbox,
            None => {
                return Err(Errno::ENOENT);
            },
        };
        match sandbox.resolve(&path) {
            Some(ResolvedPath::Real { local_path, .. }) => Ok(local_path),
            Some(ResolvedPath::VirtualDir { .. }) => {
                let n = sandbox.layers.len();
                if n > 0 {
                    Ok(sandbox.layers[n - 1].local.clone())
                } else {
                    Ok(HostPath { text: "/".to_owned() })
                }
            },
            None => Err(Errno::ENOENT),
        }
    }

    /// What opening an inode needs.
    pub fn open_plan(&self, registry: &SandboxRegistry, ino: u64, read_only: bool) -> (result: Result<
        OpenPlan,
        Errno,
    >)
        ensures
            if !self.inodes@.contains_key(ino) {
                result == Err::<OpenPlan, Errno>(Errno::ENOENT)
            } else if !read_only {
                result == Ok::<OpenPlan, Errno>(
                    OpenPlan::Authorize {
                        operation: ReadWriteOperation::OpenWrite { path: self.inodes@[ino] },
                    },
                )
            } else {
                match self.resolution_of(registry@, ino) {
                    Some(ResolvedView::Real { local_path, .. }) => {
                        &&& result matches Ok(OpenPlan::Read { local_path: target, path })
                        &&& target@ == local_path
                        &&& path == self.inodes@[ino]
                    },
                    Some(ResolvedView::VirtualDir { .. }) => result == Err::<OpenPlan, Errno>(
                        Errno::EISDIR,
                    ),
                    None => result == Err::<OpenPlan, Errno>(Errno::ENOENT),
                }
            },
            opens(self.known(ino), self.resolution_of(registry@, ino), read_only, result),
    {
        let path = match self.path_for_ino(ino) {
            Some(path) => path,
            None => {
                return Err(Errno::ENOENT);
            },
        };
        if !read_only {
            return Ok(OpenPlan::Authorize { operation: ReadWriteOperation::OpenWrite { path } });
        }
        match self.resolve_ino(registry, ino) {
            Some(ResolvedPath::Real { local_path, .. }) => Ok(OpenPlan::Read { local_path, path }),
            Some(ResolvedPath::VirtualDir { .. }) => Err(Errno::EISDIR),
            None => Err(Errno::ENOENT),
        }
    }

    /// Opens a file; what is not a file cannot be opened.
    pub fn open_file(
        &mut self,
        local_path: HostPath,
        path: SandboxPath,
        is_file: bool,
        append: bool,
    ) -> (result: Result<u64, Errno>)
        requires
            old(self).next_handle < u64::MAX,
        ensures
            if is_file {
                &&& result == Ok::<u64, Errno>(old(self).next_handle)
                &&& *final(self) == SandboxFs {
                    handles: final(self).handles,
                    next_handle: (old(self).next_handle + 1) as u64,
                    ..*old(self)
                }
                &&& final(self).handles@ == old(self).handles@.insert(
                    old(self).next_handle,
                    HandleInfo { local_path, sandbox_path: path, append },
                )
            } else {
                &&& result == Err::<u64, Errno>(Errno::EACCES)
                &&& *final(self) == *old(self)
            },
    {
        if !is_file {
            return Err(Errno::EACCES);
        }
        let fh = self.next_handle;
        self.next_handle = fh + 1;
        let _ = self.handles.insert(fh, HandleInfo { local_path, sandbox_path: path, append });
        Ok(fh)
    }

    /// The open file with a number.
    pub fn handle(&self, fh: u64) -> (result: Result<HandleInfo, Errno>)
        ensures
            match result {
                Ok(info) => self.handles@.contains_key(fh) && info == self.handles@[fh],
                Err(errno) => !self.handles@.contains_key(fh) && errno == Errno::EBADF,
            },
    {
        match self.handles.get(&fh) {
            Some(info) => Ok(info.clone()),
            None => Err(Errno::EBADF),
        }
    }

    /// Closes a file.
    pub fn release(&mut self, fh: u64)
        ensures
            *final(self) == (SandboxFs { handles: final(self).handles, ..*old(self) }),
            final(self).handles@ == old(self).handles@.remove(fh),
    {
        let _ = self.handles.remove(&fh);
    }

    /// What a change of attributes of an inode asks for.
    pub fn setattr_plan(
        &self,
        ino: u64,
        mode: Option<u32>,
        uid: Option<u32>,
        gid: Option<u32>,
        size: Option<u64>,
        flags: Option<u32>,
        atime: Option<Timestamp>,
        mtime: Option<Timestamp>,
    ) -> (result: Result<SetAttrPlan, Errno>)
        ensures
            if !self.inodes@.contains_key(ino) {
                result == Err::<SetAttrPlan, Errno>(Errno::ENOENT)
            } else if size is Some {
                result == Ok::<SetAttrPlan, Errno>(
                    SetAttrPlan::Write {
                        operation: ReadWriteOperation::Truncate { path: self.inodes@[ino] },
                    },
                )
            } else {
                result == Ok::<SetAttrPlan, Errno>(
                    SetAttrPlan::Metadata {
                        operation: MetadataOperation::SetAttr {
                            path: self.inodes@[ino],
                            mode: match mode {
                                Some(mode) => Some((mode & 0o7777) as u16),
                                None => None,
                            },
                            uid,
                            gid,
                            flags,
                            atime,
                            mtime,
                        },
                    },
                )
            },
            plans_change(self.known(ino), mode, size, result),
    {
        let path = match self.path_for_ino(ino) {
            Some(path) => path,
            None => {
                return Err(Errno::ENOENT);
            },
        };
        if size.is_some() {
            return Ok(SetAttrPlan::Write { operation: ReadWriteOperation::Truncate { path } });
        }
        proof {
            if let Some(bits) = mode {
                assert(bits & 0o7777 == bits % 0x1000) by (bit_vector);
            }
        }
        let mode = match mode {
            Some(mode) => Some(attr::permission_bits(mode)),
            None => None,
        };
        Ok(
            SetAttrPlan::Metadata {
                operation: MetadataOperation::SetAttr { path, mode, uid, gid, flags, atime, mtime },
            },
        )
    }

    /// What a directory shows, by name. `listing` holds the names that the host
    /// lists for it, where its host path is a directory.
    pub fn children_of(
        &self,
        registry: &SandboxRegistry,
        dir: &SandboxPath,
        listing: Option<&Vec<String>>,
    ) -> (result: Result<Vec<Child>, Errno>)
        ensures
            ({
                let sandbox = registry@.sandboxes[self.sandbox_name@];
                let names = crate::sandbox::host_names(listing);
                if registry@.sandboxes.contains_key(self.sandbox_name@) && sandbox.resolution(
                    dir@,
                ) is Some {
                    &&& result is Ok
                    &&& lists_children(sandbox, dir@, names, result->Ok_0@)
                } else {
                    result == Err::<Vec<Child>, Errno>(Errno::ENOENT)
                }
            }),
    {
        let sandbox = match registry.sandboxes.get(&self.sandbox_name) {
            Some(sandbox) => sandbox,
            None => {
                return Err(Errno::ENOENT);
            },
        };
        let children = match sandbox.children(dir, listing) {
            Ok(children) => children,
            Err(_) => {
                return Err(Errno::ENOENT);
            },
        };
        let mut list: Vec<Child> = Vec::new();
        let n = children.len();
        let ghost keys = children.ordered_keys();
        for i in 0..n
            invariant
                n == keys.len(),
                keys == children.ordered_keys(),
                list.len() == i,
                forall|j: int| 0 <= j < i ==> (#[trigger] list@[j]).name@ == keys[j],
                forall|j: int|
                    0 <= j < i ==> (#[trigger] list@[j]).path@ == children@[keys[j]]@.path(),
        {
            let path = match children.value_at(i) {
                ResolvedPath::Real { sandbox_path, .. } => sandbox_path.clone(),
                ResolvedPath::VirtualDir { sandbox_path } => sandbox_path.clone(),
            };
            list.push(Child { name: children.key_at(i).clone(), path });
        }
        proof {
            let names = crate::sandbox::host_names(listing);
            assert(list@.map_values(|child: Child| child.name@) =~= keys);
            assert forall|name: Seq<char>|
                (#[trigger] sandbox@.child(dir@, names, name) is Some) <==> exists|i: int|
                    0 <= i < list.len() && (#[trigger] list@[i]).name@ == name by {
                if children@.contains_key(name) {
                    assert(keys.to_set().contains(name));
                    let i = choose|i: int| 0 <= i < keys.len() && keys[i] == name;
                    assert(list@[i].name@ == name);
                }
                if exists|i: int| 0 <= i < list.len() && (#[trigger] list@[i]).name@ == name {
                    let i = choose|i: int| 0 <= i < list.len() && (#[trigger] list@[i]).name@ == name;
                    assert(keys.to_set().contains(keys[i]));
                }
            }
            assert forall|i: int| 0 <= i < list.len() implies (#[trigger] list@[i]).path@
                == sandbox@.child(dir@, names, list@[i].name@)->0.path() by {
                assert(keys.to_set().contains(keys[i]));
                assert(children@.contains_key(keys[i]));
                assert(sandbox@.child(dir@, names, keys[i]) is Some);
            }
        }
        Ok(list)
    }

    /// The entries of a directory: itself, its parent, and its children.
    pub fn directory_entries(
        &mut self,
        ino: u64,
        dir: &SandboxPath,
        children: &Vec<Child>,
        kinds: &Vec<Option<FileType>>,
    ) -> (entries: Vec<DirEntryInfo>)
        requires
            kinds.len() == children.len(),
        ensures
            *final(self) == (SandboxFs { inodes: final(self).inodes, ..*old(self) }),
            final(self).inodes@ == remembered(old(self).inodes@, child_paths(children@)),
            entries.len() == children.len() + 2,
            entries@[0].name@ == "."@ && entries@[0].ino == ino,
            entries@[0].kind == FileType::Directory,
            entries@[1].name@ == ".."@ && entries@[1].kind == FileType::Directory,
            entries@[1].ino == if dir@.len() > 0 {
                attr::inode_at(dir@.drop_last())
            } else {
                ino as int
            },
            forall|i: int|
                0 <= i < children.len() ==> is_child_entry(
                    #[trigger] entries@[i + 2],
                    children@[i],
                    kinds@[i],
                ),
            begins_with_dots(ino, dir@, entries@),
    {
        let mut entries: Vec<DirEntryInfo> = Vec::new();
        entries.push(DirEntryInfo { name: ".".to_owned(), kind: FileType::Directory, ino });
        let parent_ino = match dir.parent() {
            Some(parent) => attr::stable_ino(&parent),
            None => ino,
        };
        entries.push(
            DirEntryInfo { name: "..".to_owned(), kind: FileType::Directory, ino: parent_ino },
        );
        let ghost paths = child_paths(children@);
        for i in 0..children.len()
            invariant
                kinds.len() == children.len(),
                paths == child_paths(children@),
                *self == (SandboxFs { inodes: self.inodes, ..*old(self) }),
                self.inodes@ == remembered(old(self).inodes@, paths.take(i as int)),
                entries.len() == i + 2,
                entries@[0].name@ == "."@ && entries@[0].ino == ino,
                entries@[0].kind == FileType::Directory,
                entries@[1].name@ == ".."@ && entries@[1].kind == FileType::Directory,
                entries@[1].ino == parent_ino,
                forall|j: int|
                    0 <= j < i ==> is_child_entry(
                        #[trigger] entries@[j + 2],
                        children@[j],
                        kinds@[j],
                    ),
        {
            assert(paths.take(i + 1).drop_last() =~= paths.take(i as int));
            let kind = match kinds[i] {
                Some(kind) => kind,
                None => FileType::RegularFile,
            };
            let child_ino = self.remember(&children[i].path);
            entries.push(DirEntryInfo { name: children[i].name.clone(), kind, ino: child_ino });
        }
        assert(paths.take(children.len() as int) =~= paths);
        entries
    }
}

/// The paths of children.
pub open spec fn child_paths(children: Seq<Child>) -> Seq<SandboxPath> {
    children.map_values(|child: Child| child.path)
}

/// The children are what the directory shows, each once, by name.
pub open spec fn lists_children(
    sandbox: crate::sandbox::SandboxView,
    dir: Seq<Seq<char>>,
    listing: Option<Seq<Seq<char>>>,
    children: Seq<Child>,
) -> bool {
    &&& crate::table::ascending::<String>(children.map_values(|child: Child| child.name@))
    &&& forall|name: Seq<char>|
        (#[trigger] sandbox.child(dir, listing, name) is Some) <==> exists|i: int|
            0 <= i < children.len() && (#[trigger] children[i]).name@ == name
    &&& forall|i: int|
        0 <= i < children.len() ==> (#[trigger] children[i]).path@ == sandbox.child(
            dir,
            listing,
            children[i].name@,
        )->0.path()
}

/// The entries of a directory from an offset on.
pub fn directory_page(entries: &Vec<DirEntryInfo>, offset: u64) -> (items: Vec<DirectoryItem>)
    ensures
        items.len() == if offset < entries.len() {
            entries.len() - offset
        } else {
            0
        },
        forall|i: int|
            0 <= i < items.len() ==> {
                let item = #[trigger] items@[i];
                &&& item.entry.name@ == entries@[offset + i].name@
                &&& item.entry.kind == entries@[offset + i].kind
                &&& item.entry.ino == entries@[offset + i].ino
                &&& item.next == offset + i + 1
            },
{
    let mut items: Vec<DirectoryItem> = Vec::new();
    if offset >= entries.len() as u64 {
        return items;
    }
    let first: usize = offset as usize;
    for i in first..entries.len()
        invariant
            offset == first,
            first < entries.len(),
            items.len() == i - first,
            forall|j: int|
                0 <= j < items.len() ==> {
                    let item = #[trigger] items@[j];
                    &&& item.entry.name@ == entries@[offset + j].name@
                    &&& item.entry.kind == entries@[offset + j].kind
                    &&& item.entry.ino == entries@[offset + j].ino
                    &&& item.next == offset + j + 1
                },
    {
        let entry = &entries[i];
        items.push(
            DirectoryItem {
                entry: DirEntryInfo {
                    name: entry.name.clone(),
                    kind: entry.kind,
                    ino: entry.ino,
                },
                next: i as u64 + 1,
            },
        );
    }
    items
}

impl ResolvedView {
    /// The sandbox path.
    pub open spec fn path(self) -> Seq<Seq<char>> {
        match self {
            ResolvedView::Real { sandbox_path, .. } => sandbox_path,
            ResolvedView::VirtualDir { sandbox_path } => sandbox_path,
        }
    }
}

} // verus!
