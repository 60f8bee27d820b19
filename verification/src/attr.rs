//! File attributes, error numbers and inode flags.

use vstd::prelude::*;

use crate::metadata::MetadataOverride;
use crate::path;
use crate::path::SandboxPath;
use crate::time::Timestamp;

verus! {

broadcast use vstd::string::group_string_axioms;

/// The inode number of the root.
pub const ROOT_INO: u64 = 1;

/// The first inode number that another path can have.
pub const FIRST_DYNAMIC_INO: u64 = 2;

/// The mode of a directory that exists only in the overlay.
pub const VIRTUAL_DIR_MODE: u16 = 0o555;

/// The inode flag of an object that cannot be changed.
pub const FS_IMMUTABLE_FL: u32 = 0x0000_0010;

/// The inode flag of an object that can only grow.
pub const FS_APPEND_FL: u32 = 0x0000_0020;

/// The inode flag of an object that is written through.
pub const FS_SYNC_FL: u32 = 0x0000_0008;

/// The inode flag of an object whose access time stays.
pub const FS_NOATIME_FL: u32 = 0x0000_0080;

/// The inode flag of an object that backups leave out.
pub const FS_NODUMP_FL: u32 = 0x0000_0040;

/// The inode flag of a directory that hands its project down.
pub const FS_PROJINHERIT_FL: u32 = 0x2000_0000;

/// The extended flag for `FS_IMMUTABLE_FL`.
pub const FS_XFLAG_IMMUTABLE: u32 = 0x0000_0008;

/// The extended flag for `FS_APPEND_FL`.
pub const FS_XFLAG_APPEND: u32 = 0x0000_0010;

/// The extended flag for `FS_SYNC_FL`.
pub const FS_XFLAG_SYNC: u32 = 0x0000_0020;

/// The extended flag for `FS_NOATIME_FL`.
pub const FS_XFLAG_NOATIME: u32 = 0x0000_0040;

/// The extended flag for `FS_NODUMP_FL`.
pub const FS_XFLAG_NODUMP: u32 = 0x0000_0080;

/// The extended flag for `FS_PROJINHERIT_FL`.
pub const FS_XFLAG_PROJINHERIT: u32 = 0x0000_0200;

/// The extended flags that have an inode flag.
pub const FS_SUPPORTED_XFLAGS: u32 = 0x0000_02f8;

/// The inode flags that have an extended flag.
pub const FS_SUPPORTED_FLAGS: u32 = 0x2000_00f8;

/// The size of the extended attribute record of an inode.
pub const FSXATTR_SIZE: usize = 28;

/// The request to read inode flags.
pub const FS_IOC_GETFLAGS: u32 = 0x8008_6601;

/// The request to read inode flags, for an `int`.
pub const FS_IOC_GETFLAGS_INT: u32 = 0x8004_6601;

/// The request to set inode flags.
pub const FS_IOC_SETFLAGS: u32 = 0x4008_6602;

/// The request to set inode flags, for an `int`.
pub const FS_IOC_SETFLAGS_INT: u32 = 0x4004_6602;

/// The request to read the extended attribute record.
pub const FS_IOC_FSGETXATTR: u32 = 0x801c_581f;

/// The request to set the extended attribute record.
pub const FS_IOC_FSSETXATTR: u32 = 0x401c_5820;

/// The errors that the filesystem answers with.
#[derive(Clone, Copy, Debug, PartialEq, Eq, Structural)]
pub enum Errno {
    EPERM,
    ENOENT,
    EIO,
    EBADF,
    EACCES,
    EEXIST,
    ENOTDIR,
    EISDIR,
    EINVAL,
    EROFS,
    ENOSYS,
    ENOTSUP,
    ECANCELED,
}

impl Errno {
    /// The number of the error.
    pub open spec fn number(self) -> i32 {
        match self {
            Errno::EPERM => 1,
            Errno::ENOENT => 2,
            Errno::EIO => 5,
            Errno::EBADF => 9,
            Errno::EACCES => 13,
            Errno::EEXIST => 17,
            Errno::ENOTDIR => 20,
            Errno::EISDIR => 21,
            Errno::EINVAL => 22,
            Errno::EROFS => 30,
            Errno::ENOSYS => 38,
            Errno::ENOTSUP => 95,
            Errno::ECANCELED => 125,
        }
    }

    /// The number of the error.
    pub fn code(self) -> (number: i32)
        ensures
            number == self.number(),
    {
        match self {
            Errno::EPERM => 1,
            Errno::ENOENT => 2,
            Errno::EIO => 5,
            Errno::EBADF => 9,
            Errno::EACCES => 13,
            Errno::EEXIST => 17,
            Errno::ENOTDIR => 20,
            Errno::EISDIR => 21,
            Errno::EINVAL => 22,
            Errno::EROFS => 30,
            Errno::ENOSYS => 38,
            Errno::ENOTSUP => 95,
            Errno::ECANCELED => 125,
        }
    }
}

/// An error number of the host that the filesystem passes on.
pub open spec fn passes_on(raw: i32, errno: Errno) -> bool {
    errno != Errno::ECANCELED && raw == errno.number()
}

/// The error for a failure of the host: the same one where the filesystem
/// passes it on, else an input/output error.
pub fn io_to_errno(raw: Option<i32>) -> (errno: Errno)
    ensures
        match raw {
            Some(raw) => passes_on(raw, errno) || (errno == Errno::EIO && forall|other: Errno|
                !passes_on(raw, other)),
            None => errno == Errno::EIO,
        },
{
    let raw = match raw {
        Some(raw) => raw,
        None => 5,
    };
    match raw {
        1 => Errno::EPERM,
        2 => Errno::ENOENT,
        5 => Errno::EIO,
        9 => Errno::EBADF,
        13 => Errno::EACCES,
        17 => Errno::EEXIST,
        20 => Errno::ENOTDIR,
        21 => Errno::EISDIR,
        22 => Errno::EINVAL,
        30 => Errno::EROFS,
        38 => Errno::ENOSYS,
        95 => Errno::ENOTSUP,
        _ => Errno::EIO,
    }
}

/// What an object is.
#[derive(Clone, Copy, Debug, PartialEq, Eq, Structural)]
pub enum FileType {
    NamedPipe,
    CharDevice,
    BlockDevice,
    Directory,
    RegularFile,
    Symlink,
    Socket,
}

/// The attributes of an object.
#[derive(Clone, Copy, Debug, PartialEq, Eq, Structural)]
pub struct FileAttr {
    pub ino: u64,
    pub size: u64,
    pub blocks: u64,
    pub atime: Timestamp,
    pub mtime: Timestamp,
    pub ctime: Timestamp,
    pub crtime: Timestamp,
    pub kind: FileType,
    pub perm: u16,
    pub nlink: u32,
    pub uid: u32,
    pub gid: u32,
    pub rdev: u32,
    pub blksize: u32,
    pub flags: u32,
}

/// An entry of a directory.
#[derive(Debug)]
pub struct DirEntryInfo {
    pub name: String,
    pub kind: FileType,
    pub ino: u64,
}

/// The FNV-1a hash of bytes, from a start value.
pub open spec fn fnv1a(bytes: Seq<u8>) -> u64
    decreases bytes.len(),
{
    if bytes.len() == 0 {
        0xcbf2_9ce4_8422_2325
    } else {
        let mixed = fnv1a(bytes.drop_last()) ^ (bytes.last() as u64);
        ((mixed as int * 0x0100_0000_01b3) % 0x1_0000_0000_0000_0000) as u64
    }
}

/// The inode number of a path: that of the root, or one that its text gives.
pub open spec fn inode_at(at: Seq<Seq<char>>) -> int {
    if at.len() == 0 {
        1
    } else {
        2 + (fnv1a(vstd::utf8::encode_utf8(path::absolute(at))) & 0x000f_ffff_ffff_ffff) as int
    }
}

/// The inode number of a path.
pub open spec fn inode_of(path: SandboxPath) -> int {
    inode_at(path@)
}

/// The inode number of a path. It depends on the path alone.
pub fn stable_ino(path: &SandboxPath) -> (ino: u64)
    ensures
        ino == inode_of(*path),
        path@.len() == 0 <==> ino == ROOT_INO,
        path@.len() > 0 ==> FIRST_DYNAMIC_INO <= ino < 0x0010_0000_0000_0002,
{
    if path.depth() == 0 {
        return ROOT_INO;
    }
    let bytes = path.as_str().as_bytes();
    let mut hash: u64 = 0xcbf2_9ce4_8422_2325;
    for i in 0..bytes.len()
        invariant
            hash == fnv1a(bytes@.take(i as int)),
    {
        assert(bytes@.take(i + 1).drop_last() =~= bytes@.take(i as int));
        let mixed = hash ^ (bytes[i] as u64);
        hash = mixed.wrapping_mul(0x0100_0000_01b3);
    }
    assert(bytes@.take(bytes.len() as int) =~= bytes@);
    assert(hash & 0x000f_ffff_ffff_ffff < 0x0010_0000_0000_0000) by (bit_vector);
    FIRST_DYNAMIC_INO + (hash & 0x000f_ffff_ffff_ffff)
}

/// The type that a mode word says.
pub open spec fn kind_of_mode(mode: u32) -> FileType {
    let bits = mode & 0o170000;
    if bits == 0o040000 {
        FileType::Directory
    } else if bits == 0o120000 {
        FileType::Symlink
    } else if bits == 0o010000 {
        FileType::NamedPipe
    } else if bits == 0o140000 {
        FileType::Socket
    } else if bits == 0o020000 {
        FileType::CharDevice
    } else if bits == 0o060000 {
        FileType::BlockDevice
    } else {
        FileType::RegularFile
    }
}

/// The type of an object: what the host says of it, else what its mode says.
pub fn mode_to_kind(mode: u32, is_dir: bool, is_symlink: bool, is_file: bool) -> (kind: FileType)
    ensures
        kind == if is_dir {
            FileType::Directory
        } else if is_symlink {
            FileType::Symlink
        } else if is_file {
            FileType::RegularFile
        } else {
            kind_of_mode(mode)
        },
{
    if is_dir {
        FileType::Directory
    } else if is_symlink {
        FileType::Symlink
    } else if is_file {
        FileType::RegularFile
    } else {
        match mode & 0o170000 {
            0o040000 => FileType::Directory,
            0o120000 => FileType::Symlink,
            0o100000 => FileType::RegularFile,
            0o010000 => FileType::NamedPipe,
            0o140000 => FileType::Socket,
            0o020000 => FileType::CharDevice,
            0o060000 => FileType::BlockDevice,
            _ => FileType::RegularFile,
        }
    }
}

/// The Unix epoch.
pub open spec fn epoch() -> Timestamp {
    Timestamp { secs: 0, nanos: 0 }
}

/// The attributes of a directory that exists only in the overlay.
pub open spec fn virtual_dir(path: SandboxPath, euid: u32, egid: u32) -> FileAttr {
    FileAttr {
        ino: inode_of(path) as u64,
        size: 0,
        blocks: 0,
        atime: epoch(),
        mtime: epoch(),
        ctime: epoch(),
        crtime: epoch(),
        kind: FileType::Directory,
        perm: VIRTUAL_DIR_MODE,
        nlink: 2,
        uid: euid,
        gid: egid,
        rdev: 0,
        blksize: 4096,
        flags: FS_IMMUTABLE_FL,
    }
}

/// The attributes of a directory that exists only in the overlay; it belongs to
/// the user of the session.
pub fn virtual_dir_attr(path: &SandboxPath, euid: u32, egid: u32) -> (attr: FileAttr)
    ensures
        attr == virtual_dir(*path, euid, egid),
{
    let start = Timestamp { secs: 0, nanos: 0 };
    FileAttr {
        ino: stable_ino(path),
        size: 0,
        blocks: 0,
        atime: start,
        mtime: start,
        ctime: start,
        crtime: start,
        kind: FileType::Directory,
        perm: VIRTUAL_DIR_MODE,
        nlink: 2,
        uid: euid,
        gid: egid,
        rdev: 0,
        blksize: 4096,
        flags: FS_IMMUTABLE_FL,
    }
}

/// `new` where there is one, else `old_value`.
pub open spec fn replaced<T>(new: Option<T>, old_value: T) -> T {
    match new {
        Some(value) => value,
        None => old_value,
    }
}

/// The attributes that show under an override.
pub open spec fn overridden(attr: FileAttr, change: Option<MetadataOverride>) -> FileAttr {
    match change {
        Some(change) => FileAttr {
            perm: replaced(change.mode, attr.perm),
            uid: replaced(change.uid, attr.uid),
            gid: replaced(change.gid, attr.gid),
            flags: replaced(change.flags, attr.flags),
            atime: replaced(change.atime, attr.atime),
            mtime: replaced(change.mtime, attr.mtime),
            ..attr
        },
        None => attr,
    }
}

/// The attributes that show under an override.
pub fn apply_override(attr: FileAttr, override_: Option<MetadataOverride>) -> (shown: FileAttr)
    ensures
        shown == overridden(attr, override_),
{
    let mut attr = attr;
    if let Some(change) = override_ {
        if let Some(mode) = change.mode {
            attr.perm = mode;
        }
        if let Some(uid) = change.uid {
            attr.uid = uid;
        }
        if let Some(gid) = change.gid {
            attr.gid = gid;
        }
        if let Some(flags) = change.flags {
            attr.flags = flags;
        }
        if let Some(atime) = change.atime {
            attr.atime = atime;
        }
        if let Some(mtime) = change.mtime {
            attr.mtime = mtime;
        }
    }
    attr
}

/// What the host says of an object.
#[derive(Clone, Copy, Debug, PartialEq, Eq, Structural)]
pub struct HostMetadata {
    pub mode: u32,
    pub size: u64,
    pub blocks: u64,
    pub atime: i64,
    pub atime_nsec: i64,
    pub mtime: i64,
    pub mtime_nsec: i64,
    pub ctime: i64,
    pub ctime_nsec: i64,
    pub nlink: u64,
    pub uid: u32,
    pub gid: u32,
    pub rdev: u64,
    pub blksize: u64,
    pub is_dir: bool,
    pub is_symlink: bool,
    pub is_file: bool,
}

/// The time can be told: the nanoseconds do not carry it out of range.
pub open spec fn tellable(sec: i64, nsec: i64) -> bool {
    sec + (nsec as u32) / 1_000_000_000 <= i64::MAX
}

/// The time that the host gives; earlier times than the epoch are the epoch.
pub open spec fn host_time(sec: i64, nsec: i64) -> Timestamp {
    if sec >= 0 {
        Timestamp {
            secs: (sec + (nsec as u32) / 1_000_000_000) as i64,
            nanos: ((nsec as u32) % 1_000_000_000) as u32,
        }
    } else {
        epoch()
    }
}

/// The time that the host gives.
pub fn system_time(sec: i64, nsec: i64) -> (time: Timestamp)
    requires
        tellable(sec, nsec),
    ensures
        time == host_time(sec, nsec),
{
    if sec >= 0 {
        let nanos: u32 = #[verifier::truncate] (nsec as u32);
        Timestamp {
            secs: sec + (nanos / 1_000_000_000) as i64,
            nanos: nanos % 1_000_000_000,
        }
    } else {
        Timestamp { secs: 0, nanos: 0 }
    }
}

impl HostMetadata {
    /// All times can be told.
    pub open spec fn tells_times(self) -> bool {
        &&& tellable(self.atime, self.atime_nsec)
        &&& tellable(self.mtime, self.mtime_nsec)
        &&& tellable(self.ctime, self.ctime_nsec)
    }

    /// Whether all times can be told.
    pub fn has_times(&self) -> (all: bool)
        ensures
            all == self.tells_times(),
    {
        has_time(self.atime, self.atime_nsec) && has_time(self.mtime, self.mtime_nsec) && has_time(
            self.ctime,
            self.ctime_nsec,
        )
    }
}

fn has_time(sec: i64, nsec: i64) -> (result: bool)
    ensures
        result == tellable(sec, nsec),
{
    let nanos: u32 = #[verifier::truncate] (nsec as u32);
    sec as i128 + (nanos / 1_000_000_000) as i128 <= i64::MAX as i128
}

/// The attributes of an object of the host.
pub open spec fn host_attr(path: SandboxPath, meta: HostMetadata) -> FileAttr {
    FileAttr {
        ino: inode_of(path) as u64,
        size: meta.size,
        blocks: meta.blocks,
        atime: host_time(meta.atime, meta.atime_nsec),
        mtime: host_time(meta.mtime, meta.mtime_nsec),
        ctime: host_time(meta.ctime, meta.ctime_nsec),
        crtime: epoch(),
        kind: if meta.is_dir {
            FileType::Directory
        } else if meta.is_symlink {
            FileType::Symlink
        } else if meta.is_file {
            FileType::RegularFile
        } else {
            kind_of_mode(meta.mode)
        },
        perm: (meta.mode & 0o7777) as u16,
        nlink: meta.nlink as u32,
        uid: meta.uid,
        gid: meta.gid,
        rdev: meta.rdev as u32,
        blksize: meta.blksize as u32,
        flags: 0,
    }
}

/// The attributes of an object of the host.
pub fn real_attr(path: &SandboxPath, meta: &HostMetadata) -> (attr: FileAttr)
    requires
        meta.tells_times(),
    ensures
        attr == host_attr(*path, *meta),
{
    FileAttr {
        ino: stable_ino(path),
        size: meta.size,
        blocks: meta.blocks,
        atime: system_time(meta.atime, meta.atime_nsec),
        mtime: system_time(meta.mtime, meta.mtime_nsec),
        ctime: system_time(meta.ctime, meta.ctime_nsec),
        crtime: Timestamp { secs: 0, nanos: 0 },
        kind: mode_to_kind(meta.mode, meta.is_dir, meta.is_symlink, meta.is_file),
        perm: permission_bits(meta.mode),
        nlink: #[verifier::truncate] (meta.nlink as u32),
        uid: meta.uid,
        gid: meta.gid,
        rdev: #[verifier::truncate] (meta.rdev as u32),
        blksize: #[verifier::truncate] (meta.blksize as u32),
        flags: 0,
    }
}

/// The permission bits of a mode word.
pub fn permission_bits(mode: u32) -> (bits: u16)
    ensures
        bits == (mode & 0o7777) as u16,
        bits <= 0o7777,
{
    assert(mode & 0o7777 <= 0o7777) by (bit_vector);
    (mode & 0o7777) as u16
}

/// The bits that a process may need: read, write, execute.
pub open spec fn may(perm: u16, shift: u32, bit: u32) -> bool {
    ((perm as u32) >> shift) & bit != 0
}

/// Where the bits of a process stand in a mode: the owner's for the superuser
/// and the owner, the group's for its members, else the others'.
pub open spec fn class_shift(attr: FileAttr, uid: u32, gid: u32) -> u32 {
    if uid == 0 || uid == attr.uid {
        6
    } else if gid == attr.gid {
        3
    } else {
        0
    }
}

/// Whether a process may access an object: it needs every bit that it asks for;
/// the superuser may execute what anyone may execute.
pub open spec fn access_allowed(attr: FileAttr, uid: u32, gid: u32, mask: u32) -> bool {
    let shift = class_shift(attr, uid, gid);
    &&& mask & 4 != 0 ==> may(attr.perm, shift, 4)
    &&& mask & 2 != 0 ==> may(attr.perm, shift, 2)
    &&& mask & 1 != 0 ==> if uid == 0 {
        (attr.perm as u32) & 0o111 != 0
    } else {
        may(attr.perm, shift, 1)
    }
}

/// Whether a process may access an object. In `mask` the bits of 4, 2 and 1 ask
/// to read, write and execute.
pub fn check_access(attr: &FileAttr, uid: u32, gid: u32, mask: u32) -> (allowed: bool)
    ensures
        allowed == access_allowed(*attr, uid, gid, mask),
        mask == 0 ==> allowed,
{
    assert(0u32 & 4 == 0 && 0u32 & 2 == 0 && 0u32 & 1 == 0) by (bit_vector);
    if mask == 0 {
        return true;
    }
    let perm: u32 = attr.perm as u32;
    let shift: u32 = if uid == 0 {
        6
    } else if uid == attr.uid {
        6
    } else if gid == attr.gid {
        3
    } else {
        0
    };
    if mask & 4 != 0 && (perm >> shift) & 4 == 0 {
        return false;
    }
    if mask & 2 != 0 && (perm >> shift) & 2 == 0 {
        return false;
    }
    if mask & 1 != 0 {
        if uid == 0 {
            if perm & 0o111 == 0 {
                return false;
            }
        } else if (perm >> shift) & 1 == 0 {
            return false;
        }
    }
    true
}

/// `to` where a bit of `from` is set in `value`, else nothing.
pub open spec fn mapped_bit(value: u32, from: u32, to: u32) -> u32 {
    if value & from != 0 {
        to
    } else {
        0
    }
}

/// The extended flags for inode flags.
pub open spec fn xflags_of(flags: u32) -> u32 {
    mapped_bit(flags, FS_IMMUTABLE_FL, FS_XFLAG_IMMUTABLE) | mapped_bit(
        flags,
        FS_APPEND_FL,
        FS_XFLAG_APPEND,
    ) | mapped_bit(flags, FS_SYNC_FL, FS_XFLAG_SYNC) | mapped_bit(
        flags,
        FS_NOATIME_FL,
        FS_XFLAG_NOATIME,
    ) | mapped_bit(flags, FS_NODUMP_FL, FS_XFLAG_NODUMP) | mapped_bit(
        flags,
        FS_PROJINHERIT_FL,
        FS_XFLAG_PROJINHERIT,
    )
}

/// The inode flags for extended flags.
pub open spec fn flags_of(xflags: u32) -> u32 {
    mapped_bit(xflags, FS_XFLAG_IMMUTABLE, FS_IMMUTABLE_FL) | mapped_bit(
        xflags,
        FS_XFLAG_APPEND,
        FS_APPEND_FL,
    ) | mapped_bit(xflags, FS_XFLAG_SYNC, FS_SYNC_FL) | mapped_bit(
        xflags,
        FS_XFLAG_NOATIME,
        FS_NOATIME_FL,
    ) | mapped_bit(xflags, FS_XFLAG_NODUMP, FS_NODUMP_FL) | mapped_bit(
        xflags,
        FS_XFLAG_PROJINHERIT,
        FS_PROJINHERIT_FL,
    )
}

fn map_bit(value: u32, from: u32, to: u32) -> (bits: u32)
    ensures
        bits == mapped_bit(value, from, to),
{
    if value & from != 0 {
        to
    } else {
        0
    }
}

/// The extended flags for inode flags; other inode flags are dropped.
pub fn flags_to_xflags(flags: u32) -> (xflags: u32)
    ensures
        xflags == xflags_of(flags),
{
    map_bit(flags, FS_IMMUTABLE_FL, FS_XFLAG_IMMUTABLE) | map_bit(
        flags,
        FS_APPEND_FL,
        FS_XFLAG_APPEND,
    ) | map_bit(flags, FS_SYNC_FL, FS_XFLAG_SYNC) | map_bit(flags, FS_NOATIME_FL, FS_XFLAG_NOATIME)
        | map_bit(flags, FS_NODUMP_FL, FS_XFLAG_NODUMP) | map_bit(
        flags,
        FS_PROJINHERIT_FL,
        FS_XFLAG_PROJINHERIT,
    )
}

/// The inode flags for extended flags; others than the supported ones are
/// refused.
pub fn xflags_to_flags(xflags: u32) -> (result: Result<u32, Errno>)
    ensures
        result == if xflags & !FS_SUPPORTED_XFLAGS != 0 {
            Err::<u32, Errno>(Errno::ENOTSUP)
        } else {
            Ok(flags_of(xflags))
        },
{
    if xflags & !FS_SUPPORTED_XFLAGS != 0 {
        return Err(Errno::ENOTSUP);
    }
    Ok(
        map_bit(xflags, FS_XFLAG_IMMUTABLE, FS_IMMUTABLE_FL) | map_bit(
            xflags,
            FS_XFLAG_APPEND,
            FS_APPEND_FL,
        ) | map_bit(xflags, FS_XFLAG_SYNC, FS_SYNC_FL) | map_bit(
            xflags,
            FS_XFLAG_NOATIME,
            FS_NOATIME_FL,
        ) | map_bit(xflags, FS_XFLAG_NODUMP, FS_NODUMP_FL) | map_bit(
            xflags,
            FS_XFLAG_PROJINHERIT,
            FS_PROJINHERIT_FL,
        ),
    )
}

/// Going from inode flags to extended flags and back keeps the supported flags
/// and drops the others; the extended flags are all supported.
pub proof fn lemma_flags_round_trip(flags: u32)
    ensures
        xflags_of(flags) & !FS_SUPPORTED_XFLAGS == 0,
        flags_of(xflags_of(flags)) == flags & FS_SUPPORTED_FLAGS,
{
    assert(xflags_of(flags) & !FS_SUPPORTED_XFLAGS == 0) by (bit_vector);
    assert(flags_of(xflags_of(flags)) == flags & FS_SUPPORTED_FLAGS) by (bit_vector);
}

/// The number that four bytes write, least significant first or last.
pub open spec fn number_in(bytes: Seq<u8>, little_endian: bool) -> int {
    if little_endian {
        bytes[0] + 0x100 * bytes[1] + 0x1_0000 * bytes[2] + 0x100_0000 * bytes[3]
    } else {
        bytes[3] + 0x100 * bytes[2] + 0x1_0000 * bytes[1] + 0x100_0000 * bytes[0]
    }
}

/// The number in the first four bytes.
pub fn number_from(bytes: &[u8], little_endian: bool) -> (number: u32)
    requires
        bytes.len() >= 4,
    ensures
        number == number_in(bytes@, little_endian),
{
    let (a, b, c, d): (u32, u32, u32, u32) = (
        bytes[0] as u32,
        bytes[1] as u32,
        bytes[2] as u32,
        bytes[3] as u32,
    );
    if little_endian {
        a + 0x100 * b + 0x1_0000 * c + 0x100_0000 * d
    } else {
        d + 0x100 * c + 0x1_0000 * b + 0x100_0000 * a
    }
}

/// The four bytes of a number.
pub fn number_bytes(number: u32, little_endian: bool) -> (bytes: Vec<u8>)
    ensures
        bytes.len() == 4,
        number_in(bytes@, little_endian) == number,
{
    let a: u8 = (number % 0x100) as u8;
    let b: u8 = (number / 0x100 % 0x100) as u8;
    let c: u8 = (number / 0x1_0000 % 0x100) as u8;
    let d: u8 = (number / 0x100_0000) as u8;
    let mut bytes: Vec<u8> = Vec::new();
    if little_endian {
        bytes.push(a);
        bytes.push(b);
        bytes.push(c);
        bytes.push(d);
    } else {
        bytes.push(d);
        bytes.push(c);
        bytes.push(b);
        bytes.push(a);
    }
    bytes
}

/// The extended attribute record for inode flags: the extended flags, and
/// nothing else.
pub fn encode_fsxattr(flags: u32, little_endian: bool) -> (data: Vec<u8>)
    ensures
        data.len() == FSXATTR_SIZE,
        number_in(data@, little_endian) == xflags_of(flags),
        forall|i: int| 4 <= i < data.len() ==> data@[i] == 0,
{
    let mut data = number_bytes(flags_to_xflags(flags), little_endian);
    let ghost head = data@;
    while data.len() < FSXATTR_SIZE
        invariant
            4 <= data.len() <= FSXATTR_SIZE,
            head.len() == 4,
            data@.take(4) == head,
            forall|i: int| 4 <= i < data.len() ==> data@[i] == 0,
        decreases FSXATTR_SIZE - data.len(),
    {
        data.push(0);
        assert(data@.take(4) =~= head);
    }
    assert(forall|i: int| 0 <= i < 4 ==> data@.take(4)[i] == data@[i]);
    data
}

/// The inode flags in an extended attribute record. A short record is invalid;
/// one that sets anything but supported flags is refused.
pub open spec fn fsxattr_flags(data: Seq<u8>, little_endian: bool) -> Result<u32, Errno> {
    if data.len() < FSXATTR_SIZE {
        Err(Errno::EINVAL)
    } else if exists|i: int| 4 <= i < FSXATTR_SIZE && data[i] != 0 {
        Err(Errno::ENOTSUP)
    } else if (number_in(data, little_endian) as u32) & !FS_SUPPORTED_XFLAGS != 0 {
        Err(Errno::ENOTSUP)
    } else {
        Ok(flags_of(number_in(data, little_endian) as u32))
    }
}

/// The inode flags in an extended attribute record.
pub fn decode_fsxattr_flags(data: &[u8], little_endian: bool) -> (result: Result<u32, Errno>)
    ensures
        result == fsxattr_flags(data@, little_endian),
{
    if data.len() < FSXATTR_SIZE {
        return Err(Errno::EINVAL);
    }
    for i in 4..FSXATTR_SIZE
        invariant
            data.len() >= FSXATTR_SIZE,
            forall|j: int| 4 <= j < i ==> data@[j] == 0,
    {
        if data[i] != 0 {
            assert(data@[i as int] != 0);
            return Err(Errno::ENOTSUP);
        }
    }
    xflags_to_flags(number_from(data, little_endian))
}

/// What is written in a record is read from it, in either byte order.
pub proof fn lemma_fsxattr_round_trip(flags: u32, data: Seq<u8>, little_endian: bool)
    requires
        data.len() == FSXATTR_SIZE,
        number_in(data, little_endian) == xflags_of(flags),
        forall|i: int| 4 <= i < data.len() ==> data[i] == 0,
    ensures
        fsxattr_flags(data, little_endian) == Ok::<u32, Errno>(flags & FS_SUPPORTED_FLAGS),
{
    lemma_flags_round_trip(flags);
}

/// What a request about inode flags asks for.
#[derive(Clone, Copy, Debug, PartialEq, Eq, Structural)]
pub enum IoctlAction {
    GetFlags,
    GetFsxattr,
    SetFlags { flags: u32 },
}

/// What a request about inode flags asks for.
pub open spec fn ioctl_meaning(cmd: u32, data: Seq<u8>, little_endian: bool) -> Result<
    IoctlAction,
    Errno,
> {
    if cmd == FS_IOC_GETFLAGS || cmd == FS_IOC_GETFLAGS_INT {
        Ok(IoctlAction::GetFlags)
    } else if cmd == FS_IOC_FSGETXATTR {
        Ok(IoctlAction::GetFsxattr)
    } else if cmd == FS_IOC_SETFLAGS || cmd == FS_IOC_SETFLAGS_INT {
        if data.len() < 4 {
            Err(Errno::EINVAL)
        } else {
            Ok(IoctlAction::SetFlags { flags: number_in(data, little_endian) as u32 })
        }
    } else if cmd == FS_IOC_FSSETXATTR {
        match fsxattr_flags(data, little_endian) {
            Ok(flags) => Ok(IoctlAction::SetFlags { flags }),
            Err(errno) => Err(errno),
        }
    } else {
        Err(Errno::ENOTSUP)
    }
}

/// What a request about inode flags asks for; other requests are refused.
pub fn ioctl_action(cmd: u32, data: &[u8], little_endian: bool) -> (result: Result<IoctlAction, Errno>)
    ensures
        result == ioctl_meaning(cmd, data@, little_endian),
{
    if cmd == FS_IOC_GETFLAGS || cmd == FS_IOC_GETFLAGS_INT {
        Ok(IoctlAction::GetFlags)
    } else if cmd == FS_IOC_FSGETXATTR {
        Ok(IoctlAction::GetFsxattr)
    } else if cmd == FS_IOC_SETFLAGS || cmd == FS_IOC_SETFLAGS_INT {
        if data.len() < 4 {
            Err(Errno::EINVAL)
        } else {
            Ok(IoctlAction::SetFlags { flags: number_from(data, little_endian) })
        }
    } else if cmd == FS_IOC_FSSETXATTR {
        match decode_fsxattr_flags(data, little_endian) {
            Ok(flags) => Ok(IoctlAction::SetFlags { flags }),
            Err(errno) => Err(errno),
        }
    } else {
        Err(Errno::ENOTSUP)
    }
}

} // verus!
