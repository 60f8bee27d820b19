//! What attributes show, and what they let processes do.

use vstd::prelude::*;

use crate::attr;
use crate::attr::Errno;
use crate::attr::FileAttr;
use crate::attr::HostMetadata;
use crate::attr::IoctlAction;
use crate::metadata::MetadataOverride;
use crate::operation::MetadataOperation;
use crate::path::SandboxPath;
use crate::time::Timestamp;

verus! {

/// Each attribute that an override sets shows as it is set, each other one as it
/// is, and what no override can set always shows as it is.
pub proof fn lemma_override_shows_each_attribute(attr: FileAttr, change: MetadataOverride)
    ensures
        attr::overridden(attr, None) == attr,
        ({
            let shown = attr::overridden(attr, Some(change));
            &&& change.mode is Some ==> shown.perm == change.mode->0
            &&& change.mode is None ==> shown.perm == attr.perm
            &&& change.uid is Some ==> shown.uid == change.uid->0
            &&& change.uid is None ==> shown.uid == attr.uid
            &&& change.gid is Some ==> shown.gid == change.gid->0
            &&& change.gid is None ==> shown.gid == attr.gid
            &&& change.flags is Some ==> shown.flags == change.flags->0
            &&& change.flags is None ==> shown.flags == attr.flags
            &&& change.atime is Some ==> shown.atime == change.atime->0
            &&& change.atime is None ==> shown.atime == attr.atime
            &&& change.mtime is Some ==> shown.mtime == change.mtime->0
            &&& change.mtime is None ==> shown.mtime == attr.mtime
            &&& shown.ino == attr.ino
            &&& shown.size == attr.size
            &&& shown.blocks == attr.blocks
            &&& shown.ctime == attr.ctime
            &&& shown.crtime == attr.crtime
            &&& shown.kind == attr.kind
            &&& shown.nlink == attr.nlink
            &&& shown.rdev == attr.rdev
            &&& shown.blksize == attr.blksize
        }),
{
}

/// Each attribute that an operation sets is set in the override, and each other
/// one stays as the override had it.
pub proof fn lemma_operation_sets_each_attribute(
    before: MetadataOverride,
    operation: MetadataOperation,
)
    ensures
        ({
            let after = before.after(operation);
            match operation {
                MetadataOperation::Chmod { mode, .. } => {
                    &&& after.mode == Some(mode)
                    &&& after.uid == before.uid
                    &&& after.gid == before.gid
                    &&& after.flags == before.flags
                    &&& after.atime == before.atime
                    &&& after.mtime == before.mtime
                },
                MetadataOperation::Chown { uid, gid, .. } => {
                    &&& after.mode == before.mode
                    &&& uid is Some ==> after.uid == uid
                    &&& uid is None ==> after.uid == before.uid
                    &&& gid is Some ==> after.gid == gid
                    &&& gid is None ==> after.gid == before.gid
                    &&& after.flags == before.flags
                    &&& after.atime == before.atime
                    &&& after.mtime == before.mtime
                },
                MetadataOperation::Chattr { flags, .. } => {
                    &&& after.mode == before.mode
                    &&& after.uid == before.uid
                    &&& after.gid == before.gid
                    &&& after.flags == Some(flags)
                    &&& after.atime == before.atime
                    &&& after.mtime == before.mtime
                },
                MetadataOperation::SetAttr { mode, uid, gid, flags, atime, mtime, .. } => {
                    &&& mode is Some ==> after.mode == mode
                    &&& mode is None ==> after.mode == before.mode
                    &&& uid is Some ==> after.uid == uid
                    &&& uid is None ==> after.uid == before.uid
                    &&& gid is Some ==> after.gid == gid
                    &&& gid is None ==> after.gid == before.gid
                    &&& flags is Some ==> after.flags == flags
                    &&& flags is None ==> after.flags == before.flags
                    &&& atime is Some ==> after.atime == atime
                    &&& atime is None ==> after.atime == before.atime
                    &&& mtime is Some ==> after.mtime == mtime
                    &&& mtime is None ==> after.mtime == before.mtime
                },
                MetadataOperation::SetXattr { .. } => after == before,
                MetadataOperation::RemoveXattr { .. } => after == before,
            }
        }),
{
}

/// An object of the host shows as the host says: its permissions are the last
/// twelve bits of its mode, its type is what the host tells or else what the
/// next four bits say, and times before the epoch are the epoch.
pub proof fn lemma_host_attributes(path: SandboxPath, meta: HostMetadata)
    ensures
        ({
            let shown = attr::host_attr(path, meta);
            let sort = meta.mode / 0x1000 % 0x10;
            &&& shown.perm == meta.mode % 0x1000
            &&& meta.is_dir ==> shown.kind is Directory
            &&& !meta.is_dir && meta.is_symlink ==> shown.kind is Symlink
            &&& !meta.is_dir && !meta.is_symlink && meta.is_file ==> shown.kind is RegularFile
            &&& !meta.is_dir && !meta.is_symlink && !meta.is_file ==> {
                &&& shown.kind is NamedPipe <==> sort == 1
                &&& shown.kind is CharDevice <==> sort == 2
                &&& shown.kind is Directory <==> sort == 4
                &&& shown.kind is BlockDevice <==> sort == 6
                &&& shown.kind is Symlink <==> sort == 10
                &&& shown.kind is Socket <==> sort == 12
            }
            &&& shown.size == meta.size
            &&& shown.blocks == meta.blocks
            &&& shown.uid == meta.uid
            &&& shown.gid == meta.gid
            &&& meta.nlink <= u32::MAX ==> shown.nlink == meta.nlink
            &&& meta.rdev <= u32::MAX ==> shown.rdev == meta.rdev
            &&& meta.blksize <= u32::MAX ==> shown.blksize == meta.blksize
            &&& shown.flags == 0
            &&& shown.crtime == (Timestamp { secs: 0, nanos: 0 })
            &&& meta.atime < 0 ==> shown.atime == (Timestamp { secs: 0, nanos: 0 })
            &&& meta.mtime < 0 ==> shown.mtime == (Timestamp { secs: 0, nanos: 0 })
            &&& meta.ctime < 0 ==> shown.ctime == (Timestamp { secs: 0, nanos: 0 })
            &&& meta.atime >= 0 && 0 <= meta.atime_nsec < 1_000_000_000 ==> shown.atime.secs
                == meta.atime && shown.atime.nanos == meta.atime_nsec
            &&& meta.mtime >= 0 && 0 <= meta.mtime_nsec < 1_000_000_000 ==> shown.mtime.secs
                == meta.mtime && shown.mtime.nanos == meta.mtime_nsec
            &&& meta.ctime >= 0 && 0 <= meta.ctime_nsec < 1_000_000_000 ==> shown.ctime.secs
                == meta.ctime && shown.ctime.nanos == meta.ctime_nsec
        }),
{
    let mode = meta.mode;
    assert(mode & 0o7777 == mode % 0x1000) by (bit_vector);
    assert(mode & 0o170000 == (mode / 0x1000 % 0x10) * 0x1000) by (bit_vector);
}

proof fn lemma_bit_of(perm: u16)
    ensures
        attr::may(perm, 6, 4) <==> perm / 256 % 2 == 1,
        attr::may(perm, 6, 2) <==> perm / 128 % 2 == 1,
        attr::may(perm, 6, 1) <==> perm / 64 % 2 == 1,
        attr::may(perm, 3, 4) <==> perm / 32 % 2 == 1,
        attr::may(perm, 3, 2) <==> perm / 16 % 2 == 1,
        attr::may(perm, 3, 1) <==> perm / 8 % 2 == 1,
        attr::may(perm, 0, 4) <==> perm / 4 % 2 == 1,
        attr::may(perm, 0, 2) <==> perm / 2 % 2 == 1,
        attr::may(perm, 0, 1) <==> perm % 2 == 1,
        (perm as u32) & 0o111 != 0 <==> perm % 2 == 1 || perm / 8 % 2 == 1 || perm / 64 % 2 == 1,
{
    assert(((perm as u32 >> 6u32) & 4 != 0 <==> perm / 256 % 2 == 1) && ((perm as u32 >> 6u32) & 2
        != 0 <==> perm / 128 % 2 == 1) && ((perm as u32 >> 6u32) & 1 != 0 <==> perm / 64 % 2 == 1))
        by (bit_vector);
    assert(((perm as u32 >> 3u32) & 4 != 0 <==> perm / 32 % 2 == 1) && ((perm as u32 >> 3u32) & 2
        != 0 <==> perm / 16 % 2 == 1) && ((perm as u32 >> 3u32) & 1 != 0 <==> perm / 8 % 2 == 1))
        by (bit_vector);
    assert(((perm as u32 >> 0u32) & 4 != 0 <==> perm / 4 % 2 == 1) && ((perm as u32 >> 0u32) & 2
        != 0 <==> perm / 2 % 2 == 1) && ((perm as u32 >> 0u32) & 1 != 0 <==> perm % 2 == 1))
        by (bit_vector);
    assert((perm as u32) & 0o111 != 0 <==> perm % 2 == 1 || perm / 8 % 2 == 1 || perm / 64 % 2
        == 1) by (bit_vector);
}

proof fn lemma_digits(perm: u16)
    ensures
        perm / 64 % 8 / 4 == perm / 256 % 2,
        perm / 64 % 8 / 2 % 2 == perm / 128 % 2,
        perm / 64 % 8 % 2 == perm / 64 % 2,
        perm / 8 % 8 / 4 == perm / 32 % 2,
        perm / 8 % 8 / 2 % 2 == perm / 16 % 2,
        perm / 8 % 8 % 2 == perm / 8 % 2,
        perm % 8 / 4 == perm / 4 % 2,
        perm % 8 / 2 % 2 == perm / 2 % 2,
        perm % 8 % 2 == perm % 2,
{
    assert(perm / 64 % 8 / 4 == perm / 256 % 2 && perm / 64 % 8 / 2 % 2 == perm / 128 % 2 && perm
        / 64 % 8 % 2 == perm / 64 % 2) by (bit_vector);
    assert(perm / 8 % 8 / 4 == perm / 32 % 2 && perm / 8 % 8 / 2 % 2 == perm / 16 % 2 && perm / 8
        % 8 % 2 == perm / 8 % 2) by (bit_vector);
    assert(perm % 8 / 4 == perm / 4 % 2 && perm % 8 / 2 % 2 == perm / 2 % 2 && perm % 8 % 2 == perm
        % 2) by (bit_vector);
}

proof fn lemma_mask_bits(mask: u32)
    ensures
        mask & 4 != 0 <==> mask / 4 % 2 == 1,
        mask & 2 != 0 <==> mask / 2 % 2 == 1,
        mask & 1 != 0 <==> mask % 2 == 1,
{
    assert((mask & 4 != 0 <==> mask / 4 % 2 == 1) && (mask & 2 != 0 <==> mask / 2 % 2 == 1) && (
    mask & 1 != 0 <==> mask % 2 == 1)) by (bit_vector);
}

/// Permissions are three digits to the base of eight: the owner's, the group's
/// and the others'. A process goes by the first of them that is its own, the
/// superuser by the owner's, and has access when that digit has every bit that
/// it asks for; only to execute, any of the three is enough for the superuser.
pub proof fn lemma_access_by_digits(attr: FileAttr, uid: u32, gid: u32, mask: u32)
    ensures
        ({
            let digit = if uid == 0 || uid == attr.uid {
                attr.perm / 64 % 8
            } else if gid == attr.gid {
                attr.perm / 8 % 8
            } else {
                attr.perm % 8
            };
            let anyone = attr.perm % 2 == 1 || attr.perm / 8 % 2 == 1 || attr.perm / 64 % 2 == 1;
            attr::access_allowed(attr, uid, gid, mask) <==> {
                &&& mask / 4 % 2 == 1 ==> digit / 4 == 1
                &&& mask / 2 % 2 == 1 ==> digit / 2 % 2 == 1
                &&& mask % 2 == 1 ==> if uid == 0 {
                    anyone
                } else {
                    digit % 2 == 1
                }
            }
        }),
{
    lemma_bit_of(attr.perm);
    lemma_digits(attr.perm);
    lemma_mask_bits(mask);
}

/// A directory of the overlay is one that everybody may look into and nobody may
/// change, and it belongs to the session's user.
pub proof fn lemma_virtual_directory(
    path: SandboxPath,
    euid: u32,
    egid: u32,
    uid: u32,
    gid: u32,
    mask: u32,
)
    ensures
        ({
            let shown = attr::virtual_dir(path, euid, egid);
            &&& shown.kind is Directory
            &&& shown.uid == euid
            &&& shown.gid == egid
            &&& shown.ino == attr::inode_of(path) as u64
            &&& shown.flags & 0x10 != 0
            &&& attr::access_allowed(shown, uid, gid, mask) <==> mask / 2 % 2 == 0
        }),
{
    lemma_access_by_digits(attr::virtual_dir(path, euid, egid), uid, gid, mask);
    assert(0x10u32 & 0x10 != 0) by (bit_vector);
}

/// The root has the inode number one, and no other path has it.
pub proof fn lemma_root_inode(at: Seq<Seq<char>>)
    ensures
        attr::inode_at(at) == 1 <==> at.len() == 0,
        1 <= attr::inode_at(at) <= u64::MAX,
{
    if at.len() > 0 {
        let hash = attr::fnv1a(vstd::utf8::encode_utf8(crate::path::absolute(at)));
        assert(hash & 0x000f_ffff_ffff_ffff < 0x0010_0000_0000_0000) by (bit_vector);
    }
}

/// Inode flags and extended flags stand for each other one by one: immutable,
/// append-only, synchronous, no access times, no dump, inherited project.
pub proof fn lemma_flags_bit_by_bit(flags: u32)
    ensures
        attr::xflags_of(flags) & 0x008 != 0 <==> flags & 0x10 != 0,
        attr::xflags_of(flags) & 0x010 != 0 <==> flags & 0x20 != 0,
        attr::xflags_of(flags) & 0x020 != 0 <==> flags & 0x08 != 0,
        attr::xflags_of(flags) & 0x040 != 0 <==> flags & 0x80 != 0,
        attr::xflags_of(flags) & 0x080 != 0 <==> flags & 0x40 != 0,
        attr::xflags_of(flags) & 0x200 != 0 <==> flags & 0x2000_0000 != 0,
        attr::xflags_of(flags) & 0xffff_fd07 == 0,
        attr::flags_of(flags) & 0x10 != 0 <==> flags & 0x008 != 0,
        attr::flags_of(flags) & 0x20 != 0 <==> flags & 0x010 != 0,
        attr::flags_of(flags) & 0x08 != 0 <==> flags & 0x020 != 0,
        attr::flags_of(flags) & 0x80 != 0 <==> flags & 0x040 != 0,
        attr::flags_of(flags) & 0x40 != 0 <==> flags & 0x080 != 0,
        attr::flags_of(flags) & 0x2000_0000 != 0 <==> flags & 0x200 != 0,
        attr::flags_of(flags) & 0xdfff_ff07 == 0,
{
    assert((attr::xflags_of(flags) & 0x008 != 0 <==> flags & 0x10 != 0) && (attr::xflags_of(flags)
        & 0x010 != 0 <==> flags & 0x20 != 0) && (attr::xflags_of(flags) & 0x020 != 0 <==> flags
        & 0x08 != 0) && (attr::xflags_of(flags) & 0x040 != 0 <==> flags & 0x80 != 0) && (
    attr::xflags_of(flags) & 0x080 != 0 <==> flags & 0x40 != 0) && (attr::xflags_of(flags) & 0x200
        != 0 <==> flags & 0x2000_0000 != 0) && attr::xflags_of(flags) & 0xffff_fd07 == 0)
        by (bit_vector);
    assert((attr::flags_of(flags) & 0x10 != 0 <==> flags & 0x008 != 0) && (attr::flags_of(flags)
        & 0x20 != 0 <==> flags & 0x010 != 0) && (attr::flags_of(flags) & 0x08 != 0 <==> flags
        & 0x020 != 0) && (attr::flags_of(flags) & 0x80 != 0 <==> flags & 0x040 != 0) && (
    attr::flags_of(flags) & 0x40 != 0 <==> flags & 0x080 != 0) && (attr::flags_of(flags)
        & 0x2000_0000 != 0 <==> flags & 0x200 != 0) && attr::flags_of(flags) & 0xdfff_ff07 == 0)
        by (bit_vector);
}

/// Four bytes write a number to the base of 256, with the lowest digit first or
/// last.
pub proof fn lemma_number_by_digits(bytes: Seq<u8>)
    requires
        bytes.len() >= 4,
    ensures
        attr::number_in(bytes, true) % 256 == bytes[0],
        attr::number_in(bytes, true) / 256 % 256 == bytes[1],
        attr::number_in(bytes, true) / 65536 % 256 == bytes[2],
        attr::number_in(bytes, true) / 16777216 == bytes[3],
        attr::number_in(bytes, true) == attr::number_in(bytes.take(4).reverse(), false),
        attr::number_in(bytes, false) == attr::number_in(bytes.take(4).reverse(), true),
        0 <= attr::number_in(bytes, true) <= u32::MAX,
        0 <= attr::number_in(bytes, false) <= u32::MAX,
{
    let turned = bytes.take(4).reverse();
    assert(turned[0] == bytes[3] && turned[1] == bytes[2] && turned[2] == bytes[1] && turned[3]
        == bytes[0]);
}

/// A record for inode flags has 28 bytes of which the first four write the
/// extended flags and the others are zero. A shorter one is invalid, and any
/// other is refused; what follows the record does not count.
pub proof fn lemma_record_is_checked(data: Seq<u8>, little_endian: bool)
    ensures
        ({
            let word = attr::number_in(data, little_endian);
            let clean = forall|i: int| 4 <= i < 28 ==> #[trigger] data[i] == 0;
            let read = attr::fsxattr_flags(data, little_endian);
            &&& data.len() < 28 <==> read == Err::<u32, Errno>(Errno::EINVAL)
            &&& data.len() >= 28 && (!clean || word as u32 & 0xffff_fd07 != 0) <==> read == Err::<
                u32,
                Errno,
            >(Errno::ENOTSUP)
            &&& data.len() >= 28 && clean && word as u32 & 0xffff_fd07 == 0 <==> read is Ok
            &&& read is Ok ==> (read->Ok_0 & 0x10 != 0 <==> word as u32 & 0x8 != 0)
            &&& data.len() >= 28 ==> attr::fsxattr_flags(data.take(28), little_endian) == read
        }),
{
    let word = attr::number_in(data, little_endian) as u32;
    assert(word & !attr::FS_SUPPORTED_XFLAGS == word & 0xffff_fd07) by (bit_vector);
    lemma_flags_bit_by_bit(word);
    if data.len() >= 28 {
        let cut = data.take(28);
        assert forall|i: int| 0 <= i < 28 implies cut[i] == data[i] by {}
        assert((exists|i: int| 4 <= i < 28 && cut[i] != 0) <==> exists|i: int|
            4 <= i < 28 && data[i] != 0) by {
            if exists|i: int| 4 <= i < 28 && data[i] != 0 {
                let i = choose|i: int| 4 <= i < 28 && data[i] != 0;
                assert(cut[i] != 0);
            }
        }
    }
}

/// Which requests about inode flags there are: reading and setting the flags in
/// a word of either size, and reading and setting the record. A word of fewer
/// than four bytes is invalid, and every other request is refused.
pub proof fn lemma_flag_requests(cmd: u32, data: Seq<u8>, little_endian: bool)
    ensures
        ({
            let meaning = attr::ioctl_meaning(cmd, data, little_endian);
            &&& meaning == Ok::<IoctlAction, Errno>(IoctlAction::GetFlags) <==> cmd == 0x8008_6601
                || cmd == 0x8004_6601
            &&& meaning == Ok::<IoctlAction, Errno>(IoctlAction::GetFsxattr) <==> cmd
                == 0x801c_581f
            &&& cmd == 0x4008_6602 || cmd == 0x4004_6602 ==> if data.len() < 4 {
                meaning == Err::<IoctlAction, Errno>(Errno::EINVAL)
            } else {
                meaning matches Ok(IoctlAction::SetFlags { flags }) && flags == attr::number_in(
                    data,
                    little_endian,
                )
            }
            &&& cmd == 0x401c_5820 ==> match attr::fsxattr_flags(data, little_endian) {
                Ok(read) => meaning == Ok::<IoctlAction, Errno>(
                    IoctlAction::SetFlags { flags: read },
                ),
                Err(errno) => meaning == Err::<IoctlAction, Errno>(errno),
            }
            &&& cmd != 0x8008_6601 && cmd != 0x8004_6601 && cmd != 0x801c_581f && cmd
                != 0x4008_6602 && cmd != 0x4004_6602 && cmd != 0x401c_5820 ==> meaning == Err::<
                IoctlAction,
                Errno,
            >(Errno::ENOTSUP)
        }),
{
    if data.len() >= 4 {
        lemma_number_by_digits(data);
    }
}

/// Different errors have different numbers, those that the host knows them by,
/// and an error of the host is passed on as itself.
pub proof fn lemma_error_numbers_differ(a: Errno, b: Errno)
    ensures
        a.number() == b.number() ==> a == b,
        a.number() == 1 <==> a is EPERM,
        a.number() == 2 <==> a is ENOENT,
        a.number() == 5 <==> a is EIO,
        a.number() == 9 <==> a is EBADF,
        a.number() == 13 <==> a is EACCES,
        a.number() == 17 <==> a is EEXIST,
        a.number() == 20 <==> a is ENOTDIR,
        a.number() == 21 <==> a is EISDIR,
        a.number() == 22 <==> a is EINVAL,
        a.number() == 30 <==> a is EROFS,
        a.number() == 38 <==> a is ENOSYS,
        a.number() == 95 <==> a is ENOTSUP,
        a.number() == 125 <==> a is ECANCELED,
        attr::passes_on(a.number(), b) <==> a == b && !(a is ECANCELED),
{
}

/// The hash behind inode numbers takes each byte in by mixing it with what came
/// before and multiplying, modulo two to the 64th.
pub proof fn lemma_hash_byte_by_byte(bytes: Seq<u8>, byte: u8)
    ensures
        attr::fnv1a(Seq::empty()) == 0xcbf2_9ce4_8422_2325,
        attr::fnv1a(bytes.push(byte)) == ((attr::fnv1a(bytes) ^ (byte as u64)) * 0x0100_0000_01b3)
            % 0x1_0000_0000_0000_0000,
{
    assert(bytes.push(byte).drop_last() =~= bytes);
}

/// The inode number of a path other than the root is two more than the last 52
/// bits of the hash of its text.
pub proof fn lemma_inode_from_hash(at: Seq<Seq<char>>)
    requires
        at.len() > 0,
    ensures
        attr::inode_at(at) == 2 + attr::fnv1a(
            vstd::utf8::encode_utf8(crate::path::absolute(at)),
        ) % 0x10_0000_0000_0000,
{
    let hash = attr::fnv1a(vstd::utf8::encode_utf8(crate::path::absolute(at)));
    assert(hash & 0x000f_ffff_ffff_ffff == hash % 0x10_0000_0000_0000) by (bit_vector);
}

} // verus!
