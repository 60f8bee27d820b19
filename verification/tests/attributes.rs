use sandboxfs::attr::apply_override;
use sandboxfs::attr::check_access;
use sandboxfs::attr::decode_fsxattr_flags;
use sandboxfs::attr::encode_fsxattr;
use sandboxfs::attr::flags_to_xflags;
use sandboxfs::attr::io_to_errno;
use sandboxfs::attr::ioctl_action;
use sandboxfs::attr::mode_to_kind;
use sandboxfs::attr::number_bytes;
use sandboxfs::attr::number_from;
use sandboxfs::attr::permission_bits;
use sandboxfs::attr::stable_ino;
use sandboxfs::attr::system_time;
use sandboxfs::attr::virtual_dir_attr;
use sandboxfs::attr::xflags_to_flags;
use sandboxfs::attr::Errno;
use sandboxfs::attr::FileType;
use sandboxfs::attr::IoctlAction;
use sandboxfs::attr::FIRST_DYNAMIC_INO;
use sandboxfs::attr::FSXATTR_SIZE;
use sandboxfs::attr::FS_APPEND_FL;
use sandboxfs::attr::FS_IMMUTABLE_FL;
use sandboxfs::attr::FS_IOC_FSGETXATTR;
use sandboxfs::attr::FS_IOC_FSSETXATTR;
use sandboxfs::attr::FS_IOC_GETFLAGS;
use sandboxfs::attr::FS_IOC_SETFLAGS_INT;
use sandboxfs::attr::FS_NOATIME_FL;
use sandboxfs::attr::FS_NODUMP_FL;
use sandboxfs::attr::FS_PROJINHERIT_FL;
use sandboxfs::attr::FS_SYNC_FL;
use sandboxfs::attr::FS_XFLAG_APPEND;
use sandboxfs::attr::FS_XFLAG_IMMUTABLE;
use sandboxfs::attr::FS_XFLAG_NOATIME;
use sandboxfs::attr::FS_XFLAG_NODUMP;
use sandboxfs::attr::FS_XFLAG_PROJINHERIT;
use sandboxfs::attr::FS_XFLAG_SYNC;
use sandboxfs::attr::ROOT_INO;
use sandboxfs::hostfs::check_host_text;
use sandboxfs::hostfs::StatFs;
use sandboxfs::metadata::MetadataOverride;
use sandboxfs::path::SandboxPath;
use sandboxfs::time::Timestamp;

fn little_endian() -> bool {
    u16::from_ne_bytes([1, 0]) == 1
}

fn at(text: &str) -> SandboxPath {
    SandboxPath::new(text).unwrap()
}

#[test]
fn fsxattr_conversion_maps_common_inode_flags() {
    let flags = FS_IMMUTABLE_FL
        | FS_APPEND_FL
        | FS_SYNC_FL
        | FS_NOATIME_FL
        | FS_NODUMP_FL
        | FS_PROJINHERIT_FL;
    let xflags = flags_to_xflags(flags);
    assert_eq!(xflags & FS_XFLAG_IMMUTABLE, FS_XFLAG_IMMUTABLE);
    assert_eq!(xflags & FS_XFLAG_APPEND, FS_XFLAG_APPEND);
    assert_eq!(xflags & FS_XFLAG_SYNC, FS_XFLAG_SYNC);
    assert_eq!(xflags & FS_XFLAG_NOATIME, FS_XFLAG_NOATIME);
    assert_eq!(xflags & FS_XFLAG_NODUMP, FS_XFLAG_NODUMP);
    assert_eq!(xflags & FS_XFLAG_PROJINHERIT, FS_XFLAG_PROJINHERIT);
    assert_eq!(xflags_to_flags(xflags).unwrap(), flags);
    assert_eq!(flags_to_xflags(0x1), 0);
    assert_eq!(xflags_to_flags(0x1).unwrap_err().code(), libc::ENOTSUP);
    let native = little_endian();
    assert_eq!(
        decode_fsxattr_flags(&encode_fsxattr(flags, native), native).unwrap(),
        flags
    );
    let mut fsxattr_with_project_id = encode_fsxattr(FS_IMMUTABLE_FL, native);
    fsxattr_with_project_id[12..16].copy_from_slice(&7u32.to_ne_bytes());
    assert_eq!(
        decode_fsxattr_flags(&fsxattr_with_project_id, native)
            .unwrap_err()
            .code(),
        libc::ENOTSUP
    );
    assert_eq!(
        &encode_fsxattr(FS_IMMUTABLE_FL, native)[..4],
        &FS_XFLAG_IMMUTABLE.to_ne_bytes()
    );
}

#[test]
fn records_read_back_in_either_byte_order() {
    for order in [true, false] {
        let record = encode_fsxattr(FS_NODUMP_FL | 0x4000, order);
        assert_eq!(record.len(), FSXATTR_SIZE);
        assert_eq!(decode_fsxattr_flags(&record, order), Ok(FS_NODUMP_FL));
        assert_eq!(number_from(&number_bytes(0x0102_0304, order), order), 0x0102_0304);
    }
    assert_eq!(number_bytes(0x0102_0304, true), vec![4, 3, 2, 1]);
    assert_eq!(number_bytes(0x0102_0304, false), vec![1, 2, 3, 4]);
    assert_eq!(decode_fsxattr_flags(&[0; 27], true), Err(Errno::EINVAL));
}

#[test]
fn flag_requests_are_told_apart() {
    assert_eq!(ioctl_action(FS_IOC_GETFLAGS, &[], true), Ok(IoctlAction::GetFlags));
    assert_eq!(ioctl_action(FS_IOC_FSGETXATTR, &[], true), Ok(IoctlAction::GetFsxattr));
    assert_eq!(
        ioctl_action(FS_IOC_SETFLAGS_INT, &[0x10, 0, 0, 0], true),
        Ok(IoctlAction::SetFlags { flags: 0x10 })
    );
    assert_eq!(
        ioctl_action(FS_IOC_SETFLAGS_INT, &[0x10, 0, 0], true),
        Err(Errno::EINVAL)
    );
    let record = encode_fsxattr(FS_APPEND_FL, true);
    assert_eq!(
        ioctl_action(FS_IOC_FSSETXATTR, &record, true),
        Ok(IoctlAction::SetFlags { flags: FS_APPEND_FL })
    );
    assert_eq!(ioctl_action(0, &[], true), Err(Errno::ENOTSUP));
}

#[test]
fn errors_keep_the_numbers_of_the_system() {
    assert_eq!(Errno::EPERM.code(), libc::EPERM);
    assert_eq!(Errno::ENOENT.code(), libc::ENOENT);
    assert_eq!(Errno::EIO.code(), libc::EIO);
    assert_eq!(Errno::EBADF.code(), libc::EBADF);
    assert_eq!(Errno::EACCES.code(), libc::EACCES);
    assert_eq!(Errno::EEXIST.code(), libc::EEXIST);
    assert_eq!(Errno::ENOTDIR.code(), libc::ENOTDIR);
    assert_eq!(Errno::EISDIR.code(), libc::EISDIR);
    assert_eq!(Errno::EINVAL.code(), libc::EINVAL);
    assert_eq!(Errno::EROFS.code(), libc::EROFS);
    assert_eq!(Errno::ENOSYS.code(), libc::ENOSYS);
    assert_eq!(Errno::ENOTSUP.code(), libc::ENOTSUP);
    assert_eq!(Errno::ECANCELED.code(), libc::ECANCELED);
    assert_eq!(io_to_errno(Some(libc::EACCES)), Errno::EACCES);
    assert_eq!(io_to_errno(Some(libc::ECANCELED)), Errno::EIO);
    assert_eq!(io_to_errno(None), Errno::EIO);
}

#[test]
fn inode_numbers_depend_on_the_path_alone() {
    assert_eq!(stable_ino(&at("/")), ROOT_INO);
    let ino = stable_ino(&at("/a"));
    assert_eq!(ino, stable_ino(&at("a/")));
    assert_ne!(ino, stable_ino(&at("/b")));
    assert!(ino >= FIRST_DYNAMIC_INO);
    assert_eq!(ino, 0x0006_6707_b49c_d92d + 2);
}

#[test]
fn kinds_come_from_the_host_or_the_mode() {
    assert_eq!(mode_to_kind(0, true, false, false), FileType::Directory);
    assert_eq!(mode_to_kind(0o010000, false, false, true), FileType::RegularFile);
    assert_eq!(mode_to_kind(0o010644, false, false, false), FileType::NamedPipe);
    assert_eq!(mode_to_kind(0o140755, false, false, false), FileType::Socket);
    assert_eq!(mode_to_kind(0o060000, false, false, false), FileType::BlockDevice);
    assert_eq!(mode_to_kind(0o020000, false, false, false), FileType::CharDevice);
    assert_eq!(mode_to_kind(0, false, false, false), FileType::RegularFile);
    assert_eq!(permission_bits(0o104755), 0o4755);
}

#[test]
fn overrides_change_what_shows() {
    let attr = virtual_dir_attr(&at("/v"), 5, 6);
    assert_eq!(attr.perm, 0o555);
    assert_eq!(attr.nlink, 2);
    assert_eq!((attr.uid, attr.gid), (5, 6));
    assert_eq!(attr.flags, FS_IMMUTABLE_FL);
    assert_eq!(attr.kind, FileType::Directory);
    let change = MetadataOverride {
        mode: Some(0o700),
        gid: Some(9),
        mtime: Some(Timestamp { secs: 3, nanos: 4 }),
        ..MetadataOverride::default()
    };
    let shown = apply_override(attr, Some(change));
    assert_eq!(shown.perm, 0o700);
    assert_eq!((shown.uid, shown.gid), (5, 9));
    assert_eq!(shown.mtime, Timestamp { secs: 3, nanos: 4 });
    assert_eq!(shown.atime, attr.atime);
    assert_eq!(apply_override(attr, None), attr);
}

#[test]
fn access_goes_by_the_visible_mode() {
    let mut attr = virtual_dir_attr(&at("/v"), 5, 6);
    attr.perm = 0o640;
    assert!(check_access(&attr, 5, 1, 6));
    assert!(!check_access(&attr, 5, 1, 1));
    assert!(check_access(&attr, 1, 6, 4));
    assert!(!check_access(&attr, 1, 6, 2));
    assert!(!check_access(&attr, 1, 1, 4));
    assert!(check_access(&attr, 1, 1, 0));
    assert!(!check_access(&attr, 0, 0, 1));
    attr.perm = 0o641;
    assert!(check_access(&attr, 0, 0, 1));
}

#[test]
fn host_times_and_sizes_are_kept() {
    assert_eq!(system_time(7, 9), Timestamp { secs: 7, nanos: 9 });
    assert_eq!(system_time(-7, 9), Timestamp { secs: 0, nanos: 0 });
    let stat = StatFs::from_host(1, 2, 3, 4, 5, 4096, 255, 0x1_0000_0200);
    assert_eq!(stat.bsize, 4096);
    assert_eq!(stat.namelen, 255);
    assert_eq!(stat.frsize, 0x200);
    assert!(check_host_text("/a").is_ok());
    assert_eq!(
        check_host_text("/a\0").unwrap_err().message(),
        "paths and xattr names containing NUL are not supported"
    );
}
