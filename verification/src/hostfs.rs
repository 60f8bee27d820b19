//! What the host says of its filesystems.

use vstd::prelude::*;

use crate::error::Error;
use crate::text;

verus! {

/// The state of a filesystem.
#[derive(Clone, Copy, Debug, PartialEq, Eq, Structural)]
pub struct StatFs {
    pub blocks: u64,
    pub bfree: u64,
    pub bavail: u64,
    pub files: u64,
    pub ffree: u64,
    pub bsize: u32,
    pub namelen: u32,
    pub frsize: u32,
}

impl StatFs {
    /// The state that the host's numbers tell; sizes keep their low 32 bits.
    pub fn from_host(
        blocks: u64,
        bfree: u64,
        bavail: u64,
        files: u64,
        ffree: u64,
        bsize: u64,
        namelen: u64,
        frsize: u64,
    ) -> (stat: Self)
        ensures
            stat == (StatFs {
                blocks,
                bfree,
                bavail,
                files,
                ffree,
                bsize: bsize as u32,
                namelen: namelen as u32,
                frsize: frsize as u32,
            }),
    {
        StatFs {
            blocks,
            bfree,
            bavail,
            files,
            ffree,
            bsize: #[verifier::truncate] (bsize as u32),
            namelen: #[verifier::truncate] (namelen as u32),
            frsize: #[verifier::truncate] (frsize as u32),
        }
    }
}

/// Checks that a text can be handed to the host as a path or a name.
pub fn check_host_text(value: &str) -> (result: Result<(), Error>)
    ensures
        match result {
            Ok(_) => !value@.contains('\0'),
            Err(error) => value@.contains('\0') && error.says(
                "paths and xattr names containing NUL are not supported"@,
            ),
        },
{
    if text::contains_char(value, '\0') {
        return Err(
            Error::msg("paths and xattr names containing NUL are not supported".to_owned()),
        );
    }
    Ok(())
}

} // verus!
