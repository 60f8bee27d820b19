//! What clients ask a session, and what it answers.

use vstd::prelude::*;

use crate::grant::ReadWriteGrantOptions;
use crate::path::SandboxPath;
use crate::pending::PendingRequest;
use crate::policy::PassthroughRule;
use crate::policy::PolicyPattern;
use crate::policy::ProtectionKind;
use crate::policy::ProtectionRule;
use crate::sandbox::TrustedPathScope;

verus! {

/// A request to a session.
#[allow(inconsistent_fields)]
#[derive(Debug)]
pub enum Request {
    Ping,
    Shutdown { name: String },
    Attach { name: String, mountpoint: String, temporary: bool },
    Detach { name: String, mountpoint: String },
    Mount { name: String, local: String, on_fs: SandboxPath },
    Umount { name: String, on_fs: SandboxPath },
    Hide { name: String, on_fs: SandboxPath },
    Protect { name: String, kind: ProtectionKind, pattern: PolicyPattern },
    Unprotect { name: String, kind: ProtectionKind, pattern: PolicyPattern },
    ListProtection {
        name: String,
        include_read: bool,
        include_write: bool,
        include_metadata: bool,
        include_xattr: bool,
    },
    Bypass { name: String, kind: ProtectionKind, pattern: PolicyPattern },
    Unbypass { name: String, kind: ProtectionKind, pattern: PolicyPattern },
    ListBypass {
        name: String,
        include_read: bool,
        include_write: bool,
        include_metadata: bool,
        include_xattr: bool,
    },
    ListMounts { name: String },
    Metadata { name: String },
    BeginTrustedOperation {
        name: String,
        command: String,
        mountpoint: String,
        paths: Vec<TrustedPathScope>,
    },
    RegisterTrustedPid { token: String, pid: u32, uid: u32 },
    EndTrustedOperation { token: String },
    Pending { name: String },
    Allow { name: String, id: u64, do_nothing: bool, grant: Option<ReadWriteGrantOptions> },
    Deny { name: String, id: u64 },
    Cancel { name: String, id: u64 },
    CancelAll { name: String, mountpoint: Option<String> },
    LogPath { name: String },
}

/// The answer of a session.
#[allow(inconsistent_fields)]
#[derive(Debug)]
pub enum Response {
    /// The request was carried out and there is nothing to report.
    Done,
    Warning { message: String },
    Text { text: String },
    Pending { items: Vec<PendingRequest> },
    ProtectionRules { items: Vec<ProtectionRule> },
    PassthroughRules { items: Vec<PassthroughRule> },
    Trusted { token: String, operation_id: u64, mountpoint: String },
    Error { message: String },
}

impl Response {
    /// The answer is an error with the text.
    pub open spec fn fails_with(self, text: Seq<char>) -> bool {
        self matches Response::Error { message } && message@ == text
    }
}

} // verus!
