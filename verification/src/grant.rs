//! Grants: decisions about reads and writes that outlive one request.

use vstd::prelude::*;

use crate::path::SandboxPath;
use crate::pending::PendingReadWriteRequest;
use crate::pending::ReadWriteRequestView;
use crate::policy;
use crate::policy::PatternView;
use crate::policy::PolicyPattern;
use crate::policy::ProtectionKind;
use crate::process_info::ProcessIdentityEvidence;
use crate::text;
use crate::time;
use crate::time::Timestamp;

verus! {

broadcast use vstd::string::group_string_axioms;

/// How long a grant lasts that names no duration, in seconds.
pub const DEFAULT_READ_WRITE_GRANT_DURATION: u64 = 1_800;

/// The lifetime that the user asks for.
#[derive(Clone, Copy, Debug, PartialEq, Eq, Structural)]
pub enum ReadWriteGrantLifetimeRequest {
    OneShot,
    Duration { seconds: u64 },
}

/// What the user asks for when allowing with a grant.
#[derive(Debug)]
pub struct ReadWriteGrantOptions {
    pub path: Option<SandboxPath>,
    pub lifetime: ReadWriteGrantLifetimeRequest,
    pub tree: bool,
}

/// When a grant ends: with its first use, or at a time.
#[derive(Clone, Copy, Debug, PartialEq, Eq, Structural)]
pub enum ReadWriteGrantLifetime {
    OneShot,
    Duration { expires_at_epoch_ms: u128 },
}

impl ReadWriteGrantLifetime {
    /// The name of the lifetime in log lines.
    pub open spec fn name(self) -> Seq<char> {
        match self {
            ReadWriteGrantLifetime::OneShot => "one-shot"@,
            ReadWriteGrantLifetime::Duration { .. } => "duration"@,
        }
    }

    /// Whether the lifetime is over.
    pub open spec fn over(self, now: Timestamp) -> bool {
        match self {
            ReadWriteGrantLifetime::OneShot => false,
            ReadWriteGrantLifetime::Duration { expires_at_epoch_ms } => time::millis_since_epoch(
                now.secs as int,
                now.nanos as int,
            ) >= expires_at_epoch_ms,
        }
    }

    pub fn log_name(self) -> (name: &'static str)
        ensures
            name@ == self.name(),
    {
        match self {
            ReadWriteGrantLifetime::OneShot => "one-shot",
            ReadWriteGrantLifetime::Duration { .. } => "duration",
        }
    }

    pub fn is_expired(self, now: Timestamp) -> (expired: bool)
        ensures
            expired == self.over(now),
    {
        match self {
            ReadWriteGrantLifetime::OneShot => false,
            ReadWriteGrantLifetime::Duration { expires_at_epoch_ms } => time::epoch_millis(now)
                >= expires_at_epoch_ms,
        }
    }
}

/// Whom a grant is for.
#[derive(Debug)]
pub enum ReadWriteGrantSubject {
    Exact { identity: ProcessIdentityEvidence },
    ProcessTree { identities: Vec<ProcessIdentityEvidence> },
}

/// Whom a grant is for.
#[verifier::ext_equal]
pub enum SubjectView {
    Exact(ProcessIdentityEvidence),
    ProcessTree(Seq<ProcessIdentityEvidence>),
}

impl SubjectView {
    /// The name of the subject in log lines.
    pub open spec fn name(self) -> Seq<char> {
        match self {
            SubjectView::Exact(_) => "exact"@,
            SubjectView::ProcessTree(_) => "process-tree"@,
        }
    }

    /// Whether the grant is for the process; an unknown process is none.
    pub open spec fn admits(self, identity: Option<ProcessIdentityEvidence>) -> bool {
        match identity {
            Some(identity) => match self {
                SubjectView::Exact(expected) => expected == identity,
                SubjectView::ProcessTree(identities) => identities.contains(identity),
            },
            None => false,
        }
    }

    /// The number of processes.
    pub open spec fn size(self) -> nat {
        match self {
            SubjectView::Exact(_) => 1,
            SubjectView::ProcessTree(identities) => identities.len(),
        }
    }
}

impl View for ReadWriteGrantSubject {
    type V = SubjectView;

    open spec fn view(&self) -> SubjectView {
        match self {
            ReadWriteGrantSubject::Exact { identity } => SubjectView::Exact(*identity),
            ReadWriteGrantSubject::ProcessTree { identities } => SubjectView::ProcessTree(
                identities@,
            ),
        }
    }
}

/// Whether the list holds the identity.
pub fn holds_identity(
    identities: &Vec<ProcessIdentityEvidence>,
    identity: ProcessIdentityEvidence,
) -> (found: bool)
    ensures
        found == identities@.contains(identity),
{
    for i in 0..identities.len()
        invariant
            forall|j: int| 0 <= j < i ==> identities@[j] != identity,
    {
        if identities[i] == identity {
            return true;
        }
    }
    false
}

impl ReadWriteGrantSubject {
    pub fn log_name(&self) -> (name: &'static str)
        ensures
            name@ == self@.name(),
    {
        match self {
            ReadWriteGrantSubject::Exact { .. } => "exact",
            ReadWriteGrantSubject::ProcessTree { .. } => "process-tree",
        }
    }

    pub fn matches(&self, identity: Option<ProcessIdentityEvidence>) -> (matched: bool)
        ensures
            matched == self@.admits(identity),
    {
        match identity {
            None => false,
            Some(identity) => match self {
                ReadWriteGrantSubject::Exact { identity: expected } => *expected == identity,
                ReadWriteGrantSubject::ProcessTree { identities } => holds_identity(
                    identities,
                    identity,
                ),
            },
        }
    }

    pub fn len(&self) -> (n: usize)
        ensures
            n == self@.size(),
    {
        match self {
            ReadWriteGrantSubject::Exact { .. } => 1,
            ReadWriteGrantSubject::ProcessTree { identities } => identities.len(),
        }
    }

    pub fn is_empty(&self) -> (empty: bool)
        ensures
            empty == (self@.size() == 0),
    {
        self.len() == 0
    }
}

/// Leave for a process to read or write the paths that a pattern selects.
#[derive(Debug)]
pub struct ReadWriteAccessGrant {
    pub id: u64,
    pub sandbox: String,
    pub kind: ProtectionKind,
    pub path_pattern: SandboxPath,
    pub subject: ReadWriteGrantSubject,
    pub lifetime: ReadWriteGrantLifetime,
    pub created_at_epoch_ms: u128,
}

/// What a grant says.
#[verifier::ext_equal]
pub struct GrantView {
    pub id: u64,
    pub sandbox: Seq<char>,
    pub kind: ProtectionKind,
    pub path_pattern: SandboxPath,
    pub subject: SubjectView,
    pub lifetime: ReadWriteGrantLifetime,
    pub created_at_epoch_ms: u128,
}

/// Whether the text of one path, read as a pattern, selects another path.
pub open spec fn pattern_covers(pattern: SandboxPath, path: SandboxPath) -> bool {
    policy::selects(
        PatternView { text: pattern.text(), directory_only: false },
        path.text(),
        false,
    )
}

impl GrantView {
    /// Whether the grant lets a process have an effect on a path now.
    pub open spec fn covers(
        self,
        sandbox: Seq<char>,
        kind: ProtectionKind,
        path: SandboxPath,
        identity: Option<ProcessIdentityEvidence>,
        now: Timestamp,
    ) -> bool {
        &&& self.sandbox == sandbox
        &&& self.kind == kind
        &&& !self.lifetime.over(now)
        &&& pattern_covers(self.path_pattern, path)
        &&& self.subject.admits(identity)
    }

    /// Whether the grant covers what a pending request asks for.
    pub open spec fn covers_request(self, request: ReadWriteRequestView, now: Timestamp) -> bool {
        self.covers(request.sandbox, request.kind, request.path, request.process_identity, now)
    }
}

impl View for ReadWriteAccessGrant {
    type V = GrantView;

    open spec fn view(&self) -> GrantView {
        GrantView {
            id: self.id,
            sandbox: self.sandbox@,
            kind: self.kind,
            path_pattern: self.path_pattern,
            subject: self.subject@,
            lifetime: self.lifetime,
            created_at_epoch_ms: self.created_at_epoch_ms,
        }
    }
}

/// Whether the text of one path, read as a pattern, selects another path.
pub fn grant_pattern_matches(pattern: &SandboxPath, path: &SandboxPath) -> (matched: bool)
    ensures
        matched == pattern_covers(*pattern, *path),
        policy::plain_match(policy::glob_text(pattern.text()), path.text()) matches Some(answer)
            ==> matched == answer,
{
    PolicyPattern::from_path(pattern).matches(path, false)
}

impl ReadWriteAccessGrant {
    pub fn matches_request(&self, request: &PendingReadWriteRequest, now: Timestamp) -> (matched:
        bool)
        ensures
            matched == self@.covers_request(request@, now),
    {
        self.matches_intent(
            request.sandbox.as_str(),
            request.kind,
            &request.path,
            request.process_identity,
            now,
        )
    }

    pub fn matches_intent(
        &self,
        sandbox: &str,
        kind: ProtectionKind,
        path: &SandboxPath,
        identity: Option<ProcessIdentityEvidence>,
        now: Timestamp,
    ) -> (matched: bool)
        ensures
            matched == self@.covers(sandbox@, kind, *path, identity, now),
    {
        text::same_text(self.sandbox.as_str(), sandbox) && self.kind == kind
            && !self.lifetime.is_expired(now) && grant_pattern_matches(&self.path_pattern, path)
            && self.subject.matches(identity)
    }
}

/// What looking for a grant found.
#[derive(Clone, Copy, Debug, PartialEq, Eq, Structural)]
pub enum GrantMatchOutcome {
    Matched { grant_id: u64, consumed: bool },
    NotMatched,
}

/// A grant whose time is over stays over, and lets nothing pass.
pub proof fn lemma_expired_grant_covers_nothing(
    grant: GrantView,
    ended: Timestamp,
    now: Timestamp,
    sandbox: Seq<char>,
    kind: ProtectionKind,
    path: SandboxPath,
    identity: Option<ProcessIdentityEvidence>,
)
    requires
        grant.lifetime.over(ended),
        time::millis_since_epoch(ended.secs as int, ended.nanos as int) <= time::millis_since_epoch(
            now.secs as int,
            now.nanos as int,
        ),
    ensures
        grant.lifetime.over(now),
        !grant.covers(sandbox, kind, path, identity, now),
{
}

/// A process that cannot be told from others is covered by no grant.
pub proof fn lemma_unknown_process_is_not_covered(
    grant: GrantView,
    sandbox: Seq<char>,
    kind: ProtectionKind,
    path: SandboxPath,
    now: Timestamp,
)
    ensures
        !grant.covers(sandbox, kind, path, None, now),
{
}

} // verus!
