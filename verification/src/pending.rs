//! Requests that wait for a decision.

use vstd::prelude::*;

use crate::metadata;
use crate::metadata::MetadataObjectKey;
use crate::metadata::ObjectView;
use crate::metadata::PendingKeyView;
use crate::metadata::PendingOperationKey;
use crate::operation::Effect;
use crate::operation::EffectView;
use crate::operation::MetadataOperation;
use crate::operation::PendingOperationKind;
use crate::operation::ReadWriteOperation;
use crate::path::SandboxPath;
use crate::policy::ProtectionKind;
use crate::process_info::ProcessIdentityEvidence;

verus! {

broadcast use vstd::string::group_string_axioms;

/// The numbers of the process that asks.
#[derive(Clone, Copy, Debug, PartialEq, Eq, Structural)]
pub struct RequesterIdentity {
    pub pid: u32,
    pub uid: u32,
    pub gid: u32,
}

/// What was decided about a pending request.
#[derive(Clone, Copy, Debug, PartialEq, Eq, Structural)]
pub enum PendingDecision {
    Apply,
    DoNothing,
    Deny,
    Cancel,
}

/// A change of metadata that waits for a decision.
#[derive(Debug)]
pub struct PendingMetadataRequest {
    pub id: u64,
    pub sandbox: String,
    pub attach_id: Option<u64>,
    pub operation: MetadataOperation,
    pub object: MetadataObjectKey,
    pub kinds: Vec<PendingOperationKind>,
    pub pid: u32,
    pub uid: u32,
    pub gid: u32,
    pub description: String,
}

/// What a pending change of metadata says.
#[verifier::ext_equal]
pub struct MetadataRequestView {
    pub id: u64,
    pub sandbox: Seq<char>,
    pub attach_id: Option<u64>,
    pub operation: MetadataOperation,
    pub object: ObjectView,
    pub kinds: Seq<PendingOperationKind>,
    pub pid: u32,
    pub uid: u32,
    pub gid: u32,
    pub description: Seq<char>,
}

/// The keys of the parts that a request on an object claims.
pub open spec fn claimed_keys(
    sandbox: Seq<char>,
    object: ObjectView,
    kinds: Seq<PendingOperationKind>,
) -> Seq<PendingKeyView> {
    kinds.map_values(|kind: PendingOperationKind| PendingKeyView { sandbox, object, kind })
}

impl MetadataRequestView {
    /// The keys of the parts that the request claims.
    pub open spec fn claims(self) -> Seq<PendingKeyView> {
        claimed_keys(self.sandbox, self.object, self.kinds)
    }
}

impl View for PendingMetadataRequest {
    type V = MetadataRequestView;

    open spec fn view(&self) -> MetadataRequestView {
        MetadataRequestView {
            id: self.id,
            sandbox: self.sandbox@,
            attach_id: self.attach_id,
            operation: self.operation,
            object: self.object@,
            kinds: self.kinds@,
            pid: self.pid,
            uid: self.uid,
            gid: self.gid,
            description: self.description@,
        }
    }
}

fn copied_kinds(kinds: &Vec<PendingOperationKind>) -> (copy: Vec<PendingOperationKind>)
    ensures
        copy@ == kinds@,
{
    let mut copy: Vec<PendingOperationKind> = Vec::new();
    for i in 0..kinds.len()
        invariant
            copy@ == kinds@.take(i as int),
    {
        copy.push(kinds[i]);
        assert(copy@ =~= kinds@.take(i + 1));
    }
    assert(kinds@.take(kinds.len() as int) =~= kinds@);
    copy
}

impl Clone for PendingMetadataRequest {
    fn clone(&self) -> (copy: Self)
        ensures
            copy@ == self@,
    {
        PendingMetadataRequest {
            id: self.id,
            sandbox: self.sandbox.clone(),
            attach_id: self.attach_id,
            operation: self.operation.clone(),
            object: self.object.clone(),
            kinds: copied_kinds(&self.kinds),
            pid: self.pid,
            uid: self.uid,
            gid: self.gid,
            description: self.description.clone(),
        }
    }
}

/// The keys of the parts that a request on an object claims.
pub fn pending_metadata_keys(
    sandbox: &str,
    object: &MetadataObjectKey,
    kinds: &Vec<PendingOperationKind>,
) -> (keys: Vec<PendingOperationKey>)
    ensures
        keys.len() == kinds.len(),
        forall|i: int|
            0 <= i < keys.len() ==> (#[trigger] keys@[i])@ == claimed_keys(
                sandbox@,
                object@,
                kinds@,
            )[i],
{
    let mut keys: Vec<PendingOperationKey> = Vec::new();
    for i in 0..kinds.len()
        invariant
            keys.len() == i,
            forall|j: int|
                0 <= j < i ==> (#[trigger] keys@[j])@ == claimed_keys(sandbox@, object@, kinds@)[j],
    {
        keys.push(
            PendingOperationKey {
                sandbox: sandbox.to_owned(),
                object: object.clone(),
                kind: kinds[i],
            },
        );
    }
    keys
}

impl PendingMetadataRequest {
    /// The keys of the parts that the request claims.
    pub fn keys(&self) -> (keys: Vec<PendingOperationKey>)
        ensures
            keys.len() == self@.claims().len(),
            forall|i: int| 0 <= i < keys.len() ==> (#[trigger] keys@[i])@ == self@.claims()[i],
    {
        pending_metadata_keys(self.sandbox.as_str(), &self.object, &self.kinds)
    }
}

/// A pending change of metadata as it leaves the session: the object that it
/// resolved to stays inside.
#[derive(Debug)]
pub struct SerializedPendingMetadataRequest {
    pub id: u64,
    pub sandbox: String,
    pub attach_id: Option<u64>,
    pub operation: MetadataOperation,
    pub kinds: Vec<PendingOperationKind>,
    pub pid: u32,
    pub uid: u32,
    pub gid: u32,
    pub description: String,
}

impl From<PendingMetadataRequest> for SerializedPendingMetadataRequest {
    fn from(request: PendingMetadataRequest) -> (shown: Self) {
        SerializedPendingMetadataRequest {
            id: request.id,
            sandbox: request.sandbox,
            attach_id: request.attach_id,
            operation: request.operation,
            kinds: request.kinds,
            pid: request.pid,
            uid: request.uid,
            gid: request.gid,
            description: request.description,
        }
    }
}

impl vstd::std_specs::convert::FromSpecImpl<PendingMetadataRequest> for SerializedPendingMetadataRequest {
    open spec fn obeys_from_spec() -> bool {
        true
    }

    open spec fn from_spec(request: PendingMetadataRequest) -> Self {
        SerializedPendingMetadataRequest {
            id: request.id,
            sandbox: request.sandbox,
            attach_id: request.attach_id,
            operation: request.operation,
            kinds: request.kinds,
            pid: request.pid,
            uid: request.uid,
            gid: request.gid,
            description: request.description,
        }
    }
}

impl SerializedPendingMetadataRequest {
    /// The request that was shown, with an object that no layer has.
    pub fn restored(self) -> (request: PendingMetadataRequest)
        ensures
            request@ == (MetadataRequestView {
                id: self.id,
                sandbox: self.sandbox@,
                attach_id: self.attach_id,
                operation: self.operation,
                object: ObjectView { layer_id: metadata::NO_LAYER, relative_path: Seq::empty() },
                kinds: self.kinds@,
                pid: self.pid,
                uid: self.uid,
                gid: self.gid,
                description: self.description@,
            }),
    {
        let object = MetadataObjectKey { layer_id: metadata::NO_LAYER, relative_path: String::new() };
        proof {
            let none = Seq::<Seq<char>>::empty();
            crate::path::lemma_relative_parts(none);
            assert(object.relative_path@ =~= crate::path::relative(none));
        }
        PendingMetadataRequest {
            id: self.id,
            sandbox: self.sandbox,
            attach_id: self.attach_id,
            operation: self.operation,
            object,
            kinds: self.kinds,
            pid: self.pid,
            uid: self.uid,
            gid: self.gid,
            description: self.description,
        }
    }
}

/// A read or write that waits for a decision.
#[derive(Debug)]
pub struct PendingReadWriteRequest {
    pub id: u64,
    pub sandbox: String,
    pub attach_id: Option<u64>,
    pub operation: ReadWriteOperation,
    pub kind: ProtectionKind,
    pub path: SandboxPath,
    pub pid: u32,
    pub uid: u32,
    pub gid: u32,
    pub process_identity: Option<ProcessIdentityEvidence>,
    pub description: String,
}

/// What a pending read or write says.
#[verifier::ext_equal]
pub struct ReadWriteRequestView {
    pub id: u64,
    pub sandbox: Seq<char>,
    pub attach_id: Option<u64>,
    pub operation: ReadWriteOperation,
    pub kind: ProtectionKind,
    pub path: SandboxPath,
    pub pid: u32,
    pub uid: u32,
    pub gid: u32,
    pub process_identity: Option<ProcessIdentityEvidence>,
    pub description: Seq<char>,
}

impl View for PendingReadWriteRequest {
    type V = ReadWriteRequestView;

    open spec fn view(&self) -> ReadWriteRequestView {
        ReadWriteRequestView {
            id: self.id,
            sandbox: self.sandbox@,
            attach_id: self.attach_id,
            operation: self.operation,
            kind: self.kind,
            path: self.path,
            pid: self.pid,
            uid: self.uid,
            gid: self.gid,
            process_identity: self.process_identity,
            description: self.description@,
        }
    }
}

/// A fresh request about a read or write.
pub open spec fn fresh_read_write_request(
    id: u64,
    sandbox: Seq<char>,
    attach_id: Option<u64>,
    operation: ReadWriteOperation,
    path: SandboxPath,
    requester: RequesterIdentity,
) -> ReadWriteRequestView {
    ReadWriteRequestView {
        id,
        sandbox,
        attach_id,
        operation,
        kind: operation.effect(),
        path,
        pid: requester.pid,
        uid: requester.uid,
        gid: requester.gid,
        process_identity: None,
        description: operation.body(),
    }
}

/// A fresh request about one effect of an operation.
pub open spec fn effect_request(
    id: u64,
    sandbox: Seq<char>,
    attach_id: Option<u64>,
    operation: ReadWriteOperation,
    effect: EffectView,
    requester: RequesterIdentity,
) -> ReadWriteRequestView {
    ReadWriteRequestView {
        kind: effect.kind,
        description: effect.description,
        ..fresh_read_write_request(id, sandbox, attach_id, operation, effect.path, requester)
    }
}

impl PendingReadWriteRequest {
    pub fn new(
        id: u64,
        sandbox: String,
        operation: ReadWriteOperation,
        pid: u32,
        uid: u32,
        gid: u32,
    ) -> (request: Self)
        ensures
            request@ == fresh_read_write_request(
                id,
                sandbox@,
                None,
                operation,
                operation.subject(),
                (RequesterIdentity { pid, uid, gid }),
            ),
    {
        let path = operation.path().clone();
        PendingReadWriteRequest::new_with_path(id, sandbox, operation, path, pid, uid, gid)
    }

    pub fn new_with_path(
        id: u64,
        sandbox: String,
        operation: ReadWriteOperation,
        path: SandboxPath,
        pid: u32,
        uid: u32,
        gid: u32,
    ) -> (request: Self)
        ensures
            request@ == fresh_read_write_request(
                id,
                sandbox@,
                None,
                operation,
                path,
                (RequesterIdentity { pid, uid, gid }),
            ),
    {
        PendingReadWriteRequest::new_with_attach_path(
            id,
            sandbox,
            None,
            operation,
            path,
            RequesterIdentity { pid, uid, gid },
        )
    }

    pub fn new_with_attach_path(
        id: u64,
        sandbox: String,
        attach_id: Option<u64>,
        operation: ReadWriteOperation,
        path: SandboxPath,
        requester: RequesterIdentity,
    ) -> (request: Self)
        ensures
            request@ == fresh_read_write_request(
                id,
                sandbox@,
                attach_id,
                operation,
                path,
                requester,
            ),
    {
        PendingReadWriteRequest {
            id,
            sandbox,
            attach_id,
            kind: operation.kind(),
            path,
            description: operation.description(),
            operation,
            pid: requester.pid,
            uid: requester.uid,
            gid: requester.gid,
            process_identity: None,
        }
    }

    /// A request about one effect of an operation.
    pub fn for_effect(
        id: u64,
        sandbox: String,
        attach_id: Option<u64>,
        operation: ReadWriteOperation,
        effect: Effect,
        requester: RequesterIdentity,
    ) -> (request: Self)
        ensures
            request@ == effect_request(id, sandbox@, attach_id, operation, effect@, requester),
    {
        PendingReadWriteRequest {
            id,
            sandbox,
            attach_id,
            operation,
            kind: effect.kind,
            path: effect.path,
            pid: requester.pid,
            uid: requester.uid,
            gid: requester.gid,
            process_identity: None,
            description: effect.description,
        }
    }

    pub fn with_process_identity(self, identity: Option<ProcessIdentityEvidence>) -> (request: Self)
        ensures
            request@ == (ReadWriteRequestView { process_identity: identity, ..self@ }),
    {
        let mut request = self;
        request.process_identity = identity;
        request
    }
}

impl Clone for PendingReadWriteRequest {
    fn clone(&self) -> (copy: Self)
        ensures
            copy@ == self@,
    {
        PendingReadWriteRequest {
            id: self.id,
            sandbox: self.sandbox.clone(),
            attach_id: self.attach_id,
            operation: self.operation.clone(),
            kind: self.kind,
            path: self.path.clone(),
            pid: self.pid,
            uid: self.uid,
            gid: self.gid,
            process_identity: self.process_identity,
            description: self.description.clone(),
        }
    }
}

/// A request of either sort.
#[derive(Debug)]
pub enum PendingRequest {
    Metadata(PendingMetadataRequest),
    ReadWrite(PendingReadWriteRequest),
}

/// What a pending request says.
#[verifier::ext_equal]
pub enum RequestView {
    Metadata(MetadataRequestView),
    ReadWrite(ReadWriteRequestView),
}

impl RequestView {
    pub open spec fn id(self) -> u64 {
        match self {
            RequestView::Metadata(request) => request.id,
            RequestView::ReadWrite(request) => request.id,
        }
    }

    pub open spec fn sandbox(self) -> Seq<char> {
        match self {
            RequestView::Metadata(request) => request.sandbox,
            RequestView::ReadWrite(request) => request.sandbox,
        }
    }

    pub open spec fn attach_id(self) -> Option<u64> {
        match self {
            RequestView::Metadata(request) => request.attach_id,
            RequestView::ReadWrite(request) => request.attach_id,
        }
    }

    pub open spec fn path(self) -> SandboxPath {
        match self {
            RequestView::Metadata(request) => request.operation.subject(),
            RequestView::ReadWrite(request) => request.path,
        }
    }

    pub open spec fn description(self) -> Seq<char> {
        match self {
            RequestView::Metadata(request) => request.description,
            RequestView::ReadWrite(request) => request.description,
        }
    }
}

impl View for PendingRequest {
    type V = RequestView;

    open spec fn view(&self) -> RequestView {
        match self {
            PendingRequest::Metadata(request) => RequestView::Metadata(request@),
            PendingRequest::ReadWrite(request) => RequestView::ReadWrite(request@),
        }
    }
}

impl Clone for PendingRequest {
    fn clone(&self) -> (copy: Self)
        ensures
            copy@ == self@,
    {
        match self {
            PendingRequest::Metadata(request) => PendingRequest::Metadata(request.clone()),
            PendingRequest::ReadWrite(request) => PendingRequest::ReadWrite(request.clone()),
        }
    }
}

impl PendingRequest {
    pub fn id(&self) -> (id: u64)
        ensures
            id == self@.id(),
    {
        match self {
            PendingRequest::Metadata(request) => request.id,
            PendingRequest::ReadWrite(request) => request.id,
        }
    }

    pub fn sandbox(&self) -> (name: &str)
        ensures
            name@ == self@.sandbox(),
    {
        match self {
            PendingRequest::Metadata(request) => request.sandbox.as_str(),
            PendingRequest::ReadWrite(request) => request.sandbox.as_str(),
        }
    }

    pub fn attach_id(&self) -> (attach_id: Option<u64>)
        ensures
            attach_id == self@.attach_id(),
    {
        match self {
            PendingRequest::Metadata(request) => request.attach_id,
            PendingRequest::ReadWrite(request) => request.attach_id,
        }
    }

    pub fn path(&self) -> (path: &SandboxPath)
        ensures
            *path == self@.path(),
    {
        match self {
            PendingRequest::Metadata(request) => request.operation.path(),
            PendingRequest::ReadWrite(request) => &request.path,
        }
    }

    pub fn description(&self) -> (text: &str)
        ensures
            text@ == self@.description(),
    {
        match self {
            PendingRequest::Metadata(request) => request.description.as_str(),
            PendingRequest::ReadWrite(request) => request.description.as_str(),
        }
    }

    /// The command that would make a pending change of metadata; there is none
    /// for a read or write.
    pub fn metadata_shell_hint(&self) -> (hint: Option<String>)
        ensures
            match hint {
                Some(text) => self@ matches RequestView::Metadata(request) && text@
                    == request.operation.hint(),
                None => self@ is ReadWrite,
            },
    {
        match self {
            PendingRequest::Metadata(request) => Some(request.operation.shell_hint()),
            PendingRequest::ReadWrite(_) => None,
        }
    }
}

} // verus!
