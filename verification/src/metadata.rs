//! Metadata overrides and the objects they belong to.

use vstd::prelude::*;

use crate::host;
use crate::operation;
use crate::operation::MetadataOperation;
use crate::operation::PendingOperationKind;
use crate::path::SandboxPath;
use crate::table;
use crate::table::TableKey;
use crate::time::Timestamp;

verus! {

/// The number that stands for no layer.
pub const NO_LAYER: u64 = 0;

/// An object of a mounted layer: the layer, and the path below its root.
#[derive(Debug)]
pub struct MetadataObjectKey {
    pub layer_id: u64,
    pub relative_path: String,
}

/// What an object key says: the layer, and the parts of the path below its
/// root.
#[verifier::ext_equal]
pub struct ObjectView {
    pub layer_id: u64,
    pub relative_path: Seq<Seq<char>>,
}

impl View for MetadataObjectKey {
    type V = ObjectView;

    open spec fn view(&self) -> ObjectView {
        ObjectView { layer_id: self.layer_id, relative_path: host::parts(self.relative_path@) }
    }
}

impl Clone for MetadataObjectKey {
    fn clone(&self) -> (copy: Self)
        ensures
            copy == *self,
    {
        MetadataObjectKey {
            layer_id: self.layer_id,
            relative_path: self.relative_path.clone(),
        }
    }
}

impl PartialEq for MetadataObjectKey {
    fn eq(&self, other: &Self) -> (same: bool) {
        table::same_key(self, other)
    }
}

impl vstd::std_specs::cmp::PartialEqSpecImpl for MetadataObjectKey {
    open spec fn obeys_eq_spec() -> bool {
        true
    }

    open spec fn eq_spec(&self, other: &Self) -> bool {
        self@ == other@
    }
}

impl Eq for MetadataObjectKey {
}

/// Objects are ordered by layer, then by path.
impl TableKey for MetadataObjectKey {
    type Key = ObjectView;

    open spec fn key(&self) -> ObjectView {
        self@
    }

    open spec fn code(key: ObjectView) -> Seq<int> {
        seq![key.layer_id as int] + host::parts_code(key.relative_path)
    }

    proof fn lemma_code_injective(a: ObjectView, b: ObjectView) {
        let x = Self::code(a);
        let y = Self::code(b);
        assert(x[0] == y[0]);
        assert(x.skip(1) =~= host::parts_code(a.relative_path));
        assert(y.skip(1) =~= host::parts_code(b.relative_path));
        host::lemma_parts_code_injective(a.relative_path, b.relative_path);
    }

    fn code_of(&self) -> (code: Vec<u64>) {
        let mut code: Vec<u64> = Vec::new();
        code.push(self.layer_id);
        host::push_path_code(&mut code, self.relative_path.as_str());
        assert(table::numbers(code@) =~= Self::code(self.key()));
        code
    }
}

/// The metadata that a sandbox shows in place of an object's own.
#[derive(Clone, Copy, Debug, PartialEq, Eq, Structural)]
pub struct MetadataOverride {
    pub mode: Option<u16>,
    pub uid: Option<u32>,
    pub gid: Option<u32>,
    pub flags: Option<u32>,
    pub atime: Option<Timestamp>,
    pub mtime: Option<Timestamp>,
}

/// `new` where there is one, else `old_value`.
pub open spec fn newer<T>(new: Option<T>, old_value: Option<T>) -> Option<T> {
    if new is Some {
        new
    } else {
        old_value
    }
}

impl MetadataOverride {
    /// The override that changes nothing.
    pub open spec fn nothing() -> Self {
        MetadataOverride { mode: None, uid: None, gid: None, flags: None, atime: None, mtime: None }
    }

    /// The override after an operation: what the operation sets replaces what
    /// stood there, the rest stays.
    pub open spec fn after(self, operation: MetadataOperation) -> Self {
        match operation {
            MetadataOperation::Chmod { mode, .. } => MetadataOverride { mode: Some(mode), ..self },
            MetadataOperation::Chown { uid, gid, .. } => MetadataOverride {
                uid: newer(uid, self.uid),
                gid: newer(gid, self.gid),
                ..self
            },
            MetadataOperation::Chattr { flags, .. } => MetadataOverride {
                flags: Some(flags),
                ..self
            },
            MetadataOperation::SetAttr { mode, uid, gid, flags, atime, mtime, .. } => MetadataOverride {
                mode: newer(mode, self.mode),
                uid: newer(uid, self.uid),
                gid: newer(gid, self.gid),
                flags: newer(flags, self.flags),
                atime: newer(atime, self.atime),
                mtime: newer(mtime, self.mtime),
            },
            MetadataOperation::SetXattr { .. } => self,
            MetadataOperation::RemoveXattr { .. } => self,
        }
    }

    /// Whether the override changes nothing.
    pub fn is_empty(&self) -> (empty: bool)
        ensures
            empty == (*self == MetadataOverride::nothing()),
    {
        self.mode.is_none() && self.uid.is_none() && self.gid.is_none() && self.flags.is_none()
            && self.atime.is_none() && self.mtime.is_none()
    }

    /// Adds what an operation sets.
    pub fn apply(&mut self, operation: &MetadataOperation)
        ensures
            *final(self) == old(self).after(*operation),
    {
        match operation {
            MetadataOperation::Chmod { mode, .. } => {
                self.mode = Some(*mode);
            },
            MetadataOperation::Chown { uid, gid, .. } => {
                if let Some(uid) = uid {
                    self.uid = Some(*uid);
                }
                if let Some(gid) = gid {
                    self.gid = Some(*gid);
                }
            },
            MetadataOperation::Chattr { flags, .. } => {
                self.flags = Some(*flags);
            },
            MetadataOperation::SetXattr { .. } => {},
            MetadataOperation::RemoveXattr { .. } => {},
            MetadataOperation::SetAttr { mode, uid, gid, flags, atime, mtime, .. } => {
                if let Some(mode) = mode {
                    self.mode = Some(*mode);
                }
                if let Some(uid) = uid {
                    self.uid = Some(*uid);
                }
                if let Some(gid) = gid {
                    self.gid = Some(*gid);
                }
                if let Some(flags) = flags {
                    self.flags = Some(*flags);
                }
                if let Some(atime) = atime {
                    self.atime = Some(*atime);
                }
                if let Some(mtime) = mtime {
                    self.mtime = Some(*mtime);
                }
            },
        }
    }
}

impl Default for MetadataOverride {
    fn default() -> (value: Self)
        ensures
            value == MetadataOverride::nothing(),
    {
        MetadataOverride { mode: None, uid: None, gid: None, flags: None, atime: None, mtime: None }
    }
}

/// Applying an operation twice is applying it once.
pub proof fn lemma_override_idempotent(before: MetadataOverride, operation: MetadataOperation)
    ensures
        before.after(operation).after(operation) == before.after(operation),
{
}

/// Operations that set no common part can be applied in either order.
pub proof fn lemma_disjoint_overrides_commute(
    before: MetadataOverride,
    a: MetadataOperation,
    b: MetadataOperation,
)
    requires
        forall|kind: PendingOperationKind| !(#[trigger] a.parts().contains(kind) && b.parts().contains(kind)),
    ensures
        before.after(a).after(b) == before.after(b).after(a),
{
    lemma_parts(a);
    lemma_parts(b);
    assert(!(a.parts().contains(PendingOperationKind::Mode) && b.parts().contains(
        PendingOperationKind::Mode,
    )));
    assert(!(a.parts().contains(PendingOperationKind::Uid) && b.parts().contains(
        PendingOperationKind::Uid,
    )));
    assert(!(a.parts().contains(PendingOperationKind::Gid) && b.parts().contains(
        PendingOperationKind::Gid,
    )));
    assert(!(a.parts().contains(PendingOperationKind::Flags) && b.parts().contains(
        PendingOperationKind::Flags,
    )));
    assert(!(a.parts().contains(PendingOperationKind::Times) && b.parts().contains(
        PendingOperationKind::Times,
    )));
}

proof fn lemma_concat_contains<T>(a: Seq<T>, b: Seq<T>, x: T)
    ensures
        a.contains(x) ==> (a + b).contains(x),
        b.contains(x) ==> (a + b).contains(x),
{
    if a.contains(x) {
        let i = choose|i: int| 0 <= i < a.len() && a[i] == x;
        assert((a + b)[i] == x);
    }
    if b.contains(x) {
        let i = choose|i: int| 0 <= i < b.len() && b[i] == x;
        assert((a + b)[a.len() + i] == x);
    }
}

proof fn lemma_five_contain<T>(a: Seq<T>, b: Seq<T>, c: Seq<T>, d: Seq<T>, e: Seq<T>, x: T)
    ensures
        a.contains(x) || b.contains(x) || c.contains(x) || d.contains(x) || e.contains(x) ==> (a + b
            + c + d + e).contains(x),
{
    lemma_concat_contains(a, b, x);
    lemma_concat_contains(a + b, c, x);
    lemma_concat_contains(a + b + c, d, x);
    lemma_concat_contains(a + b + c + d, e, x);
}

proof fn lemma_when_contains<T>(condition: bool, element: T)
    ensures
        condition ==> operation::when(condition, element).contains(element),
{
    if condition {
        assert(operation::when(condition, element)[0] == element);
    }
}

/// An operation leaves the fields of the parts that it does not list.
proof fn lemma_parts(a: MetadataOperation)
    ensures
        forall|o: MetadataOverride|
            #![trigger o.after(a)]
            {
                &&& a.parts().contains(PendingOperationKind::Mode) || o.after(a).mode == o.mode
                &&& a.parts().contains(PendingOperationKind::Uid) || o.after(a).uid == o.uid
                &&& a.parts().contains(PendingOperationKind::Gid) || o.after(a).gid == o.gid
                &&& a.parts().contains(PendingOperationKind::Flags) || o.after(a).flags == o.flags
                &&& a.parts().contains(PendingOperationKind::Times) || (o.after(a).atime == o.atime
                    && o.after(a).mtime == o.mtime)
            },
{
    let parts = a.parts();
    match a {
        MetadataOperation::Chmod { .. } => {
            assert(parts[0] == PendingOperationKind::Mode);
        },
        MetadataOperation::Chown { uid, gid, .. } => {
            let u = operation::when(uid is Some, PendingOperationKind::Uid);
            let g = operation::when(gid is Some, PendingOperationKind::Gid);
            lemma_when_contains(uid is Some, PendingOperationKind::Uid);
            lemma_when_contains(gid is Some, PendingOperationKind::Gid);
            lemma_concat_contains(u, g, PendingOperationKind::Uid);
            lemma_concat_contains(u, g, PendingOperationKind::Gid);
        },
        MetadataOperation::Chattr { .. } => {
            assert(parts[0] == PendingOperationKind::Flags);
        },
        MetadataOperation::SetAttr { mode, uid, gid, flags, atime, mtime, .. } => {
            let m = operation::when(mode is Some, PendingOperationKind::Mode);
            let u = operation::when(uid is Some, PendingOperationKind::Uid);
            let g = operation::when(gid is Some, PendingOperationKind::Gid);
            let f = operation::when(flags is Some, PendingOperationKind::Flags);
            let t = operation::when(atime is Some || mtime is Some, PendingOperationKind::Times);
            lemma_when_contains(mode is Some, PendingOperationKind::Mode);
            lemma_when_contains(uid is Some, PendingOperationKind::Uid);
            lemma_when_contains(gid is Some, PendingOperationKind::Gid);
            lemma_when_contains(flags is Some, PendingOperationKind::Flags);
            lemma_when_contains(atime is Some || mtime is Some, PendingOperationKind::Times);
            lemma_five_contain(m, u, g, f, t, PendingOperationKind::Mode);
            lemma_five_contain(m, u, g, f, t, PendingOperationKind::Uid);
            lemma_five_contain(m, u, g, f, t, PendingOperationKind::Gid);
            lemma_five_contain(m, u, g, f, t, PendingOperationKind::Flags);
            lemma_five_contain(m, u, g, f, t, PendingOperationKind::Times);
        },
        _ => {},
    }
}

/// An override with the path it was last set through.
#[derive(Debug)]
pub struct MetadataEntry {
    pub sandbox_path: SandboxPath,
    pub override_: MetadataOverride,
}

/// The part of an object's metadata that a pending request claims.
#[derive(Debug)]
pub struct PendingOperationKey {
    pub sandbox: String,
    pub object: MetadataObjectKey,
    pub kind: PendingOperationKind,
}

/// What a pending key says.
#[verifier::ext_equal]
pub struct PendingKeyView {
    pub sandbox: Seq<char>,
    pub object: ObjectView,
    pub kind: PendingOperationKind,
}

impl View for PendingOperationKey {
    type V = PendingKeyView;

    open spec fn view(&self) -> PendingKeyView {
        PendingKeyView { sandbox: self.sandbox@, object: self.object@, kind: self.kind }
    }
}

/// The place of a part among the parts.
pub open spec fn part_rank(kind: PendingOperationKind) -> int {
    match kind {
        PendingOperationKind::Mode => 0,
        PendingOperationKind::Uid => 1,
        PendingOperationKind::Gid => 2,
        PendingOperationKind::Flags => 3,
        PendingOperationKind::Times => 4,
        PendingOperationKind::Xattr => 5,
    }
}

impl TableKey for PendingOperationKey {
    type Key = PendingKeyView;

    open spec fn key(&self) -> PendingKeyView {
        self@
    }

    open spec fn code(key: PendingKeyView) -> Seq<int> {
        table::text_code(key.sandbox) + seq![0, key.object.layer_id as int] + host::parts_code(
            key.object.relative_path,
        ) + seq![part_rank(key.kind)]
    }

    proof fn lemma_code_injective(a: PendingKeyView, b: PendingKeyView) {
        let x = Self::code(a);
        let y = Self::code(b);
        let n = a.sandbox.len() as int;
        let m = b.sandbox.len() as int;
        assert(x.take(n) =~= table::text_code(a.sandbox));
        assert(y.take(m) =~= table::text_code(b.sandbox));
        lemma_zero_ends_text(x, a.sandbox);
        lemma_zero_ends_text(y, b.sandbox);
        assert(x[n] == 0);
        assert(y[m] == 0);
        assert(n == m) by {
            if n < m {
                assert(y[n] > 0);
            }
            if m < n {
                assert(x[m] > 0);
            }
        }
        assert(x.take(n) =~= table::text_code(a.sandbox));
        assert(y.take(n) =~= table::text_code(b.sandbox));
        table::lemma_text_code_injective(a.sandbox, b.sandbox);
        assert(x[n + 1] == y[n + 1]);
        let left = host::parts_code(a.object.relative_path);
        let right = host::parts_code(b.object.relative_path);
        let k = left.len() as int;
        assert(x.len() == n + k + 3);
        assert(y.len() == n + right.len() + 3);
        assert(x.subrange(n + 2, n + 2 + k) =~= left);
        assert(y.subrange(n + 2, n + 2 + k) =~= right);
        host::lemma_parts_code_injective(a.object.relative_path, b.object.relative_path);
        assert(x[n + k + 2] == y[n + k + 2]);
        assert(a =~= b);
    }

    fn code_of(&self) -> (code: Vec<u64>) {
        let mut code: Vec<u64> = Vec::new();
        table::push_text_code(&mut code, self.sandbox.as_str());
        code.push(0);
        code.push(self.object.layer_id);
        assert(table::numbers(code@) =~= table::text_code(self.sandbox@) + seq![
            0,
            self.object.layer_id as int,
        ]);
        host::push_path_code(&mut code, self.object.relative_path.as_str());
        let ghost front = code@;
        match self.kind {
            PendingOperationKind::Mode => code.push(0),
            PendingOperationKind::Uid => code.push(1),
            PendingOperationKind::Gid => code.push(2),
            PendingOperationKind::Flags => code.push(3),
            PendingOperationKind::Times => code.push(4),
            PendingOperationKind::Xattr => code.push(5),
        }
        assert(table::numbers(code@) =~= table::numbers(front) + seq![part_rank(self.kind)]);
        assert(table::numbers(code@) =~= Self::code(self.key()));
        code
    }
}

proof fn lemma_zero_ends_text(code: Seq<int>, text: Seq<char>)
    requires
        code.len() > text.len(),
        code.take(text.len() as int) == table::text_code(text),
    ensures
        forall|i: int| 0 <= i < text.len() ==> #[trigger] code[i] > 0,
{
    assert forall|i: int| 0 <= i < text.len() implies #[trigger] code[i] > 0 by {
        assert(code.take(text.len() as int)[i] == code[i]);
        assert(table::text_code(text)[i] == text[i] as int + 1);
        crate::text::lemma_char_range(text[i]);
    }
}

} // verus!
