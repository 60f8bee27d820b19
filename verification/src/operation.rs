//! The filesystem operations that sandboxed programs ask for.

use vstd::prelude::*;

use crate::path::SandboxPath;
use crate::policy::ProtectionKind;
use crate::text;
use crate::time::Timestamp;

verus! {

broadcast use vstd::string::group_string_axioms;

/// An operation that reads or writes file contents or directory entries.
#[derive(Debug)]
pub enum ReadWriteOperation {
    ReadFile { path: SandboxPath },
    ReadDirectory { path: SandboxPath },
    OpenWrite { path: SandboxPath },
    WriteFile { path: SandboxPath },
    Truncate { path: SandboxPath },
    Create { path: SandboxPath },
    Mkdir { path: SandboxPath },
    Mknod { path: SandboxPath },
    Symlink { path: SandboxPath },
    Link { from: SandboxPath, to: SandboxPath },
    Unlink { path: SandboxPath },
    Rmdir { path: SandboxPath },
    Rename { from: SandboxPath, to: SandboxPath },
    GetXattr { path: SandboxPath, name: String },
    ListXattr { path: SandboxPath },
    SetXattr { path: SandboxPath, name: String },
    RemoveXattr { path: SandboxPath, name: String },
}

/// One thing that an operation does: an effect of a kind on a path.
#[derive(Debug)]
pub struct Effect {
    pub kind: ProtectionKind,
    pub path: SandboxPath,
    pub description: String,
}

/// What an effect says.
#[verifier::ext_equal]
pub struct EffectView {
    pub kind: ProtectionKind,
    pub path: SandboxPath,
    pub description: Seq<char>,
}

impl View for Effect {
    type V = EffectView;

    open spec fn view(&self) -> EffectView {
        EffectView { kind: self.kind, path: self.path, description: self.description@ }
    }
}

impl Clone for Effect {
    fn clone(&self) -> (copy: Self)
        ensures
            copy@ == self@,
    {
        Effect {
            kind: self.kind,
            path: self.path.clone(),
            description: self.description.clone(),
        }
    }
}

/// What the effects of a list say.
pub open spec fn effect_views(effects: Seq<Effect>) -> Seq<EffectView> {
    effects.map_values(|effect: Effect| effect@)
}

/// How the metadata side of a new size reads in a log line.
pub open spec fn truncate_metadata_body(path: SandboxPath) -> Seq<char> {
    "path="@ + path.text() + " METADATA truncate"@
}

/// How the side of a hard link on the linked file reads in a log line.
pub open spec fn link_metadata_body(from: SandboxPath, to: SandboxPath) -> Seq<char> {
    "path="@ + from.text() + " METADATA link to="@ + to.text()
}

/// How the side of a hard link on the new name reads in a log line.
pub open spec fn link_write_body(from: SandboxPath, to: SandboxPath) -> Seq<char> {
    "path="@ + to.text() + " WRITE link from="@ + from.text()
}

impl ReadWriteOperation {
    /// The effect that the operation has first of all.
    pub open spec fn effect(self) -> ProtectionKind {
        match self {
            ReadWriteOperation::ReadFile { .. } => ProtectionKind::Read,
            ReadWriteOperation::ReadDirectory { .. } => ProtectionKind::Read,
            ReadWriteOperation::GetXattr { .. } => ProtectionKind::Read,
            ReadWriteOperation::ListXattr { .. } => ProtectionKind::Read,
            _ => ProtectionKind::Write,
        }
    }

    /// The path that the operation is about first.
    pub open spec fn subject(self) -> SandboxPath {
        match self {
            ReadWriteOperation::ReadFile { path } => path,
            ReadWriteOperation::ReadDirectory { path } => path,
            ReadWriteOperation::OpenWrite { path } => path,
            ReadWriteOperation::WriteFile { path } => path,
            ReadWriteOperation::Truncate { path } => path,
            ReadWriteOperation::Create { path } => path,
            ReadWriteOperation::Mkdir { path } => path,
            ReadWriteOperation::Mknod { path } => path,
            ReadWriteOperation::Symlink { path } => path,
            ReadWriteOperation::Link { from, .. } => from,
            ReadWriteOperation::Unlink { path } => path,
            ReadWriteOperation::Rmdir { path } => path,
            ReadWriteOperation::Rename { from, .. } => from,
            ReadWriteOperation::GetXattr { path, .. } => path,
            ReadWriteOperation::ListXattr { path } => path,
            ReadWriteOperation::SetXattr { path, .. } => path,
            ReadWriteOperation::RemoveXattr { path, .. } => path,
        }
    }

    /// Whether the operation is about extended attributes.
    pub open spec fn is_about_xattrs(self) -> bool {
        self is GetXattr || self is ListXattr || self is SetXattr || self is RemoveXattr
    }

    /// The paths whose protection decides about the operation.
    pub open spec fn subjects(self) -> Seq<SandboxPath> {
        match self {
            ReadWriteOperation::Link { from, to } => seq![from, to],
            ReadWriteOperation::Rename { from, to } => seq![from, to],
            _ => seq![self.subject()],
        }
    }

    /// How the operation reads in a log line.
    pub open spec fn body(self) -> Seq<char> {
        let p = "path="@ + self.subject().text();
        match self {
            ReadWriteOperation::ReadFile { .. } => p + " READ file"@,
            ReadWriteOperation::ReadDirectory { .. } => p + " READ directory"@,
            ReadWriteOperation::OpenWrite { .. } => p + " WRITE open"@,
            ReadWriteOperation::WriteFile { .. } => p + " WRITE data"@,
            ReadWriteOperation::Truncate { .. } => p + " WRITE truncate"@,
            ReadWriteOperation::Create { .. } => p + " WRITE create"@,
            ReadWriteOperation::Mkdir { .. } => p + " WRITE mkdir"@,
            ReadWriteOperation::Mknod { .. } => p + " WRITE mknod"@,
            ReadWriteOperation::Symlink { .. } => p + " WRITE symlink"@,
            ReadWriteOperation::Link { to, .. } => p + " WRITE link to="@ + to.text(),
            ReadWriteOperation::Unlink { .. } => p + " WRITE unlink"@,
            ReadWriteOperation::Rmdir { .. } => p + " WRITE rmdir"@,
            ReadWriteOperation::Rename { to, .. } => p + " WRITE rename to="@ + to.text(),
            ReadWriteOperation::GetXattr { name, .. } => p + " GETXATTR name="@ + name@,
            ReadWriteOperation::ListXattr { .. } => p + " LISTXATTR"@,
            ReadWriteOperation::SetXattr { name, .. } => p + " SETXATTR name="@ + name@,
            ReadWriteOperation::RemoveXattr { name, .. } => p + " REMOVEXATTR name="@ + name@,
        }
    }

    /// The effect of a kind on the path of the operation.
    pub open spec fn effect_of(self, kind: ProtectionKind, path: SandboxPath) -> EffectView {
        EffectView { kind, path, description: self.body() }
    }

    /// Everything that the operation does. A new size changes the metadata of
    /// the file too, a hard link changes that of the linked file, and extended
    /// attributes are data, metadata when they change, and a kind of their own.
    pub open spec fn effects(self) -> Seq<EffectView> {
        let path = self.subject();
        match self {
            ReadWriteOperation::Truncate { .. } => seq![
                self.effect_of(ProtectionKind::Write, path),
                EffectView {
                    kind: ProtectionKind::Metadata,
                    path,
                    description: truncate_metadata_body(path),
                },
            ],
            ReadWriteOperation::Link { from, to } => seq![
                EffectView {
                    kind: ProtectionKind::Metadata,
                    path: from,
                    description: link_metadata_body(from, to),
                },
                EffectView {
                    kind: ProtectionKind::Write,
                    path: to,
                    description: link_write_body(from, to),
                },
            ],
            ReadWriteOperation::Rename { from, to } => seq![
                self.effect_of(ProtectionKind::Write, from),
                self.effect_of(ProtectionKind::Write, to),
            ],
            ReadWriteOperation::GetXattr { .. } | ReadWriteOperation::ListXattr { .. } => seq![
                self.effect_of(ProtectionKind::Read, path),
                self.effect_of(ProtectionKind::Xattr, path),
            ],
            ReadWriteOperation::SetXattr { .. } | ReadWriteOperation::RemoveXattr { .. } => seq![
                self.effect_of(ProtectionKind::Write, path),
                self.effect_of(ProtectionKind::Metadata, path),
                self.effect_of(ProtectionKind::Xattr, path),
            ],
            _ => seq![self.effect_of(self.effect(), path)],
        }
    }

    pub fn kind(&self) -> (kind: ProtectionKind)
        ensures
            kind == self.effect(),
    {
        match self {
            ReadWriteOperation::ReadFile { .. } => ProtectionKind::Read,
            ReadWriteOperation::ReadDirectory { .. } => ProtectionKind::Read,
            ReadWriteOperation::GetXattr { .. } => ProtectionKind::Read,
            ReadWriteOperation::ListXattr { .. } => ProtectionKind::Read,
            _ => ProtectionKind::Write,
        }
    }

    /// Whether the operation is about extended attributes.
    pub fn concerns_xattrs(&self) -> (result: bool)
        ensures
            result == self.is_about_xattrs(),
    {
        match self {
            ReadWriteOperation::GetXattr { .. } => true,
            ReadWriteOperation::ListXattr { .. } => true,
            ReadWriteOperation::SetXattr { .. } => true,
            ReadWriteOperation::RemoveXattr { .. } => true,
            _ => false,
        }
    }

    pub fn path(&self) -> (path: &SandboxPath)
        ensures
            *path == self.subject(),
    {
        match self {
            ReadWriteOperation::ReadFile { path } => path,
            ReadWriteOperation::ReadDirectory { path } => path,
            ReadWriteOperation::OpenWrite { path } => path,
            ReadWriteOperation::WriteFile { path } => path,
            ReadWriteOperation::Truncate { path } => path,
            ReadWriteOperation::Create { path } => path,
            ReadWriteOperation::Mkdir { path } => path,
            ReadWriteOperation::Mknod { path } => path,
            ReadWriteOperation::Symlink { path } => path,
            ReadWriteOperation::Link { from, .. } => from,
            ReadWriteOperation::Unlink { path } => path,
            ReadWriteOperation::Rmdir { path } => path,
            ReadWriteOperation::Rename { from, .. } => from,
            ReadWriteOperation::GetXattr { path, .. } => path,
            ReadWriteOperation::ListXattr { path } => path,
            ReadWriteOperation::SetXattr { path, .. } => path,
            ReadWriteOperation::RemoveXattr { path, .. } => path,
        }
    }

    pub fn protection_paths(&self) -> (paths: Vec<&SandboxPath>)
        ensures
            paths.len() == self.subjects().len(),
            forall|i: int| 0 <= i < paths.len() ==> *(#[trigger] paths@[i]) == self.subjects()[i],
    {
        let mut paths: Vec<&SandboxPath> = Vec::new();
        match self {
            ReadWriteOperation::Link { from, to } => {
                paths.push(from);
                paths.push(to);
            },
            ReadWriteOperation::Rename { from, to } => {
                paths.push(from);
                paths.push(to);
            },
            _ => {
                paths.push(self.path());
            },
        }
        paths
    }

    pub fn description(&self) -> (text: String)
        ensures
            text@ == self.body(),
    {
        self.event_body()
    }

    pub fn event_body(&self) -> (text: String)
        ensures
            text@ == self.body(),
    {
        let mut text = "path=".to_owned();
        text.append(self.path().as_str());
        match self {
            ReadWriteOperation::ReadFile { .. } => text.append(" READ file"),
            ReadWriteOperation::ReadDirectory { .. } => text.append(" READ directory"),
            ReadWriteOperation::OpenWrite { .. } => text.append(" WRITE open"),
            ReadWriteOperation::WriteFile { .. } => text.append(" WRITE data"),
            ReadWriteOperation::Truncate { .. } => text.append(" WRITE truncate"),
            ReadWriteOperation::Create { .. } => text.append(" WRITE create"),
            ReadWriteOperation::Mkdir { .. } => text.append(" WRITE mkdir"),
            ReadWriteOperation::Mknod { .. } => text.append(" WRITE mknod"),
            ReadWriteOperation::Symlink { .. } => text.append(" WRITE symlink"),
            ReadWriteOperation::Link { to, .. } => {
                text.append(" WRITE link to=");
                text.append(to.as_str());
            },
            ReadWriteOperation::Unlink { .. } => text.append(" WRITE unlink"),
            ReadWriteOperation::Rmdir { .. } => text.append(" WRITE rmdir"),
            ReadWriteOperation::Rename { to, .. } => {
                text.append(" WRITE rename to=");
                text.append(to.as_str());
            },
            ReadWriteOperation::GetXattr { name, .. } => {
                text.append(" GETXATTR name=");
                text.append(name.as_str());
            },
            ReadWriteOperation::ListXattr { .. } => text.append(" LISTXATTR"),
            ReadWriteOperation::SetXattr { name, .. } => {
                text.append(" SETXATTR name=");
                text.append(name.as_str());
            },
            ReadWriteOperation::RemoveXattr { name, .. } => {
                text.append(" REMOVEXATTR name=");
                text.append(name.as_str());
            },
        }
        text
    }

    fn own_effect(&self, kind: ProtectionKind, path: &SandboxPath) -> (effect: Effect)
        ensures
            effect@ == self.effect_of(kind, *path),
    {
        Effect { kind, path: path.clone(), description: self.event_body() }
    }

    /// Everything that the operation does.
    pub fn list_effects(&self) -> (effects: Vec<Effect>)
        ensures
            effect_views(effects@) == self.effects(),
    {
        let path = self.path();
        let mut effects: Vec<Effect> = Vec::new();
        match self {
            ReadWriteOperation::Truncate { .. } => {
                let mut body = "path=".to_owned();
                body.append(path.as_str());
                body.append(" METADATA truncate");
                effects.push(self.own_effect(ProtectionKind::Write, path));
                effects.push(
                    Effect {
                        kind: ProtectionKind::Metadata,
                        path: path.clone(),
                        description: body,
                    },
                );
            },
            ReadWriteOperation::Link { from, to } => {
                let mut source = "path=".to_owned();
                source.append(from.as_str());
                source.append(" METADATA link to=");
                source.append(to.as_str());
                let mut target = "path=".to_owned();
                target.append(to.as_str());
                target.append(" WRITE link from=");
                target.append(from.as_str());
                effects.push(
                    Effect {
                        kind: ProtectionKind::Metadata,
                        path: from.clone(),
                        description: source,
                    },
                );
                effects.push(
                    Effect { kind: ProtectionKind::Write, path: to.clone(), description: target },
                );
            },
            ReadWriteOperation::Rename { from, to } => {
                effects.push(self.own_effect(ProtectionKind::Write, from));
                effects.push(self.own_effect(ProtectionKind::Write, to));
            },
            ReadWriteOperation::GetXattr { .. } | ReadWriteOperation::ListXattr { .. } => {
                effects.push(self.own_effect(ProtectionKind::Read, path));
                effects.push(self.own_effect(ProtectionKind::Xattr, path));
            },
            ReadWriteOperation::SetXattr { .. } | ReadWriteOperation::RemoveXattr { .. } => {
                effects.push(self.own_effect(ProtectionKind::Write, path));
                effects.push(self.own_effect(ProtectionKind::Metadata, path));
                effects.push(self.own_effect(ProtectionKind::Xattr, path));
            },
            _ => {
                effects.push(self.own_effect(self.kind(), path));
            },
        }
        assert(effect_views(effects@) =~= self.effects());
        effects
    }
}

impl Clone for ReadWriteOperation {
    fn clone(&self) -> (copy: Self)
        ensures
            copy == *self,
    {
        match self {
            ReadWriteOperation::ReadFile { path } => ReadWriteOperation::ReadFile {
                path: path.clone(),
            },
            ReadWriteOperation::ReadDirectory { path } => ReadWriteOperation::ReadDirectory {
                path: path.clone(),
            },
            ReadWriteOperation::OpenWrite { path } => ReadWriteOperation::OpenWrite {
                path: path.clone(),
            },
            ReadWriteOperation::WriteFile { path } => ReadWriteOperation::WriteFile {
                path: path.clone(),
            },
            ReadWriteOperation::Truncate { path } => ReadWriteOperation::Truncate {
                path: path.clone(),
            },
            ReadWriteOperation::Create { path } => ReadWriteOperation::Create {
                path: path.clone(),
            },
            ReadWriteOperation::Mkdir { path } => ReadWriteOperation::Mkdir { path: path.clone() },
            ReadWriteOperation::Mknod { path } => ReadWriteOperation::Mknod { path: path.clone() },
            ReadWriteOperation::Symlink { path } => ReadWriteOperation::Symlink {
                path: path.clone(),
            },
            ReadWriteOperation::Link { from, to } => ReadWriteOperation::Link {
                from: from.clone(),
                to: to.clone(),
            },
            ReadWriteOperation::Unlink { path } => ReadWriteOperation::Unlink {
                path: path.clone(),
            },
            ReadWriteOperation::Rmdir { path } => ReadWriteOperation::Rmdir { path: path.clone() },
            ReadWriteOperation::Rename { from, to } => ReadWriteOperation::Rename {
                from: from.clone(),
                to: to.clone(),
            },
            ReadWriteOperation::GetXattr { path, name } => ReadWriteOperation::GetXattr {
                path: path.clone(),
                name: name.clone(),
            },
            ReadWriteOperation::ListXattr { path } => ReadWriteOperation::ListXattr {
                path: path.clone(),
            },
            ReadWriteOperation::SetXattr { path, name } => ReadWriteOperation::SetXattr {
                path: path.clone(),
                name: name.clone(),
            },
            ReadWriteOperation::RemoveXattr { path, name } => ReadWriteOperation::RemoveXattr {
                path: path.clone(),
                name: name.clone(),
            },
        }
    }
}

/// A part of an object's metadata that one pending request can claim.
#[derive(Clone, Copy, Debug, PartialEq, Eq, PartialOrd, Ord, Hash, Structural)]
pub enum PendingOperationKind {
    Mode,
    Uid,
    Gid,
    Flags,
    Times,
    Xattr,
}

/// An operation that changes metadata.
#[allow(inconsistent_fields)]
#[derive(Debug)]
pub enum MetadataOperation {
    Chmod { path: SandboxPath, mode: u16 },
    Chown { path: SandboxPath, uid: Option<u32>, gid: Option<u32> },
    Chattr { path: SandboxPath, flags: u32 },
    SetAttr {
        path: SandboxPath,
        mode: Option<u16>,
        uid: Option<u32>,
        gid: Option<u32>,
        flags: Option<u32>,
        atime: Option<Timestamp>,
        mtime: Option<Timestamp>,
    },
    SetXattr { path: SandboxPath, name: String },
    RemoveXattr { path: SandboxPath, name: String },
}

/// The element where the condition holds, nothing otherwise.
pub open spec fn when<T>(condition: bool, element: T) -> Seq<T> {
    if condition {
        seq![element]
    } else {
        Seq::empty()
    }
}

/// The mode as four octal digits or more.
pub open spec fn mode_text(mode: u16) -> Seq<char> {
    text::zero_padded(text::octal(mode as nat), 4)
}

/// The fields that a metadata change sets, as a log line lists them.
pub open spec fn setattr_fields(
    mode: Option<u16>,
    uid: Option<u32>,
    gid: Option<u32>,
    flags: Option<u32>,
    atime: Option<Timestamp>,
    mtime: Option<Timestamp>,
) -> Seq<Seq<char>> {
    when(mode is Some, "mode="@ + mode_text(mode->0)) + when(
        uid is Some,
        "uid="@ + text::decimal(uid->0 as nat),
    ) + when(gid is Some, "gid="@ + text::decimal(gid->0 as nat)) + when(
        flags is Some,
        "flags=0x"@ + text::hexadecimal(flags->0 as nat),
    ) + when(atime is Some, "atime=<set>"@) + when(mtime is Some, "mtime=<set>"@)
}

/// How a change of attributes reads in a log line.
pub open spec fn setattr_body(path: SandboxPath, fields: Seq<Seq<char>>) -> Seq<char> {
    let shown = if fields.len() == 0 {
        seq!["unchanged"@]
    } else {
        fields
    };
    "path="@ + path.text() + " SETATTR "@ + text::joined(shown, " "@)
}

/// The command that changes an owner.
pub open spec fn chown_hint(path: SandboxPath, uid: Option<u32>, gid: Option<u32>) -> Seq<char> {
    match (uid, gid) {
        (Some(uid), Some(gid)) => "chown "@ + text::decimal(uid as nat) + ":"@ + text::decimal(
            gid as nat,
        ) + " "@ + path.text(),
        (Some(uid), None) => "chown "@ + text::decimal(uid as nat) + " "@ + path.text(),
        (None, Some(gid)) => "chown :"@ + text::decimal(gid as nat) + " "@ + path.text(),
        (None, None) => "chown unchanged "@ + path.text(),
    }
}

/// The command that changes a mode.
pub open spec fn chmod_hint(path: SandboxPath, mode: u16) -> Seq<char> {
    "chmod "@ + text::octal(mode as nat) + " "@ + path.text()
}

/// The command that changes inode flags.
pub open spec fn chattr_hint(path: SandboxPath, flags: u32) -> Seq<char> {
    "chattr flags=0x"@ + text::hexadecimal(flags as nat) + " "@ + path.text()
}

fn format_setattr_body(
    path: &SandboxPath,
    mode: Option<u16>,
    uid: Option<u32>,
    gid: Option<u32>,
    flags: Option<u32>,
    atime: Option<Timestamp>,
    mtime: Option<Timestamp>,
) -> (text: String)
    ensures
        text@ == setattr_body(*path, setattr_fields(mode, uid, gid, flags, atime, mtime)),
{
    let mut fields: Vec<String> = Vec::new();
    if let Some(mode) = mode {
        let mut field = "mode=".to_owned();
        field.append(mode_of(mode).as_str());
        fields.push(field);
    }
    assert(text::texts(fields@) =~= when(mode is Some, "mode="@ + mode_text(mode->0)));
    if let Some(uid) = uid {
        let mut field = "uid=".to_owned();
        field.append(text::decimal_of(uid as u64).as_str());
        fields.push(field);
    }
    assert(text::texts(fields@) =~= when(mode is Some, "mode="@ + mode_text(mode->0)) + when(
        uid is Some,
        "uid="@ + text::decimal(uid->0 as nat),
    ));
    if let Some(gid) = gid {
        let mut field = "gid=".to_owned();
        field.append(text::decimal_of(gid as u64).as_str());
        fields.push(field);
    }
    assert(text::texts(fields@) =~= when(mode is Some, "mode="@ + mode_text(mode->0)) + when(
        uid is Some,
        "uid="@ + text::decimal(uid->0 as nat),
    ) + when(gid is Some, "gid="@ + text::decimal(gid->0 as nat)));
    if let Some(flags) = flags {
        let mut field = "flags=0x".to_owned();
        field.append(text::digits_of(flags as u128, 16).as_str());
        fields.push(field);
    }
    assert(text::texts(fields@) =~= when(mode is Some, "mode="@ + mode_text(mode->0)) + when(
        uid is Some,
        "uid="@ + text::decimal(uid->0 as nat),
    ) + when(gid is Some, "gid="@ + text::decimal(gid->0 as nat)) + when(
        flags is Some,
        "flags=0x"@ + text::hexadecimal(flags->0 as nat),
    ));
    if atime.is_some() {
        fields.push("atime=<set>".to_owned());
    }
    if mtime.is_some() {
        fields.push("mtime=<set>".to_owned());
    }
    assert(text::texts(fields@) =~= setattr_fields(mode, uid, gid, flags, atime, mtime));
    if fields.len() == 0 {
        fields.push("unchanged".to_owned());
        assert(text::texts(fields@) =~= seq!["unchanged"@]);
    }
    let mut text = "path=".to_owned();
    text.append(path.as_str());
    text.append(" SETATTR ");
    text.append(text::joined_of(&fields, " ").as_str());
    text
}

fn mode_of(mode: u16) -> (text: String)
    ensures
        text@ == mode_text(mode),
{
    let digits = text::digits_of(mode as u128, 8);
    text::zero_padded_of(digits, 4)
}

fn format_chown_shell_hint(path: &SandboxPath, uid: Option<u32>, gid: Option<u32>) -> (text: String)
    ensures
        text@ == chown_hint(*path, uid, gid),
{
    let mut text = String::new();
    match (uid, gid) {
        (Some(uid), Some(gid)) => {
            text = "chown ".to_owned();
            text.append(text::decimal_of(uid as u64).as_str());
            text.append(":");
            text.append(text::decimal_of(gid as u64).as_str());
            text.append(" ");
        },
        (Some(uid), None) => {
            text = "chown ".to_owned();
            text.append(text::decimal_of(uid as u64).as_str());
            text.append(" ");
        },
        (None, Some(gid)) => {
            text = "chown :".to_owned();
            text.append(text::decimal_of(gid as u64).as_str());
            text.append(" ");
        },
        (None, None) => {
            text = "chown unchanged ".to_owned();
        },
    }
    text.append(path.as_str());
    text
}

fn format_chmod_shell_hint(path: &SandboxPath, mode: u16) -> (text: String)
    ensures
        text@ == chmod_hint(*path, mode),
{
    let mut text = "chmod ".to_owned();
    text.append(text::digits_of(mode as u128, 8).as_str());
    text.append(" ");
    text.append(path.as_str());
    text
}

fn format_chattr_shell_hint(path: &SandboxPath, flags: u32) -> (text: String)
    ensures
        text@ == chattr_hint(*path, flags),
{
    let mut text = "chattr flags=0x".to_owned();
    text.append(text::digits_of(flags as u128, 16).as_str());
    text.append(" ");
    text.append(path.as_str());
    text
}

impl MetadataOperation {
    /// The path whose metadata changes.
    pub open spec fn subject(self) -> SandboxPath {
        match self {
            MetadataOperation::Chmod { path, .. } => path,
            MetadataOperation::Chown { path, .. } => path,
            MetadataOperation::Chattr { path, .. } => path,
            MetadataOperation::SetAttr { path, .. } => path,
            MetadataOperation::SetXattr { path, .. } => path,
            MetadataOperation::RemoveXattr { path, .. } => path,
        }
    }

    /// How the operation reads in a log line.
    pub open spec fn body(self) -> Seq<char> {
        match self {
            MetadataOperation::Chmod { path, mode } => "path="@ + path.text() + " SETATTR mode="@
                + mode_text(mode),
            MetadataOperation::Chown { path, uid, gid } => setattr_body(
                path,
                setattr_fields(None, uid, gid, None, None, None),
            ),
            MetadataOperation::Chattr { path, flags } => "path="@ + path.text() + " CHATTR flags=0x"@
                + text::hexadecimal(flags as nat),
            MetadataOperation::SetAttr { path, mode, uid, gid, flags, atime, mtime } => setattr_body(
                path,
                setattr_fields(mode, uid, gid, flags, atime, mtime),
            ),
            MetadataOperation::SetXattr { path, name } => "path="@ + path.text() + " SETXATTR name="@
                + name@,
            MetadataOperation::RemoveXattr { path, name } => "path="@ + path.text()
                + " REMOVEXATTR name="@ + name@,
        }
    }

    /// The parts of the metadata that the operation sets.
    pub open spec fn parts(self) -> Seq<PendingOperationKind> {
        match self {
            MetadataOperation::Chmod { .. } => seq![PendingOperationKind::Mode],
            MetadataOperation::Chown { uid, gid, .. } => when(uid is Some, PendingOperationKind::Uid)
                + when(gid is Some, PendingOperationKind::Gid),
            MetadataOperation::Chattr { .. } => seq![PendingOperationKind::Flags],
            MetadataOperation::SetAttr { mode, uid, gid, flags, atime, mtime, .. } => when(
                mode is Some,
                PendingOperationKind::Mode,
            ) + when(uid is Some, PendingOperationKind::Uid) + when(
                gid is Some,
                PendingOperationKind::Gid,
            ) + when(flags is Some, PendingOperationKind::Flags) + when(
                atime is Some || mtime is Some,
                PendingOperationKind::Times,
            ),
            MetadataOperation::SetXattr { .. } => seq![PendingOperationKind::Xattr],
            MetadataOperation::RemoveXattr { .. } => seq![PendingOperationKind::Xattr],
        }
    }

    /// The command that would make the same change.
    pub open spec fn hint(self) -> Seq<char> {
        match self {
            MetadataOperation::Chmod { path, mode } => chmod_hint(path, mode),
            MetadataOperation::Chown { path, uid, gid } => chown_hint(path, uid, gid),
            MetadataOperation::Chattr { path, flags } => chattr_hint(path, flags),
            MetadataOperation::SetXattr { path, name } => "setfattr -n "@ + name@ + " "@ + path.text(),
            MetadataOperation::RemoveXattr { path, name } => "setfattr -x "@ + name@ + " "@
                + path.text(),
            MetadataOperation::SetAttr { path, mode, uid, gid, flags, atime, mtime } => match (
                mode,
                uid,
                gid,
                flags,
                atime,
                mtime,
            ) {
                (Some(mode), None, None, None, None, None) => chmod_hint(path, mode),
                (None, Some(uid), None, None, None, None) => chown_hint(path, Some(uid), None),
                (None, None, Some(gid), None, None, None) => chown_hint(path, None, Some(gid)),
                (None, Some(uid), Some(gid), None, None, None) => chown_hint(
                    path,
                    Some(uid),
                    Some(gid),
                ),
                (None, None, None, Some(flags), None, None) => chattr_hint(path, flags),
                _ => self.body(),
            },
        }
    }

    pub fn path(&self) -> (path: &SandboxPath)
        ensures
            *path == self.subject(),
    {
        match self {
            MetadataOperation::Chmod { path, .. } => path,
            MetadataOperation::Chown { path, .. } => path,
            MetadataOperation::Chattr { path, .. } => path,
            MetadataOperation::SetAttr { path, .. } => path,
            MetadataOperation::SetXattr { path, .. } => path,
            MetadataOperation::RemoveXattr { path, .. } => path,
        }
    }

    pub fn description(&self) -> (text: String)
        ensures
            text@ == self.body(),
    {
        self.event_body()
    }

    pub fn event_body(&self) -> (text: String)
        ensures
            text@ == self.body(),
    {
        let mut text = "path=".to_owned();
        text.append(self.path().as_str());
        match self {
            MetadataOperation::Chmod { mode, .. } => {
                text.append(" SETATTR mode=");
                text.append(mode_of(*mode).as_str());
                text
            },
            MetadataOperation::Chown { path, uid, gid } => format_setattr_body(
                path,
                None,
                *uid,
                *gid,
                None,
                None,
                None,
            ),
            MetadataOperation::Chattr { flags, .. } => {
                text.append(" CHATTR flags=0x");
                text.append(text::digits_of(*flags as u128, 16).as_str());
                text
            },
            MetadataOperation::SetXattr { name, .. } => {
                text.append(" SETXATTR name=");
                text.append(name.as_str());
                text
            },
            MetadataOperation::RemoveXattr { name, .. } => {
                text.append(" REMOVEXATTR name=");
                text.append(name.as_str());
                text
            },
            MetadataOperation::SetAttr { path, mode, uid, gid, flags, atime, mtime } =>
            format_setattr_body(path, *mode, *uid, *gid, *flags, *atime, *mtime),
        }
    }

    pub fn pending_kinds(&self) -> (kinds: Vec<PendingOperationKind>)
        ensures
            kinds@ == self.parts(),
    {
        let mut kinds: Vec<PendingOperationKind> = Vec::new();
        match self {
            MetadataOperation::Chmod { .. } => kinds.push(PendingOperationKind::Mode),
            MetadataOperation::Chown { uid, gid, .. } => {
                if uid.is_some() {
                    kinds.push(PendingOperationKind::Uid);
                }
                if gid.is_some() {
                    kinds.push(PendingOperationKind::Gid);
                }
            },
            MetadataOperation::Chattr { .. } => kinds.push(PendingOperationKind::Flags),
            MetadataOperation::SetXattr { .. } => kinds.push(PendingOperationKind::Xattr),
            MetadataOperation::RemoveXattr { .. } => kinds.push(PendingOperationKind::Xattr),
            MetadataOperation::SetAttr { mode, uid, gid, flags, atime, mtime, .. } => {
                if mode.is_some() {
                    kinds.push(PendingOperationKind::Mode);
                }
                if uid.is_some() {
                    kinds.push(PendingOperationKind::Uid);
                }
                if gid.is_some() {
                    kinds.push(PendingOperationKind::Gid);
                }
                if flags.is_some() {
                    kinds.push(PendingOperationKind::Flags);
                }
                if atime.is_some() || mtime.is_some() {
                    kinds.push(PendingOperationKind::Times);
                }
            },
        }
        assert(kinds@ =~= self.parts());
        kinds
    }

    pub fn shell_hint(&self) -> (text: String)
        ensures
            text@ == self.hint(),
    {
        match self {
            MetadataOperation::Chmod { path, mode } => format_chmod_shell_hint(path, *mode),
            MetadataOperation::Chown { path, uid, gid } => format_chown_shell_hint(path, *uid, *gid),
            MetadataOperation::Chattr { path, flags } => format_chattr_shell_hint(path, *flags),
            MetadataOperation::SetXattr { path, name } => {
                let mut text = "setfattr -n ".to_owned();
                text.append(name.as_str());
                text.append(" ");
                text.append(path.as_str());
                text
            },
            MetadataOperation::RemoveXattr { path, name } => {
                let mut text = "setfattr -x ".to_owned();
                text.append(name.as_str());
                text.append(" ");
                text.append(path.as_str());
                text
            },
            MetadataOperation::SetAttr { path, mode, uid, gid, flags, atime, mtime } => match (
                *mode,
                *uid,
                *gid,
                *flags,
                *atime,
                *mtime,
            ) {
                (Some(mode), None, None, None, None, None) => format_chmod_shell_hint(path, mode),
                (None, Some(uid), None, None, None, None) => format_chown_shell_hint(
                    path,
                    Some(uid),
                    None,
                ),
                (None, None, Some(gid), None, None, None) => format_chown_shell_hint(
                    path,
                    None,
                    Some(gid),
                ),
                (None, Some(uid), Some(gid), None, None, None) => format_chown_shell_hint(
                    path,
                    Some(uid),
                    Some(gid),
                ),
                (None, None, None, Some(flags), None, None) => format_chattr_shell_hint(path, flags),
                _ => self.event_body(),
            },
        }
    }
}

impl Clone for MetadataOperation {
    fn clone(&self) -> (copy: Self)
        ensures
            copy == *self,
    {
        match self {
            MetadataOperation::Chmod { path, mode } => MetadataOperation::Chmod {
                path: path.clone(),
                mode: *mode,
            },
            MetadataOperation::Chown { path, uid, gid } => MetadataOperation::Chown {
                path: path.clone(),
                uid: *uid,
                gid: *gid,
            },
            MetadataOperation::Chattr { path, flags } => MetadataOperation::Chattr {
                path: path.clone(),
                flags: *flags,
            },
            MetadataOperation::SetAttr { path, mode, uid, gid, flags, atime, mtime } =>
            MetadataOperation::SetAttr {
                path: path.clone(),
                mode: *mode,
                uid: *uid,
                gid: *gid,
                flags: *flags,
                atime: *atime,
                mtime: *mtime,
            },
            MetadataOperation::SetXattr { path, name } => MetadataOperation::SetXattr {
                path: path.clone(),
                name: name.clone(),
            },
            MetadataOperation::RemoveXattr { path, name } => MetadataOperation::RemoveXattr {
                path: path.clone(),
                name: name.clone(),
            },
        }
    }
}

} // verus!
