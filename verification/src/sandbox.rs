//! The sandbox: layers, hides, rules and metadata overrides, and what a path
//! resolves to.

use vstd::prelude::*;

use crate::error::Error;
use crate::host;
use crate::host::HostPath;
use crate::metadata;
use crate::metadata::MetadataEntry;
use crate::metadata::MetadataObjectKey;
use crate::metadata::MetadataOverride;
use crate::metadata::ObjectView;
use crate::operation::MetadataOperation;
use crate::path;
use crate::path::SandboxPath;
use crate::policy;
use crate::policy::PassthroughRule;
use crate::policy::PatternView;
use crate::policy::PolicyPattern;
use crate::policy::ProtectionKind;
use crate::policy::ProtectionRule;
use crate::policy::ProtectionRuleResult;
use crate::table;
use crate::table::Table;
use crate::table::TableKey;
use crate::text;

verus! {

broadcast use vstd::string::group_string_axioms;

/// A host directory mounted on a sandbox path. A greater number is newer.
#[derive(Debug)]
pub struct MountLayer {
    pub id: u64,
    pub local: HostPath,
    pub on_fs: SandboxPath,
}

/// A rule that hides a sandbox path and what lies below it.
#[derive(Debug)]
pub struct HideRule {
    pub id: u64,
    pub path: SandboxPath,
}

/// A path that a trusted operation may touch.
#[derive(Debug)]
pub struct TrustedPathScope {
    pub path: SandboxPath,
    pub recursive: bool,
}

/// A view of the sandbox mounted on the host.
#[derive(Debug)]
pub struct AttachMount {
    pub id: u64,
    pub mountpoint: HostPath,
    pub temporary: bool,
    pub active: bool,
}

/// What a sandbox path stands for.
#[derive(Debug)]
pub enum ResolvedPath {
    Real { local_path: HostPath, layer_id: u64, sandbox_path: SandboxPath },
    VirtualDir { sandbox_path: SandboxPath },
}

/// What a sandbox path stands for.
#[verifier::ext_equal]
pub enum ResolvedView {
    Real { local_path: Seq<char>, layer_id: u64, sandbox_path: Seq<Seq<char>> },
    VirtualDir { sandbox_path: Seq<Seq<char>> },
}

impl View for ResolvedPath {
    type V = ResolvedView;

    open spec fn view(&self) -> ResolvedView {
        match self {
            ResolvedPath::Real { local_path, layer_id, sandbox_path } => ResolvedView::Real {
                local_path: local_path@,
                layer_id: *layer_id,
                sandbox_path: sandbox_path@,
            },
            ResolvedPath::VirtualDir { sandbox_path } => ResolvedView::VirtualDir {
                sandbox_path: sandbox_path@,
            },
        }
    }
}

/// How the overlay answers for a path.
pub enum Overlay {
    Real(MountLayer),
    VirtualDir,
    Hidden,
    Missing,
}

/// The layer is mounted on the path or above it.
pub open spec fn covers(layer: MountLayer, at: Seq<Seq<char>>) -> bool {
    path::under(at, layer.on_fs@)
}

/// The layer is mounted below the path.
pub open spec fn beneath(layer: MountLayer, at: Seq<Seq<char>>) -> bool {
    path::under(layer.on_fs@, at) && layer.on_fs@ != at
}

/// The newest layer mounted on the path or above it.
pub open spec fn newest_covering_layer(layers: Seq<MountLayer>, at: Seq<Seq<char>>) -> Option<
    MountLayer,
>
    decreases layers.len(),
{
    if layers.len() == 0 {
        None
    } else {
        let rest = newest_covering_layer(layers.drop_last(), at);
        if covers(layers.last(), at) && (rest is None || rest->0.id <= layers.last().id) {
            Some(layers.last())
        } else {
            rest
        }
    }
}

/// The newest layer mounted below the path.
pub open spec fn newest_layer_beneath(layers: Seq<MountLayer>, at: Seq<Seq<char>>) -> Option<
    MountLayer,
>
    decreases layers.len(),
{
    if layers.len() == 0 {
        None
    } else {
        let rest = newest_layer_beneath(layers.drop_last(), at);
        if beneath(layers.last(), at) && (rest is None || rest->0.id <= layers.last().id) {
            Some(layers.last())
        } else {
            rest
        }
    }
}

/// The newest rule that hides the path or something above it.
pub open spec fn newest_covering_hide(hides: Seq<HideRule>, at: Seq<Seq<char>>) -> Option<HideRule>
    decreases hides.len(),
{
    if hides.len() == 0 {
        None
    } else {
        let rest = newest_covering_hide(hides.drop_last(), at);
        if path::under(at, hides.last().path@) && (rest is None || rest->0.id <= hides.last().id) {
            Some(hides.last())
        } else {
            rest
        }
    }
}

/// How the overlay answers for a path: the newest layer or hide on the path or
/// above it decides. Below a hide, and where nothing is mounted, a directory
/// still shows on the way to a newer mount. The root is never hidden.
pub open spec fn overlay(
    layers: Seq<MountLayer>,
    hides: Seq<HideRule>,
    at: Seq<Seq<char>>,
) -> Overlay {
    let layer = newest_covering_layer(layers, at);
    let hide = newest_covering_hide(hides, at);
    let below = newest_layer_beneath(layers, at);
    if at.len() == 0 {
        match layer {
            Some(layer) => Overlay::Real(layer),
            None => Overlay::VirtualDir,
        }
    } else if layer is Some && (hide is None || layer->0.id > hide->0.id) {
        Overlay::Real(layer->0)
    } else if below is Some && (hide is None || below->0.id > hide->0.id) {
        Overlay::VirtualDir
    } else if hide is Some {
        Overlay::Hidden
    } else {
        Overlay::Missing
    }
}

/// The host path of a sandbox path in a layer.
pub open spec fn local_path(layer: MountLayer, at: Seq<Seq<char>>) -> Seq<char> {
    host::host_join(layer.local@, path::relative(at.skip(layer.on_fs@.len() as int)))
}

/// What a path stands for, if it is visible.
pub open spec fn resolution(
    layers: Seq<MountLayer>,
    hides: Seq<HideRule>,
    at: Seq<Seq<char>>,
) -> Option<ResolvedView> {
    match overlay(layers, hides, at) {
        Overlay::Real(layer) => Some(
            ResolvedView::Real {
                local_path: local_path(layer, at),
                layer_id: layer.id,
                sandbox_path: at,
            },
        ),
        Overlay::VirtualDir => Some(ResolvedView::VirtualDir { sandbox_path: at }),
        Overlay::Hidden => None,
        Overlay::Missing => None,
    }
}

/// The first layer with a number.
pub open spec fn layer_with_id(layers: Seq<MountLayer>, id: u64) -> Option<MountLayer>
    decreases layers.len(),
{
    if layers.len() == 0 {
        None
    } else if layer_with_id(layers.drop_last(), id) is Some {
        layer_with_id(layers.drop_last(), id)
    } else if layers.last().id == id {
        Some(layers.last())
    } else {
        None
    }
}

/// The object that a path stands for, if it stands for one of a layer.
pub open spec fn object_key(
    layers: Seq<MountLayer>,
    hides: Seq<HideRule>,
    at: Seq<Seq<char>>,
) -> Option<ObjectView> {
    match overlay(layers, hides, at) {
        Overlay::Real(layer) => match layer_with_id(layers, layer.id) {
            Some(found) => if path::under(at, found.on_fs@) {
                Some(
                    ObjectView {
                        layer_id: layer.id,
                        relative_path: at.skip(found.on_fs@.len() as int),
                    },
                )
            } else {
                None
            },
            None => None,
        },
        _ => None,
    }
}

/// The path that a name leads to from a directory.
pub open spec fn child_path(dir: Seq<Seq<char>>, name: Seq<char>) -> Seq<Seq<char>> {
    if path::is_absolute(name) {
        path::components(name)
    } else {
        path::followed(dir, text::pieces(name, '/'))
    }
}

/// The names that the host lists for a directory.
pub open spec fn host_names(listing: Option<&Vec<String>>) -> Option<Seq<Seq<char>>> {
    match listing {
        Some(names) => Some(text::texts(names@)),
        None => None,
    }
}

/// Everything a sandbox knows.
#[derive(Debug)]
pub struct Sandbox {
    pub name: String,
    pub layers: Vec<MountLayer>,
    pub hides: Vec<HideRule>,
    pub metadata: Table<MetadataObjectKey, MetadataEntry>,
    pub protection_rules: Vec<ProtectionRule>,
    pub passthrough_rules: Vec<PassthroughRule>,
    pub attaches: Table<HostPath, AttachMount>,
    pub next_layer_id: u64,
    pub next_hide_id: u64,
    pub log_path: HostPath,
}

/// What a sandbox knows.
#[verifier::ext_equal]
pub struct SandboxView {
    pub name: Seq<char>,
    pub layers: Seq<MountLayer>,
    pub hides: Seq<HideRule>,
    pub metadata: Map<ObjectView, MetadataEntry>,
    pub protection_rules: Seq<ProtectionRule>,
    pub passthrough_rules: Seq<PassthroughRule>,
    pub attaches: Map<Seq<Seq<char>>, AttachMount>,
    pub next_layer_id: u64,
    pub next_hide_id: u64,
    pub log_path: Seq<char>,
}

impl View for Sandbox {
    type V = SandboxView;

    open spec fn view(&self) -> SandboxView {
        SandboxView {
            name: self.name@,
            layers: self.layers@,
            hides: self.hides@,
            metadata: self.metadata@,
            protection_rules: self.protection_rules@,
            passthrough_rules: self.passthrough_rules@,
            attaches: self.attaches@,
            next_layer_id: self.next_layer_id,
            next_hide_id: self.next_hide_id,
            log_path: self.log_path@,
        }
    }
}

/// A sandbox without layers, hides, rules, overrides or attached views.
pub open spec fn fresh_sandbox(name: Seq<char>, log_path: Seq<char>) -> SandboxView {
    SandboxView {
        name,
        layers: Seq::empty(),
        hides: Seq::empty(),
        metadata: Map::empty(),
        protection_rules: Seq::empty(),
        passthrough_rules: Seq::empty(),
        attaches: Map::empty(),
        next_layer_id: 1,
        next_hide_id: 1,
        log_path,
    }
}

impl SandboxView {
    /// The number of the next layer or hide.
    pub open spec fn next_order(self) -> int {
        if self.next_layer_id >= self.next_hide_id {
            self.next_layer_id as int
        } else {
            self.next_hide_id as int
        }
    }

    /// Every layer and hide has a number of its own, later ones have greater
    /// numbers, and none of the numbers is still to come. No layer has the
    /// number that stands for none.
    pub open spec fn well_ordered(self) -> bool {
        &&& metadata::NO_LAYER < self.next_order()
        &&& forall|i: int|
            0 <= i < self.layers.len() ==> metadata::NO_LAYER < (#[trigger] self.layers[i]).id
        &&& forall|i: int| 0 <= i < self.layers.len() ==> (#[trigger] self.layers[i]).id < self.next_order()
        &&& forall|i: int| 0 <= i < self.hides.len() ==> (#[trigger] self.hides[i]).id < self.next_order()
        &&& forall|i: int, j: int|
            0 <= i < j < self.layers.len() ==> (#[trigger] self.layers[i]).id < (
            #[trigger] self.layers[j]).id
        &&& forall|i: int, j: int|
            0 <= i < j < self.hides.len() ==> (#[trigger] self.hides[i]).id < (
            #[trigger] self.hides[j]).id
        &&& forall|i: int, j: int|
            0 <= i < self.layers.len() && 0 <= j < self.hides.len() ==> (
            #[trigger] self.layers[i]).id != (#[trigger] self.hides[j]).id
    }

    pub open spec fn overlay(self, at: Seq<Seq<char>>) -> Overlay {
        overlay(self.layers, self.hides, at)
    }

    pub open spec fn resolution(self, at: Seq<Seq<char>>) -> Option<ResolvedView> {
        resolution(self.layers, self.hides, at)
    }

    pub open spec fn object_key(self, at: Seq<Seq<char>>) -> Option<ObjectView> {
        object_key(self.layers, self.hides, at)
    }

    /// The override that a path shows.
    pub open spec fn override_at(self, at: Seq<Seq<char>>) -> Option<MetadataOverride> {
        match self.object_key(at) {
            Some(key) => if self.metadata.contains_key(key) {
                Some(self.metadata[key].override_)
            } else {
                None
            },
            None => None,
        }
    }

    /// Whether a rule asks before the effect on the path.
    pub open spec fn protects(self, kind: ProtectionKind, at: Seq<char>, is_dir: bool) -> bool {
        exists|i: int|
            {
                &&& 0 <= i < self.protection_rules.len()
                &&& (#[trigger] self.protection_rules[i]).kind == kind
                &&& policy::selects(self.protection_rules[i].pattern@, at, is_dir)
            }
    }

    /// Whether a rule lets the effect on the path pass.
    pub open spec fn passes(self, kind: ProtectionKind, at: Seq<char>, is_dir: bool) -> bool {
        exists|i: int|
            {
                &&& 0 <= i < self.passthrough_rules.len()
                &&& (#[trigger] self.passthrough_rules[i]).kind == kind
                &&& policy::selects(self.passthrough_rules[i].pattern@, at, is_dir)
            }
    }

    /// The entry of an object after an operation on it.
    pub open spec fn entry_after(self, key: ObjectView, operation: MetadataOperation) -> MetadataEntry {
        let before = if self.metadata.contains_key(key) {
            self.metadata[key].override_
        } else {
            MetadataOverride::nothing()
        };
        MetadataEntry {
            sandbox_path: operation.subject(),
            override_: before.after(operation),
        }
    }

    /// The sandbox after an operation on an object.
    pub open spec fn after_override(self, key: ObjectView, operation: MetadataOperation) -> Self {
        SandboxView {
            metadata: self.metadata.insert(key, self.entry_after(key, operation)),
            ..self
        }
    }

    /// A layer has the number.
    pub open spec fn has_layer(self, id: u64) -> bool {
        exists|i: int| 0 <= i < self.layers.len() && (#[trigger] self.layers[i]).id == id
    }

    /// The object shows, with an override, under the path it was set through.
    pub open spec fn differs(self, key: ObjectView) -> bool {
        &&& self.metadata.contains_key(key)
        &&& self.metadata[key].override_ != MetadataOverride::nothing()
        &&& self.object_key(self.metadata[key].sandbox_path@) == Some(key)
    }

    /// A mount below the directory starts with the name.
    pub open spec fn leads_to_mount(self, dir: Seq<Seq<char>>, name: Seq<char>) -> bool {
        exists|i: int|
            {
                &&& 0 <= i < self.layers.len()
                &&& beneath(#[trigger] self.layers[i], dir)
                &&& self.layers[i].on_fs@[dir.len() as int] == name
            }
    }

    /// The directory's own listing shows the name.
    pub open spec fn lists(
        self,
        dir: Seq<Seq<char>>,
        listing: Option<Seq<Seq<char>>>,
        name: Seq<char>,
    ) -> bool {
        &&& self.overlay(dir) is Real
        &&& listing is Some
        &&& listing->0.contains(name)
        &&& self.resolution(child_path(dir, name)) is Some
    }

    /// What a directory shows under a name: what its own listing holds, and
    /// directories on the way to mounts below it.
    pub open spec fn child(
        self,
        dir: Seq<Seq<char>>,
        listing: Option<Seq<Seq<char>>>,
        name: Seq<char>,
    ) -> Option<ResolvedView> {
        if self.lists(dir, listing, name) {
            self.resolution(child_path(dir, name))
        } else if self.leads_to_mount(dir, name) && !(self.overlay(child_path(dir, name)) is Hidden) {
            Some(ResolvedView::VirtualDir { sandbox_path: child_path(dir, name) })
        } else {
            None
        }
    }
}

/// The last place where a layer is mounted on exactly the path.
pub open spec fn last_mount_on(layers: Seq<MountLayer>, at: Seq<Seq<char>>) -> Option<int>
    decreases layers.len(),
{
    if layers.len() == 0 {
        None
    } else if layers.last().on_fs@ == at {
        Some(layers.len() - 1)
    } else {
        last_mount_on(layers.drop_last(), at)
    }
}

/// The kinds that a listing shows: those asked for, or all where none is.
pub open spec fn shown(
    include_read: bool,
    include_write: bool,
    include_metadata: bool,
    include_xattr: bool,
    kind: ProtectionKind,
) -> bool {
    ||| !include_read && !include_write && !include_metadata && !include_xattr
    ||| match kind {
        ProtectionKind::Read => include_read,
        ProtectionKind::Write => include_write,
        ProtectionKind::Metadata => include_metadata,
        ProtectionKind::Xattr => include_xattr,
    }
}

fn is_shown(
    include_read: bool,
    include_write: bool,
    include_metadata: bool,
    include_xattr: bool,
    kind: ProtectionKind,
) -> (result: bool)
    ensures
        result == shown(include_read, include_write, include_metadata, include_xattr, kind),
{
    let include_all = !include_read && !include_write && !include_metadata && !include_xattr;
    match kind {
        ProtectionKind::Read => include_read || include_all,
        ProtectionKind::Write => include_write || include_all,
        ProtectionKind::Metadata => include_metadata || include_all,
        ProtectionKind::Xattr => include_xattr || include_all,
    }
}

/// A rule of the kind has the pattern.
pub open spec fn has_protection_rule(
    rules: Seq<ProtectionRule>,
    kind: ProtectionKind,
    pattern: PatternView,
) -> bool {
    exists|i: int| 0 <= i < rules.len() && (#[trigger] rules[i]).key() == (pattern, kind)
}

/// The first rule of the kind with the pattern stands at the place.
pub open spec fn first_protection_rule(
    rules: Seq<ProtectionRule>,
    kind: ProtectionKind,
    pattern: PatternView,
    at: int,
) -> bool {
    &&& 0 <= at < rules.len()
    &&& rules[at].key() == (pattern, kind)
    &&& forall|i: int| 0 <= i < at ==> (#[trigger] rules[i]).key() != (pattern, kind)
}

/// A rule of the kind has the pattern.
pub open spec fn has_passthrough_rule(
    rules: Seq<PassthroughRule>,
    kind: ProtectionKind,
    pattern: PatternView,
) -> bool {
    exists|i: int| 0 <= i < rules.len() && (#[trigger] rules[i]).key() == (pattern, kind)
}

/// The first rule of the kind with the pattern stands at the place.
pub open spec fn first_passthrough_rule(
    rules: Seq<PassthroughRule>,
    kind: ProtectionKind,
    pattern: PatternView,
    at: int,
) -> bool {
    &&& 0 <= at < rules.len()
    &&& rules[at].key() == (pattern, kind)
    &&& forall|i: int| 0 <= i < at ==> (#[trigger] rules[i]).key() != (pattern, kind)
}

#[derive(Debug)]
enum OverlayResolution {
    Real { local_path: HostPath, layer_id: u64 },
    VirtualDir,
    Hidden,
    Missing,
}

impl Sandbox {
    pub fn new(name: String, log_path: HostPath) -> (sandbox: Self)
        ensures
            sandbox@ == fresh_sandbox(name@, log_path@),
    {
        Sandbox {
            name,
            layers: Vec::new(),
            hides: Vec::new(),
            metadata: Table::new(),
            protection_rules: Vec::new(),
            passthrough_rules: Vec::new(),
            attaches: Table::new(),
            next_layer_id: 1,
            next_hide_id: 1,
            log_path,
        }
    }

    fn next_overlay_order(&mut self) -> (id: u64)
        requires
            old(self)@.next_order() < u64::MAX,
        ensures
            id == old(self)@.next_order(),
            final(self)@ == (SandboxView {
                next_layer_id: (id + 1) as u64,
                next_hide_id: (id + 1) as u64,
                ..old(self)@
            }),
    {
        let id: u64 = if self.next_layer_id >= self.next_hide_id {
            self.next_layer_id
        } else {
            self.next_hide_id
        };
        self.next_layer_id = id + 1;
        self.next_hide_id = id + 1;
        id
    }

    /// Mounts a host path; the new layer is newer than every layer and hide.
    pub fn add_layer(&mut self, local: HostPath, on_fs: SandboxPath) -> (id: u64)
        requires
            old(self)@.next_order() < u64::MAX,
        ensures
            id == old(self)@.next_order(),
            final(self)@ == (SandboxView {
                layers: old(self)@.layers.push(MountLayer { id, local, on_fs }),
                next_layer_id: (id + 1) as u64,
                next_hide_id: (id + 1) as u64,
                ..old(self)@
            }),
    {
        let id = self.next_overlay_order();
        self.layers.push(MountLayer { id, local, on_fs });
        id
    }

    /// Takes the layer away that was mounted last on exactly the path.
    pub fn remove_layer(&mut self, on_fs: &SandboxPath) -> (removed: bool)
        ensures
            match last_mount_on(old(self)@.layers, on_fs@) {
                Some(i) => removed && final(self)@ == (SandboxView {
                    layers: old(self)@.layers.remove(i),
                    ..old(self)@
                }),
                None => !removed && final(self)@ == old(self)@,
            },
    {
        let mut end: usize = self.layers.len();
        assert(self.layers@.take(end as int) =~= self.layers@);
        while end > 0
            invariant
                end <= self.layers.len(),
                self@ == old(self)@,
                last_mount_on(self.layers@.take(end as int), on_fs@) == last_mount_on(
                    self.layers@,
                    on_fs@,
                ),
            decreases end,
        {
            assert(self.layers@.take(end as int).drop_last() =~= self.layers@.take(end - 1));
            assert(self.layers@.take(end as int).last() == self.layers@[end - 1]);
            if self.layers[end - 1].on_fs == *on_fs {
                let _ = self.layers.remove(end - 1);
                return true;
            }
            end -= 1;
        }
        false
    }

    /// Hides a path; the rule is newer than every layer and hide.
    pub fn add_hide(&mut self, path: SandboxPath) -> (id: u64)
        requires
            old(self)@.next_order() < u64::MAX,
        ensures
            id == old(self)@.next_order(),
            final(self)@ == (SandboxView {
                hides: old(self)@.hides.push(HideRule { id, path }),
                next_layer_id: (id + 1) as u64,
                next_hide_id: (id + 1) as u64,
                ..old(self)@
            }),
    {
        let id = self.next_overlay_order();
        self.hides.push(HideRule { id, path });
        id
    }

    /// Adds a rule that asks before an effect; a rule that is there is not repeated.
    pub fn protect(&mut self, kind: ProtectionKind, pattern: PolicyPattern) -> (result:
        ProtectionRuleResult)
        ensures
            if has_protection_rule(old(self)@.protection_rules, kind, pattern@) {
                result is AlreadyPresent && final(self)@ == old(self)@
            } else {
                result is Added && final(self)@ == (SandboxView {
                    protection_rules: old(self)@.protection_rules.push(ProtectionRule { kind, pattern }),
                    ..old(self)@
                })
            },
    {
        match self.protection_rule_position(kind, &pattern) {
            Some(_) => ProtectionRuleResult::AlreadyPresent,
            None => {
                self.protection_rules.push(ProtectionRule { kind, pattern });
                ProtectionRuleResult::Added
            },
        }
    }

    /// Removes the rule with exactly the kind and pattern.
    pub fn unprotect(&mut self, kind: ProtectionKind, pattern: &PolicyPattern) -> (result:
        ProtectionRuleResult)
        ensures
            match result {
                ProtectionRuleResult::Removed => exists|i: int|
                    {
                        &&& first_protection_rule(old(self)@.protection_rules, kind, pattern@, i)
                        &&& final(self)@ == (SandboxView {
                            protection_rules: old(self)@.protection_rules.remove(i),
                            ..old(self)@
                        })
                    },
                ProtectionRuleResult::NotPresent => !has_protection_rule(
                    old(self)@.protection_rules,
                    kind,
                    pattern@,
                ) && final(self)@ == old(self)@,
                _ => false,
            },
    {
        match self.protection_rule_position(kind, pattern) {
            Some(index) => {
                let _ = self.protection_rules.remove(index);
                assert(first_protection_rule(old(self)@.protection_rules, kind, pattern@, index as int));
                ProtectionRuleResult::Removed
            },
            None => ProtectionRuleResult::NotPresent,
        }
    }

    fn protection_rule_position(&self, kind: ProtectionKind, pattern: &PolicyPattern) -> (position:
        Option<usize>)
        ensures
            match position {
                Some(i) => first_protection_rule(self@.protection_rules, kind, pattern@, i as int)
                    && has_protection_rule(self@.protection_rules, kind, pattern@),
                None => !has_protection_rule(self@.protection_rules, kind, pattern@),
            },
    {
        for i in 0..self.protection_rules.len()
            invariant
                forall|j: int|
                    0 <= j < i ==> (#[trigger] self.protection_rules@[j]).key() != (pattern@, kind),
        {
            let rule = &self.protection_rules[i];
            if rule.kind == kind && rule.pattern == *pattern {
                assert(self.protection_rules@[i as int].key() == (pattern@, kind));
                return Some(i);
            }
        }
        None
    }

    /// The protection rules on reads, writes and metadata as asked for, or those of
    /// all kinds where none is, by pattern and then by kind.
    pub fn protection_rules(
        &self,
        include_read: bool,
        include_write: bool,
        include_metadata: bool,
    ) -> (rules: Vec<ProtectionRule>)
        ensures
            rules@.to_multiset() == self@.protection_rules.filter(
                |rule: ProtectionRule|
                    shown(include_read, include_write, include_metadata, false, rule.kind),
            ).to_multiset(),
            table::nondescending(rules@),
    {
        self.protection_rules_of(include_read, include_write, include_metadata, false)
    }

    /// The protection rules of the kinds asked for, or of all kinds where none
    /// is, by pattern and then by kind.
    pub fn protection_rules_of(
        &self,
        include_read: bool,
        include_write: bool,
        include_metadata: bool,
        include_xattr: bool,
    ) -> (rules: Vec<ProtectionRule>)
        ensures
            rules@.to_multiset() == self@.protection_rules.filter(
                |rule: ProtectionRule|
                    shown(include_read, include_write, include_metadata, include_xattr, rule.kind),
            ).to_multiset(),
            table::nondescending(rules@),
    {
        let ghost pred = |rule: ProtectionRule|
            shown(include_read, include_write, include_metadata, include_xattr, rule.kind);
        let mut rules: Vec<ProtectionRule> = Vec::new();
        assert(self.protection_rules@.take(0).filter(pred) =~= Seq::<ProtectionRule>::empty()) by {
            reveal(Seq::filter);
        }
        for i in 0..self.protection_rules.len()
            invariant
                pred == (|rule: ProtectionRule|
                    shown(include_read, include_write, include_metadata, include_xattr, rule.kind)),
                rules@ == self.protection_rules@.take(i as int).filter(pred),
        {
            let rule = &self.protection_rules[i];
            assert(self.protection_rules@.take(i + 1) =~= self.protection_rules@.take(i as int).push(*rule));
            assert(self.protection_rules@.take(i + 1).filter(pred) == if pred(*rule) {
                rules@.push(*rule)
            } else {
                rules@
            }) by {
                reveal(Seq::filter);
                assert(self.protection_rules@.take(i + 1).drop_last() =~= self.protection_rules@.take(i as int));
            }
            if is_shown(include_read, include_write, include_metadata, include_xattr, rule.kind) {
                rules.push(rule.clone());
            }
        }
        assert(self.protection_rules@.take(self.protection_rules.len() as int) =~= self.protection_rules@);
        table::sorted_items(rules)
    }

    /// Whether a protection rule of the kind selects the path.
    pub fn is_protected(&self, kind: ProtectionKind, path: &SandboxPath, target_is_dir: bool) -> (result:
        bool)
        ensures
            result == self@.protects(kind, path.text(), target_is_dir),
    {
        for i in 0..self.protection_rules.len()
            invariant
                forall|j: int|
                    0 <= j < i ==> !((#[trigger] self.protection_rules@[j]).kind == kind && policy::selects(
                        self.protection_rules@[j].pattern@,
                        path.text(),
                        target_is_dir,
                    )),
        {
            let rule = &self.protection_rules[i];
            if rule.kind == kind && rule.matches(path, target_is_dir) {
                assert(self@.protection_rules[i as int].kind == kind);
                return true;
            }
        }
        false
    }

    /// Adds a rule that lets an effect pass; a rule that is there is not repeated.
    pub fn add_passthrough(&mut self, kind: ProtectionKind, pattern: PolicyPattern) -> (result:
        ProtectionRuleResult)
        ensures
            if has_passthrough_rule(old(self)@.passthrough_rules, kind, pattern@) {
                result is AlreadyPresent && final(self)@ == old(self)@
            } else {
                result is Added && final(self)@ == (SandboxView {
                    passthrough_rules: old(self)@.passthrough_rules.push(PassthroughRule { kind, pattern }),
                    ..old(self)@
                })
            },
    {
        match self.passthrough_rule_position(kind, &pattern) {
            Some(_) => ProtectionRuleResult::AlreadyPresent,
            None => {
                self.passthrough_rules.push(PassthroughRule { kind, pattern });
                ProtectionRuleResult::Added
            },
        }
    }

    /// Removes the passthrough rule with exactly the kind and pattern.
    pub fn remove_passthrough(&mut self, kind: ProtectionKind, pattern: &PolicyPattern) -> (result:
        ProtectionRuleResult)
        ensures
            match result {
                ProtectionRuleResult::Removed => exists|i: int|
                    {
                        &&& first_passthrough_rule(old(self)@.passthrough_rules, kind, pattern@, i)
                        &&& final(self)@ == (SandboxView {
                            passthrough_rules: old(self)@.passthrough_rules.remove(i),
                            ..old(self)@
                        })
                    },
                ProtectionRuleResult::NotPresent => !has_passthrough_rule(
                    old(self)@.passthrough_rules,
                    kind,
                    pattern@,
                ) && final(self)@ == old(self)@,
                _ => false,
            },
    {
        match self.passthrough_rule_position(kind, pattern) {
            Some(index) => {
                let _ = self.passthrough_rules.remove(index);
                assert(first_passthrough_rule(old(self)@.passthrough_rules, kind, pattern@, index as int));
                ProtectionRuleResult::Removed
            },
            None => ProtectionRuleResult::NotPresent,
        }
    }

    fn passthrough_rule_position(&self, kind: ProtectionKind, pattern: &PolicyPattern) -> (position:
        Option<usize>)
        ensures
            match position {
                Some(i) => first_passthrough_rule(self@.passthrough_rules, kind, pattern@, i as int)
                    && has_passthrough_rule(self@.passthrough_rules, kind, pattern@),
                None => !has_passthrough_rule(self@.passthrough_rules, kind, pattern@),
            },
    {
        for i in 0..self.passthrough_rules.len()
            invariant
                forall|j: int|
                    0 <= j < i ==> (#[trigger] self.passthrough_rules@[j]).key() != (pattern@, kind),
        {
            let rule = &self.passthrough_rules[i];
            if rule.kind == kind && rule.pattern == *pattern {
                assert(self.passthrough_rules@[i as int].key() == (pattern@, kind));
                return Some(i);
            }
        }
        None
    }

    /// The passthrough rules on reads, writes and metadata as asked for, or those of
    /// all kinds where none is, by pattern and then by kind.
    pub fn passthrough_rules(
        &self,
        include_read: bool,
        include_write: bool,
        include_metadata: bool,
    ) -> (rules: Vec<PassthroughRule>)
        ensures
            rules@.to_multiset() == self@.passthrough_rules.filter(
                |rule: PassthroughRule|
                    shown(include_read, include_write, include_metadata, false, rule.kind),
            ).to_multiset(),
            table::nondescending(rules@),
    {
        self.passthrough_rules_of(include_read, include_write, include_metadata, false)
    }

    /// The passthrough rules of the kinds asked for, or of all kinds where none
    /// is, by pattern and then by kind.
    pub fn passthrough_rules_of(
        &self,
        include_read: bool,
        include_write: bool,
        include_metadata: bool,
        include_xattr: bool,
    ) -> (rules: Vec<PassthroughRule>)
        ensures
            rules@.to_multiset() == self@.passthrough_rules.filter(
                |rule: PassthroughRule|
                    shown(include_read, include_write, include_metadata, include_xattr, rule.kind),
            ).to_multiset(),
            table::nondescending(rules@),
    {
        let ghost pred = |rule: PassthroughRule|
            shown(include_read, include_write, include_metadata, include_xattr, rule.kind);
        let mut rules: Vec<PassthroughRule> = Vec::new();
        assert(self.passthrough_rules@.take(0).filter(pred) =~= Seq::<PassthroughRule>::empty()) by {
            reveal(Seq::filter);
        }
        for i in 0..self.passthrough_rules.len()
            invariant
                pred == (|rule: PassthroughRule|
                    shown(include_read, include_write, include_metadata, include_xattr, rule.kind)),
                rules@ == self.passthrough_rules@.take(i as int).filter(pred),
        {
            let rule = &self.passthrough_rules[i];
            assert(self.passthrough_rules@.take(i + 1) =~= self.passthrough_rules@.take(i as int).push(*rule));
            assert(self.passthrough_rules@.take(i + 1).filter(pred) == if pred(*rule) {
                rules@.push(*rule)
            } else {
                rules@
            }) by {
                reveal(Seq::filter);
                assert(self.passthrough_rules@.take(i + 1).drop_last() =~= self.passthrough_rules@.take(i as int));
            }
            if is_shown(include_read, include_write, include_metadata, include_xattr, rule.kind) {
                rules.push(rule.clone());
            }
        }
        assert(self.passthrough_rules@.take(self.passthrough_rules.len() as int) =~= self.passthrough_rules@);
        table::sorted_items(rules)
    }

    /// Whether a passthrough rule of the kind selects the path.
    pub fn is_passthrough(&self, kind: ProtectionKind, path: &SandboxPath, target_is_dir: bool) -> (result:
        bool)
        ensures
            result == self@.passes(kind, path.text(), target_is_dir),
    {
        for i in 0..self.passthrough_rules.len()
            invariant
                forall|j: int|
                    0 <= j < i ==> !((#[trigger] self.passthrough_rules@[j]).kind == kind && policy::selects(
                        self.passthrough_rules@[j].pattern@,
                        path.text(),
                        target_is_dir,
                    )),
        {
            let rule = &self.passthrough_rules[i];
            if rule.kind == kind && rule.matches(path, target_is_dir) {
                assert(self@.passthrough_rules[i as int].kind == kind);
                return true;
            }
        }
        false
    }

    fn newest_covering_layer(&self, path: &SandboxPath) -> (layer: Option<&MountLayer>)
        ensures
            match layer {
                Some(layer) => newest_covering_layer(self@.layers, path@) == Some(*layer),
                None => newest_covering_layer(self@.layers, path@) is None,
            },
    {
        let mut newest: Option<&MountLayer> = None;
        for i in 0..self.layers.len()
            invariant
                match newest {
                    Some(layer) => newest_covering_layer(self.layers@.take(i as int), path@) == Some(
                        *layer,
                    ),
                    None => newest_covering_layer(self.layers@.take(i as int), path@) is None,
                },
        {
            let layer = &self.layers[i];
            assert(self.layers@.take(i + 1).drop_last() =~= self.layers@.take(i as int));
            if path.starts_with(&layer.on_fs) {
                let newer = match newest {
                    Some(other) => other.id <= layer.id,
                    None => true,
                };
                if newer {
                    newest = Some(layer);
                }
            }
        }
        assert(self.layers@.take(self.layers.len() as int) =~= self.layers@);
        newest
    }

    fn newest_descendant_layer(&self, path: &SandboxPath) -> (layer: Option<&MountLayer>)
        ensures
            match layer {
                Some(layer) => newest_layer_beneath(self@.layers, path@) == Some(*layer),
                None => newest_layer_beneath(self@.layers, path@) is None,
            },
    {
        let mut newest: Option<&MountLayer> = None;
        for i in 0..self.layers.len()
            invariant
                match newest {
                    Some(layer) => newest_layer_beneath(self.layers@.take(i as int), path@) == Some(
                        *layer,
                    ),
                    None => newest_layer_beneath(self.layers@.take(i as int), path@) is None,
                },
        {
            let layer = &self.layers[i];
            assert(self.layers@.take(i + 1).drop_last() =~= self.layers@.take(i as int));
            if layer.on_fs.starts_with(path) && layer.on_fs != *path {
                let newer = match newest {
                    Some(other) => other.id <= layer.id,
                    None => true,
                };
                if newer {
                    newest = Some(layer);
                }
            }
        }
        assert(self.layers@.take(self.layers.len() as int) =~= self.layers@);
        newest
    }

    fn newest_covering_hide(&self, path: &SandboxPath) -> (hide: Option<&HideRule>)
        ensures
            match hide {
                Some(hide) => newest_covering_hide(self@.hides, path@) == Some(*hide),
                None => newest_covering_hide(self@.hides, path@) is None,
            },
    {
        let mut newest: Option<&HideRule> = None;
        for i in 0..self.hides.len()
            invariant
                match newest {
                    Some(hide) => newest_covering_hide(self.hides@.take(i as int), path@) == Some(
                        *hide,
                    ),
                    None => newest_covering_hide(self.hides@.take(i as int), path@) is None,
                },
        {
            let hide = &self.hides[i];
            assert(self.hides@.take(i + 1).drop_last() =~= self.hides@.take(i as int));
            if path.starts_with(&hide.path) {
                let newer = match newest {
                    Some(other) => other.id <= hide.id,
                    None => true,
                };
                if newer {
                    newest = Some(hide);
                }
            }
        }
        assert(self.hides@.take(self.hides.len() as int) =~= self.hides@);
        newest
    }

    fn real_resolution(&self, path: &SandboxPath, layer: &MountLayer) -> (resolution: OverlayResolution)
        requires
            covers(*layer, path@),
        ensures
            resolution matches OverlayResolution::Real { local_path: local, layer_id } && layer_id
                == layer.id && local@ == local_path(*layer, path@),
    {
        match path.strip_prefix(&layer.on_fs) {
            Ok(rest) => OverlayResolution::Real {
                local_path: layer.local.join(rest.as_str()),
                layer_id: layer.id,
            },
            Err(_) => OverlayResolution::Missing,
        }
    }

    fn resolve_overlay(&self, path: &SandboxPath) -> (resolution: OverlayResolution)
        ensures
            match self@.overlay(path@) {
                Overlay::Real(layer) => resolution matches OverlayResolution::Real {
                    local_path: local,
                    layer_id,
                } && layer_id == layer.id && local@ == local_path(layer, path@) && covers(layer, path@),
                Overlay::VirtualDir => resolution is VirtualDir,
                Overlay::Hidden => resolution is Hidden,
                Overlay::Missing => resolution is Missing,
            },
    {
        proof {
            lemma_newest_covers(self@.layers, path@);
        }
        let root = SandboxPath::root();
        assert(path@.len() == 0 ==> path@ =~= root@);
        if *path == root {
            return match self.newest_covering_layer(path) {
                Some(layer) => self.real_resolution(path, layer),
                None => OverlayResolution::VirtualDir,
            };
        }
        let layer = self.newest_covering_layer(path);
        let hide = self.newest_covering_hide(path);
        let below = self.newest_descendant_layer(path);
        if let Some(layer) = layer {
            let visible = match hide {
                Some(hide) => layer.id > hide.id,
                None => true,
            };
            if visible {
                return self.real_resolution(path, layer);
            }
        }
        if let Some(below) = below {
            let visible = match hide {
                Some(hide) => below.id > hide.id,
                None => true,
            };
            if visible {
                return OverlayResolution::VirtualDir;
            }
        }
        if hide.is_some() {
            OverlayResolution::Hidden
        } else {
            OverlayResolution::Missing
        }
    }

    /// Whether a hide covers the path and nothing newer shows it.
    pub fn is_hidden(&self, path: &SandboxPath) -> (hidden: bool)
        ensures
            hidden == (self@.overlay(path@) is Hidden),
    {
        match self.resolve_overlay(path) {
            OverlayResolution::Hidden => true,
            _ => false,
        }
    }

    /// What the path stands for; nothing where it is hidden or missing.
    pub fn resolve(&self, path: &SandboxPath) -> (resolved: Option<ResolvedPath>)
        ensures
            match resolved {
                Some(resolved) => self@.resolution(path@) == Some(resolved@),
                None => self@.resolution(path@) is None,
            },
    {
        match self.resolve_overlay(path) {
            OverlayResolution::Real { local_path, layer_id } => Some(
                ResolvedPath::Real { local_path, layer_id, sandbox_path: path.clone() },
            ),
            OverlayResolution::VirtualDir => Some(
                ResolvedPath::VirtualDir { sandbox_path: path.clone() },
            ),
            OverlayResolution::Hidden => None,
            OverlayResolution::Missing => None,
        }
    }

    /// Whether the path is a directory only because something is mounted below.
    pub fn is_virtual_dir(&self, path: &SandboxPath) -> (virtual_dir: bool)
        ensures
            virtual_dir == (self@.overlay(path@) is VirtualDir),
    {
        match self.resolve_overlay(path) {
            OverlayResolution::VirtualDir => true,
            _ => false,
        }
    }

    /// The object that the path stands for.
    pub fn metadata_object_key(&self, path: &SandboxPath) -> (key: Option<MetadataObjectKey>)
        ensures
            match key {
                Some(key) => self@.object_key(path@) == Some(key@),
                None => self@.object_key(path@) is None,
            },
    {
        match self.resolve_overlay(path) {
            OverlayResolution::Real { layer_id, .. } => {
                let mut i: usize = 0;
                while i < self.layers.len()
                    invariant
                        i <= self.layers.len(),
                        self@.overlay(path@) matches Overlay::Real(layer) && layer.id == layer_id,
                        layer_with_id(self.layers@.take(i as int), layer_id) is None,
                    decreases self.layers.len() - i,
                {
                    assert(self.layers@.take(i + 1).drop_last() =~= self.layers@.take(i as int));
                    if self.layers[i].id == layer_id {
                        proof {
                            lemma_layer_found(self.layers@, i + 1, layer_id);
                            path::lemma_names_are_normal(*path);
                            path::lemma_relative_parts(
                                path@.skip(self.layers@[i as int].on_fs@.len() as int),
                            );
                        }
                        return match path.strip_prefix(&self.layers[i].on_fs) {
                            Ok(relative_path) => Some(
                                MetadataObjectKey { layer_id, relative_path },
                            ),
                            Err(_) => None,
                        };
                    }
                    i += 1;
                }
                assert(self.layers@.take(i as int) =~= self.layers@);
                None
            },
            _ => None,
        }
    }

    /// Whether the path is a directory, where the host says whether its host
    /// path is one.
    pub fn path_is_directory(&self, path: &SandboxPath, host_is_dir: bool) -> (directory: bool)
        ensures
            directory == match self@.overlay(path@) {
                Overlay::VirtualDir => true,
                Overlay::Real(_) => host_is_dir,
                _ => false,
            },
    {
        match self.resolve_overlay(path) {
            OverlayResolution::VirtualDir => true,
            OverlayResolution::Real { .. } => host_is_dir,
            _ => false,
        }
    }

    /// The override that the path shows.
    pub fn metadata_override_for_path(&self, path: &SandboxPath) -> (found: Option<MetadataOverride>)
        ensures
            found == self@.override_at(path@),
    {
        match self.metadata_object_key(path) {
            Some(key) => match self.metadata.get(&key) {
                Some(entry) => Some(entry.override_),
                None => None,
            },
            None => None,
        }
    }

    /// Applies an operation to the object that its path stands for.
    pub fn apply_metadata_override(&mut self, op: &MetadataOperation) -> (result: Result<(), Error>)
        ensures
            match result {
                Ok(_) => {
                    &&& old(self)@.object_key(op.subject()@) matches Some(key)
                    &&& old(self)@.has_layer(key.layer_id)
                    &&& final(self)@ == old(self)@.after_override(key, *op)
                },
                Err(error) => {
                    &&& final(self)@ == old(self)@
                    &&& match old(self)@.object_key(op.subject()@) {
                        Some(key) => false,
                        None => error.says("path not found or not real: "@ + op.subject().text()),
                    }
                },
            },
    {
        match self.metadata_object_key(op.path()) {
            Some(key) => {
                proof {
                    lemma_object_layer_exists(self@.layers, self@.hides, op.subject()@);
                }
                self.apply_metadata_override_to_object(key, op.path().clone(), op)
            },
            None => {
                let mut message = "path not found or not real: ".to_owned();
                message.append(op.path().as_str());
                Err(Error::msg(message))
            },
        }
    }

    /// Applies an operation to an object, whatever its path shows by now.
    pub fn apply_metadata_override_to_object(
        &mut self,
        key: MetadataObjectKey,
        sandbox_path: SandboxPath,
        op: &MetadataOperation,
    ) -> (result: Result<(), Error>)
        ensures
            match result {
                Ok(_) => old(self)@.has_layer(key.layer_id) && final(self)@ == old(
                    self,
                )@.after_override(key@, *op),
                Err(error) => !old(self)@.has_layer(key.layer_id) && final(self)@ == old(self)@
                    && error.says("metadata layer not found for path: "@ + sandbox_path.text()),
            },
    {
        if !self.has_layer(key.layer_id) {
            let mut message = "metadata layer not found for path: ".to_owned();
            message.append(sandbox_path.as_str());
            return Err(Error::msg(message));
        }
        let mut override_ = match self.metadata.get(&key) {
            Some(entry) => entry.override_,
            None => MetadataOverride::default(),
        };
        override_.apply(op);
        let _ = self.metadata.insert(
            key,
            MetadataEntry { sandbox_path: op.path().clone(), override_ },
        );
        Ok(())
    }

    fn has_layer(&self, id: u64) -> (found: bool)
        ensures
            found == self@.has_layer(id),
    {
        for i in 0..self.layers.len()
            invariant
                forall|j: int| 0 <= j < i ==> (#[trigger] self.layers@[j]).id != id,
        {
            if self.layers[i].id == id {
                assert(self@.layers[i as int].id == id);
                return true;
            }
        }
        false
    }

    /// The paths that show an override, in the order of their objects.
    pub fn metadata_differences(&self) -> (paths: Vec<SandboxPath>)
        ensures
            exists|keys: Seq<ObjectView>|
                {
                    &&& table::ascending::<MetadataObjectKey>(keys)
                    &&& forall|key: ObjectView| #[trigger] keys.contains(key) <==> self@.differs(key)
                    &&& paths@ == keys.map_values(
                        |key: ObjectView| self@.metadata[key].sandbox_path,
                    )
                },
    {
        let n = self.metadata.len();
        let ghost all = self.metadata.ordered_keys();
        let ghost mut keys: Seq<ObjectView> = Seq::empty();
        let mut paths: Vec<SandboxPath> = Vec::new();
        assert(paths@ =~= keys.map_values(|key: ObjectView| self@.metadata[key].sandbox_path));
        let mut i: usize = 0;
        while i < n
            invariant
                i <= n == all.len(),
                all == self.metadata.ordered_keys(),
                table::ascending::<MetadataObjectKey>(all),
                table::ascending::<MetadataObjectKey>(keys),
                forall|key: ObjectView| #[trigger]
                    keys.contains(key) <==> all.take(i as int).contains(key) && self@.differs(key),
                paths@ == keys.map_values(|key: ObjectView| self@.metadata[key].sandbox_path),
            decreases n - i,
        {
            let key = self.metadata.key_at(i);
            let entry = self.metadata.value_at(i);
            let here = self.metadata_object_key(&entry.sandbox_path);
            let visible = match here {
                Some(here) => here == *key,
                None => false,
            };
            proof {
                table::lemma_take_next(all, i as int);
            }
            if !entry.override_.is_empty() && visible {
                paths.push(entry.sandbox_path.clone());
                proof {
                    let longer = keys.push(key@);
                    assert forall|a: int, b: int| 0 <= a < b < longer.len() implies table::before(
                        MetadataObjectKey::code(#[trigger] longer[a]),
                        MetadataObjectKey::code(#[trigger] longer[b]),
                    ) by {
                        if b == keys.len() {
                            assert(keys.contains(keys[a]));
                            let j = choose|j: int|
                                0 <= j < i && all.take(i as int)[j] == keys[a];
                            assert(all[j] == keys[a]);
                            assert(all[i as int] == key@);
                        }
                    }
                    assert forall|k: ObjectView| #[trigger]
                        longer.contains(k) <==> all.take(i + 1).contains(k) && self@.differs(k) by {
                        if longer.contains(k) {
                            let j = choose|j: int| 0 <= j < longer.len() && longer[j] == k;
                            if j < keys.len() {
                                assert(keys[j] == k);
                                assert(keys.contains(k));
                            }
                        }
                        if keys.contains(k) {
                            let j = choose|j: int| 0 <= j < keys.len() && keys[j] == k;
                            assert(longer[j] == k);
                        }
                        assert(longer[keys.len() as int] == key@);
                    }
                    assert(paths@ =~= longer.map_values(
                        |key: ObjectView| self@.metadata[key].sandbox_path,
                    ));
                    keys = longer;
                }
            } else {
                proof {
                    assert(!self@.differs(key@));
                }
            }
            i += 1;
        }
        proof {
            assert(all.take(n as int) =~= all);
            assert forall|key: ObjectView| #[trigger] keys.contains(key) <==> self@.differs(key) by {
                assert(all.to_set().contains(key) == self@.metadata.dom().contains(key));
            }
        }
        paths
    }

    /// What a directory shows, by name. `listing` holds the names that the
    /// host lists for the directory, where its host path is a directory.
    pub fn children(&self, dir: &SandboxPath, listing: Option<&Vec<String>>) -> (result: Result<
        Table<String, ResolvedPath>,
        Error,
    >)
        ensures
            match result {
                Ok(children) => {
                    let names = host_names(listing);
                    &&& self@.overlay(dir@) is Real || self@.overlay(dir@) is VirtualDir
                    &&& forall|name: Seq<char>|
                        match #[trigger] self@.child(dir@, names, name) {
                            Some(resolved) => children@.contains_key(name) && children@[name]@
                                == resolved,
                            None => !children@.contains_key(name),
                        }
                },
                Err(error) => match self@.overlay(dir@) {
                    Overlay::Hidden => error.says(dir.text() + " is hidden"@),
                    Overlay::Missing => error.says(dir.text() + " does not exist"@),
                    _ => false,
                },
            },
    {
        if self.is_hidden(dir) {
            let mut message = dir.as_str().to_owned();
            message.append(" is hidden");
            return Err(Error::msg(message));
        }
        let is_real = match self.resolve(dir) {
            Some(ResolvedPath::Real { .. }) => true,
            Some(ResolvedPath::VirtualDir { .. }) => false,
            None => {
                let mut message = dir.as_str().to_owned();
                message.append(" does not exist");
                return Err(Error::msg(message));
            },
        };
        let mut children = self.mounted_children(dir);
        let ghost mounted = children@;
        if is_real {
            if let Some(names) = listing {
                let ghost texts = text::texts(names@);
                for i in 0..names.len()
                    invariant
                        texts == text::texts(names@),
                        forall|name: Seq<char>|
                            #![trigger children@.contains_key(name)]
                            {
                                let listed = texts.take(i as int).contains(name) && self@.resolution(
                                    child_path(dir@, name),
                                ) is Some;
                                &&& listed ==> children@.contains_key(name) && Some(
                                    children@[name]@,
                                ) == self@.resolution(child_path(dir@, name))
                                &&& !listed ==> (children@.contains_key(name)
                                    <==> mounted.contains_key(name)) && (children@.contains_key(name)
                                    ==> children@[name] == mounted[name])
                            },
                {
                    let name = &names[i];
                    let ghost before = children@;
                    let child = match dir.join(name.as_str()) {
                        Ok(child) => child,
                        Err(error) => {
                            return Err(error);
                        },
                    };
                    if let Some(resolved) = self.resolve(&child) {
                        let _ = children.insert(name.clone(), resolved);
                    }
                    proof {
                        assert(texts[i as int] == name@);
                        table::lemma_take_next(texts, i as int);
                        assert forall|k: Seq<char>| #[trigger] children@.contains_key(k) implies (k
                            == name@ || before.contains_key(k)) by {}
                    }
                }
                assert(texts.take(names.len() as int) =~= texts);
            }
        }
        proof {
            let names = host_names(listing);
            assert forall|name: Seq<char>|
                match #[trigger] self@.child(dir@, names, name) {
                    Some(resolved) => children@.contains_key(name) && children@[name]@ == resolved,
                    None => !children@.contains_key(name),
                } by {
                let _ = children@.contains_key(name);
                let _ = mounted.contains_key(name);
            }
        }
        Ok(children)
    }

    /// The directories on the way to the mounts below a directory.
    fn mounted_children(&self, dir: &SandboxPath) -> (children: Table<String, ResolvedPath>)
        ensures
            forall|name: Seq<char>|
                #![trigger children@.contains_key(name)]
                {
                    &&& children@.contains_key(name) <==> self@.leads_to_mount(dir@, name) && !(
                    self@.overlay(child_path(dir@, name)) is Hidden)
                    &&& children@.contains_key(name) ==> children@[name]@ == (
                    ResolvedView::VirtualDir { sandbox_path: child_path(dir@, name) })
                },
    {
        let mut children: Table<String, ResolvedPath> = Table::new();
        for i in 0..self.layers.len()
            invariant
                forall|name: Seq<char>|
                    #![trigger children@.contains_key(name)]
                    {
                        &&& children@.contains_key(name) <==> leads_within(
                            self.layers@,
                            i as int,
                            dir@,
                            name,
                        ) && !(self@.overlay(child_path(dir@, name)) is Hidden)
                        &&& children@.contains_key(name) ==> children@[name]@ == (
                        ResolvedView::VirtualDir { sandbox_path: child_path(dir@, name) })
                    },
        {
            let layer = &self.layers[i];
            let ghost before = children@;
            let below = layer.on_fs.starts_with(dir) && layer.on_fs != *dir;
            if below {
                proof {
                    lemma_strictly_longer(layer.on_fs@, dir@);
                }
                let name = layer.on_fs.name_at(dir.depth());
                if let Ok(child) = dir.join(name.as_str()) {
                    if !self.is_hidden(&child) {
                        let _ = children.insert(
                            name,
                            ResolvedPath::VirtualDir { sandbox_path: child },
                        );
                    }
                }
            }
            proof {
                assert forall|name: Seq<char>|
                    #![trigger children@.contains_key(name)]
                    {
                        &&& children@.contains_key(name) <==> leads_within(
                            self.layers@,
                            i + 1,
                            dir@,
                            name,
                        ) && !(self@.overlay(child_path(dir@, name)) is Hidden)
                        &&& children@.contains_key(name) ==> children@[name]@ == (
                        ResolvedView::VirtualDir { sandbox_path: child_path(dir@, name) })
                    } by {
                    lemma_leads_within_step(self.layers@, i as int, dir@, name);
                    let _ = before.contains_key(name);
                }
            }
        }
        proof {
            assert forall|name: Seq<char>|
                #![trigger children@.contains_key(name)]
                children@.contains_key(name) <==> self@.leads_to_mount(dir@, name) && !(self@.overlay(
                    child_path(dir@, name),
                ) is Hidden) by {
                assert(leads_within(self.layers@, self.layers.len() as int, dir@, name)
                    == self@.leads_to_mount(dir@, name)) by {
                    lemma_leads_within_all(self@, dir@, name);
                }
            }
        }
        children
    }
}

spec fn leads_within(layers: Seq<MountLayer>, n: int, dir: Seq<Seq<char>>, name: Seq<char>) -> bool {
    exists|i: int|
        {
            &&& 0 <= i < n
            &&& beneath(#[trigger] layers[i], dir)
            &&& layers[i].on_fs@[dir.len() as int] == name
        }
}

proof fn lemma_leads_within_step(
    layers: Seq<MountLayer>,
    n: int,
    dir: Seq<Seq<char>>,
    name: Seq<char>,
)
    requires
        0 <= n < layers.len(),
    ensures
        leads_within(layers, n + 1, dir, name) == (leads_within(layers, n, dir, name) || (beneath(
            layers[n],
            dir,
        ) && layers[n].on_fs@[dir.len() as int] == name)),
{
    if leads_within(layers, n, dir, name) {
        let i = choose|i: int|
            {
                &&& 0 <= i < n
                &&& beneath(#[trigger] layers[i], dir)
                &&& layers[i].on_fs@[dir.len() as int] == name
            };
        assert(beneath(layers[i], dir));
    }
    if leads_within(layers, n + 1, dir, name) {
        let i = choose|i: int|
            {
                &&& 0 <= i < n + 1
                &&& beneath(#[trigger] layers[i], dir)
                &&& layers[i].on_fs@[dir.len() as int] == name
            };
        if i < n {
            assert(beneath(layers[i], dir));
        }
    }
}

proof fn lemma_leads_within_all(sandbox: SandboxView, dir: Seq<Seq<char>>, name: Seq<char>)
    ensures
        leads_within(sandbox.layers, sandbox.layers.len() as int, dir, name) == sandbox.leads_to_mount(
            dir,
            name,
        ),
{
}

proof fn lemma_strictly_longer(a: Seq<Seq<char>>, b: Seq<Seq<char>>)
    requires
        path::under(a, b),
        a != b,
    ensures
        a.len() > b.len(),
{
    if a.len() == b.len() {
        assert(a =~= b);
    }
}

proof fn lemma_newest_covers(layers: Seq<MountLayer>, at: Seq<Seq<char>>)
    ensures
        newest_covering_layer(layers, at) matches Some(layer) ==> covers(layer, at)
            && layers.contains(layer),
    decreases layers.len(),
{
    if layers.len() > 0 {
        lemma_newest_covers(layers.drop_last(), at);
        if newest_covering_layer(layers, at) is Some {
            let layer = newest_covering_layer(layers, at)->0;
            if newest_covering_layer(layers.drop_last(), at) == Some(layer) {
                let i = choose|i: int|
                    0 <= i < layers.drop_last().len() && layers.drop_last()[i] == layer;
                assert(layers[i] == layer);
            } else {
                assert(layers[layers.len() - 1] == layer);
            }
        }
    }
}

proof fn lemma_layer_found(layers: Seq<MountLayer>, i: int, id: u64)
    requires
        0 <= i <= layers.len(),
        layer_with_id(layers.take(i), id) is Some,
    ensures
        layer_with_id(layers, id) == layer_with_id(layers.take(i), id),
    decreases layers.len(),
{
    if i == layers.len() {
        assert(layers.take(i) =~= layers);
    } else {
        assert(layers.drop_last().take(i) =~= layers.take(i));
        lemma_layer_found(layers.drop_last(), i, id);
    }
}

/// The layer of a path's object is mounted.
pub proof fn lemma_object_layer_exists(
    layers: Seq<MountLayer>,
    hides: Seq<HideRule>,
    at: Seq<Seq<char>>,
)
    ensures
        object_key(layers, hides, at) matches Some(key) ==> exists|i: int|
            0 <= i < layers.len() && (#[trigger] layers[i]).id == key.layer_id,
{
    if object_key(layers, hides, at) is Some {
        lemma_newest_covers(layers, at);
        let layer = newest_covering_layer(layers, at)->0;
        let i = choose|i: int| 0 <= i < layers.len() && layers[i] == layer;
        assert(layers[i].id == layer.id);
    }
}

} // verus!
