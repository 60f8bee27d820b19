//! Laws of the overlay: what mounting, hiding, overriding and protecting do to
//! the paths of a sandbox.

use vstd::prelude::*;

use crate::host::HostPath;
use crate::metadata::MetadataOverride;
use crate::metadata::ObjectView;
use crate::operation::MetadataOperation;
use crate::path;
use crate::path::SandboxPath;
use crate::policy;
use crate::policy::PassthroughRule;
use crate::policy::ProtectionKind;
use crate::policy::ProtectionRule;
use crate::sandbox;
use crate::sandbox::HideRule;
use crate::sandbox::MountLayer;
use crate::sandbox::Overlay;
use crate::sandbox::ResolvedView;
use crate::sandbox::SandboxView;
use crate::table::TableKey;

verus! {

/// The sandbox after mounting a host path.
pub open spec fn after_mount(before: SandboxView, local: HostPath, on_fs: SandboxPath) -> SandboxView {
    let id = before.next_order() as u64;
    SandboxView {
        layers: before.layers.push(MountLayer { id, local, on_fs }),
        next_layer_id: (id + 1) as u64,
        next_hide_id: (id + 1) as u64,
        ..before
    }
}

/// The sandbox after hiding a path.
pub open spec fn after_hide(before: SandboxView, at: SandboxPath) -> SandboxView {
    let id = before.next_order() as u64;
    SandboxView {
        hides: before.hides.push(HideRule { id, path: at }),
        next_layer_id: (id + 1) as u64,
        next_hide_id: (id + 1) as u64,
        ..before
    }
}

/// The sandbox after taking the last mount on a path away.
pub open spec fn after_unmount(before: SandboxView, on_fs: Seq<Seq<char>>) -> SandboxView {
    match sandbox::last_mount_on(before.layers, on_fs) {
        Some(i) => SandboxView { layers: before.layers.remove(i), ..before },
        None => before,
    }
}

proof fn lemma_layer_member(layers: Seq<MountLayer>, at: Seq<Seq<char>>)
    ensures
        sandbox::newest_covering_layer(layers, at) matches Some(layer) ==> sandbox::covers(layer, at)
            && exists|i: int| 0 <= i < layers.len() && #[trigger] layers[i] == layer,
        sandbox::newest_layer_beneath(layers, at) matches Some(layer) ==> sandbox::beneath(layer, at)
            && exists|i: int| 0 <= i < layers.len() && #[trigger] layers[i] == layer,
    decreases layers.len(),
{
    if layers.len() > 0 {
        lemma_layer_member(layers.drop_last(), at);
        let a = sandbox::newest_covering_layer(layers, at);
        if a is Some && a == sandbox::newest_covering_layer(layers.drop_last(), at) {
            let i = choose|i: int|
                0 <= i < layers.drop_last().len() && #[trigger] layers.drop_last()[i] == a->0;
            assert(layers[i] == a->0);
        }
        let b = sandbox::newest_layer_beneath(layers, at);
        if b is Some && b == sandbox::newest_layer_beneath(layers.drop_last(), at) {
            let i = choose|i: int|
                0 <= i < layers.drop_last().len() && #[trigger] layers.drop_last()[i] == b->0;
            assert(layers[i] == b->0);
        }
        assert(layers[layers.len() - 1] == layers.last());
    }
}

proof fn lemma_some_newest(layers: Seq<MountLayer>, at: Seq<Seq<char>>, i: int)
    requires
        0 <= i < layers.len(),
        path::under(layers[i].on_fs@, at),
    ensures
        sandbox::newest_covering_layer(layers, at) is Some || sandbox::newest_layer_beneath(
            layers,
            at,
        ) is Some,
    decreases layers.len(),
{
    if i < layers.len() - 1 {
        lemma_some_newest(layers.drop_last(), at, i);
    } else if layers.last().on_fs@ == at {
        assert(sandbox::covers(layers.last(), at));
    }
}

proof fn lemma_hide_member(hides: Seq<HideRule>, at: Seq<Seq<char>>)
    ensures
        sandbox::newest_covering_hide(hides, at) matches Some(hide) ==> path::under(at, hide.path@)
            && exists|i: int| 0 <= i < hides.len() && #[trigger] hides[i] == hide,
    decreases hides.len(),
{
    if hides.len() > 0 {
        lemma_hide_member(hides.drop_last(), at);
        let a = sandbox::newest_covering_hide(hides, at);
        if a is Some && a == sandbox::newest_covering_hide(hides.drop_last(), at) {
            let i = choose|i: int|
                0 <= i < hides.drop_last().len() && #[trigger] hides.drop_last()[i] == a->0;
            assert(hides[i] == a->0);
        }
        assert(hides[hides.len() - 1] == hides.last());
    }
}

proof fn lemma_newest_are_old(s: SandboxView, at: Seq<Seq<char>>)
    requires
        s.well_ordered(),
    ensures
        sandbox::newest_covering_layer(s.layers, at) matches Some(layer) ==> layer.id < s.next_order(),
        sandbox::newest_layer_beneath(s.layers, at) matches Some(layer) ==> layer.id < s.next_order(),
        sandbox::newest_covering_hide(s.hides, at) matches Some(hide) ==> hide.id < s.next_order(),
{
    lemma_layer_member(s.layers, at);
    lemma_hide_member(s.hides, at);
}

proof fn lemma_pushed_layer(s: SandboxView, local: HostPath, on_fs: SandboxPath, at: Seq<Seq<char>>)
    requires
        s.well_ordered(),
        s.next_order() < u64::MAX,
    ensures
        ({
            let next = after_mount(s, local, on_fs);
            let layer = MountLayer { id: s.next_order() as u64, local, on_fs };
            &&& sandbox::newest_covering_layer(next.layers, at) == if path::under(at, on_fs@) {
                Some(layer)
            } else {
                sandbox::newest_covering_layer(s.layers, at)
            }
            &&& sandbox::newest_layer_beneath(next.layers, at) == if path::under(on_fs@, at) && on_fs@
                != at {
                Some(layer)
            } else {
                sandbox::newest_layer_beneath(s.layers, at)
            }
        }),
{
    let next = after_mount(s, local, on_fs);
    lemma_newest_are_old(s, at);
    assert(next.layers.drop_last() =~= s.layers);
}

impl SandboxView {
    /// Layers and hides have numbers of their own, and overrides belong to layers
    /// that were mounted.
    pub open spec fn sound(self) -> bool {
        &&& self.well_ordered()
        &&& forall|key: ObjectView| #[trigger]
            self.metadata.contains_key(key) ==> key.layer_id < self.next_order()
    }
}

/// A new sandbox is sound, and mounting, unmounting, hiding and overriding keep
/// it so.
pub proof fn lemma_order_is_kept(
    s: SandboxView,
    local: HostPath,
    on_fs: SandboxPath,
    hidden: SandboxPath,
    key: ObjectView,
    operation: MetadataOperation,
)
    requires
        s.sound(),
    ensures
        sandbox::fresh_sandbox(s.name, s.log_path).sound(),
        s.next_order() < u64::MAX ==> after_mount(s, local, on_fs).sound(),
        s.next_order() < u64::MAX ==> after_hide(s, hidden).sound(),
        after_unmount(s, on_fs@).sound(),
        s.has_layer(key.layer_id) ==> s.after_override(key, operation).sound(),
{
    lemma_last_mount(s.layers, on_fs@);
    if s.next_order() < u64::MAX {
        let mounted = after_mount(s, local, on_fs);
        let covered = after_hide(s, hidden);
        assert(mounted.next_order() == s.next_order() + 1);
        assert(covered.next_order() == s.next_order() + 1);
    }
    let next = after_unmount(s, on_fs@);
    if sandbox::last_mount_on(s.layers, on_fs@) is Some {
        let k = sandbox::last_mount_on(s.layers, on_fs@)->0;
        assert forall|i: int| 0 <= i < next.layers.len() implies next.layers[i] == s.layers[if i < k {
            i
        } else {
            i + 1
        }] by {}
    }
}

proof fn lemma_last_mount(layers: Seq<MountLayer>, at: Seq<Seq<char>>)
    ensures
        match sandbox::last_mount_on(layers, at) {
            Some(i) => 0 <= i < layers.len() && layers[i].on_fs@ == at && forall|j: int|
                i < j < layers.len() ==> (#[trigger] layers[j]).on_fs@ != at,
            None => forall|j: int|
                0 <= j < layers.len() ==> (#[trigger] layers[j]).on_fs@ != at,
        },
    decreases layers.len(),
{
    if layers.len() > 0 {
        let front = layers.drop_last();
        lemma_last_mount(front, at);
        assert forall|j: int| 0 <= j < front.len() implies front[j] == layers[j] by {}
    }
}

/// Unmounting takes the newest layer on the path away, and no other: of the
/// layers mounted on exactly the path it has the greatest number, and where
/// there is none nothing changes.
pub proof fn lemma_unmount_takes_the_newest(s: SandboxView, on_fs: Seq<Seq<char>>, other: int)
    requires
        s.well_ordered(),
        0 <= other < s.layers.len(),
    ensures
        ({
            let after = after_unmount(s, on_fs);
            match sandbox::last_mount_on(s.layers, on_fs) {
                Some(i) => {
                    &&& 0 <= i < s.layers.len()
                    &&& s.layers[i].on_fs@ == on_fs
                    &&& s.layers[other].on_fs@ == on_fs ==> s.layers[other].id <= s.layers[i].id
                    &&& !after.has_layer(s.layers[i].id)
                    &&& other != i ==> after.has_layer(s.layers[other].id)
                },
                None => s.layers[other].on_fs@ != on_fs && after == s,
            }
        }),
{
    lemma_last_mount(s.layers, on_fs);
    if let Some(i) = sandbox::last_mount_on(s.layers, on_fs) {
        let after = after_unmount(s, on_fs);
        let left = after.layers;
        assert(left == s.layers.remove(i));
        assert forall|k: int| 0 <= k < left.len() implies (#[trigger] left[k]).id
            != s.layers[i].id by {
            let from = if k < i {
                k
            } else {
                k + 1
            };
            assert(left[k] == s.layers[from]);
        }
        if other < i {
            assert(after.layers[other] == s.layers[other]);
        } else if other > i {
            assert(after.layers[other - 1] == s.layers[other]);
        }
    }
}

/// The newest mount wins: every path on or below it resolves into it.
pub proof fn lemma_newest_mount_wins(
    s: SandboxView,
    local: HostPath,
    on_fs: SandboxPath,
    at: Seq<Seq<char>>,
)
    requires
        s.well_ordered(),
        s.next_order() < u64::MAX,
        path::under(at, on_fs@),
    ensures
        ({
            let layer = MountLayer { id: s.next_order() as u64, local, on_fs };
            after_mount(s, local, on_fs).resolution(at) == Some(
                ResolvedView::Real {
                    local_path: sandbox::local_path(layer, at),
                    layer_id: layer.id,
                    sandbox_path: at,
                },
            )
        }),
{
    lemma_pushed_layer(s, local, on_fs, at);
    lemma_newest_are_old(s, at);
}

/// A mount makes every directory on the way to it visible, through hides too.
pub proof fn lemma_mount_is_reachable(
    s: SandboxView,
    local: HostPath,
    on_fs: SandboxPath,
    at: Seq<Seq<char>>,
)
    requires
        s.well_ordered(),
        s.next_order() < u64::MAX,
        path::under(on_fs@, at),
    ensures
        after_mount(s, local, on_fs).resolution(at) is Some,
{
    lemma_pushed_layer(s, local, on_fs, at);
    lemma_newest_are_old(s, at);
    if on_fs@ == at {
        assert(path::under(at, on_fs@));
    }
}

/// A mount changes nothing for paths that are neither above nor below it.
pub proof fn lemma_mount_leaves_other_paths(
    s: SandboxView,
    local: HostPath,
    on_fs: SandboxPath,
    at: Seq<Seq<char>>,
)
    requires
        s.well_ordered(),
        s.next_order() < u64::MAX,
        !path::under(at, on_fs@),
        !path::under(on_fs@, at),
    ensures
        after_mount(s, local, on_fs).resolution(at) == s.resolution(at),
{
    lemma_pushed_layer(s, local, on_fs, at);
}

/// A hide covers its path and everything below it; only the root stays.
pub proof fn lemma_hide_covers(s: SandboxView, hidden: SandboxPath, at: Seq<Seq<char>>)
    requires
        s.well_ordered(),
        s.next_order() < u64::MAX,
        path::under(at, hidden@),
        at.len() > 0,
    ensures
        after_hide(s, hidden).overlay(at) is Hidden,
        after_hide(s, hidden).resolution(at) is None,
{
    let next = after_hide(s, hidden);
    lemma_newest_are_old(s, at);
    assert(next.hides.drop_last() =~= s.hides);
}

/// A hide changes nothing for paths that are not below it.
pub proof fn lemma_hide_leaves_other_paths(s: SandboxView, hidden: SandboxPath, at: Seq<Seq<char>>)
    requires
        !path::under(at, hidden@),
    ensures
        after_hide(s, hidden).resolution(at) == s.resolution(at),
{
    let next = after_hide(s, hidden);
    assert(next.hides.drop_last() =~= s.hides);
}

/// A newer mount on a hidden path shows it again.
pub proof fn lemma_newer_mount_overrides_hide(
    s: SandboxView,
    at: SandboxPath,
    local: HostPath,
)
    requires
        s.well_ordered(),
        s.next_order() + 1 < u64::MAX,
    ensures
        after_mount(after_hide(s, at), local, at).overlay(at@) is Real,
{
    let hidden = after_hide(s, at);
    assert(hidden.well_ordered());
    assert(path::under(at@, at@));
    lemma_newest_mount_wins(hidden, local, at, at@);
}

/// A directory lists no name that is hidden, and every name that it lists stands
/// for something. A directory that only leads to layers lists nothing but the
/// way to them.
pub proof fn lemma_listing_is_visible(
    s: SandboxView,
    dir: Seq<Seq<char>>,
    listing: Option<Seq<Seq<char>>>,
    name: Seq<char>,
)
    ensures
        s.overlay(sandbox::child_path(dir, name)) is Hidden ==> s.child(dir, listing, name) is None,
        s.child(dir, listing, name) is Some ==> s.resolution(sandbox::child_path(dir, name)) is Some,
        s.overlay(dir) is VirtualDir && s.child(dir, listing, name) is Some ==> s.leads_to_mount(
            dir,
            name,
        ),
{
    if s.child(dir, listing, name) is Some && !s.lists(dir, listing, name) {
        let i = choose|i: int|
            {
                &&& 0 <= i < s.layers.len()
                &&& sandbox::beneath(#[trigger] s.layers[i], dir)
                &&& s.layers[i].on_fs@[dir.len() as int] == name
            };
        let on_fs = s.layers[i].on_fs@;
        let at = dir.push(name);
        path::lemma_names_are_normal(s.layers[i].on_fs);
        assert(on_fs.len() > dir.len()) by {
            if on_fs.len() == dir.len() {
                assert(on_fs =~= dir);
            }
        }
        assert(path::normal(on_fs[dir.len() as int]));
        path::lemma_join_name(dir, name);
        assert(on_fs.take(at.len() as int) =~= at);
        assert(path::under(on_fs, at));
        lemma_some_newest(s.layers, at, i);
    }
}

/// Every directory on the way to a mount lists the next name of the way, through
/// hides too.
pub proof fn lemma_mount_is_listed(
    s: SandboxView,
    local: HostPath,
    on_fs: SandboxPath,
    dir: Seq<Seq<char>>,
    listing: Option<Seq<Seq<char>>>,
)
    requires
        s.well_ordered(),
        s.next_order() < u64::MAX,
        path::under(on_fs@, dir),
        on_fs@ != dir,
    ensures
        after_mount(s, local, on_fs).child(dir, listing, on_fs@[dir.len() as int]) is Some,
{
    let next = after_mount(s, local, on_fs);
    let name = on_fs@[dir.len() as int];
    let at = dir.push(name);
    path::lemma_names_are_normal(on_fs);
    assert(on_fs@.len() > dir.len()) by {
        if on_fs@.len() == dir.len() {
            assert(on_fs@ =~= dir);
        }
    }
    assert(path::normal(on_fs@[dir.len() as int]));
    path::lemma_join_name(dir, name);
    assert(on_fs@.take(at.len() as int) =~= at);
    assert(path::under(on_fs@, at));
    lemma_mount_is_reachable(s, local, on_fs, at);
    let layer = next.layers[s.layers.len() as int];
    assert(sandbox::beneath(layer, dir) && layer.on_fs@[dir.len() as int] == name);
    assert(next.leads_to_mount(dir, name));
}

/// Mounts on one path form a stack: taking the newest away restores what every
/// path stood for, and every override that it showed.
pub proof fn lemma_unmount_undoes_mount(
    s: SandboxView,
    local: HostPath,
    on_fs: SandboxPath,
    at: Seq<Seq<char>>,
)
    ensures
        after_unmount(after_mount(s, local, on_fs), on_fs@).layers == s.layers,
        after_unmount(after_mount(s, local, on_fs), on_fs@).resolution(at) == s.resolution(at),
        after_unmount(after_mount(s, local, on_fs), on_fs@).override_at(at) == s.override_at(at),
{
    let mounted = after_mount(s, local, on_fs);
    assert(mounted.layers.last().on_fs@ == on_fs@);
    assert(mounted.layers.remove(mounted.layers.len() - 1) =~= s.layers);
}

/// Overrides belong to the layer that they were set in: a mount over a path
/// shows none of them.
pub proof fn lemma_mount_covers_overrides(
    s: SandboxView,
    local: HostPath,
    on_fs: SandboxPath,
    at: Seq<Seq<char>>,
)
    requires
        s.sound(),
        s.next_order() < u64::MAX,
        path::under(at, on_fs@),
    ensures
        after_mount(s, local, on_fs).override_at(at) is None,
{
    lemma_newest_mount_wins(s, local, on_fs, at);
}

/// A path of a sandbox in order has an object exactly where it is real: the
/// layer that shows it, and the rest of the path.
pub proof fn lemma_object_of_real_path(s: SandboxView, at: Seq<Seq<char>>)
    requires
        s.well_ordered(),
    ensures
        match s.overlay(at) {
            Overlay::Real(layer) => s.object_key(at) == Some(
                ObjectView {
                    layer_id: layer.id,
                    relative_path: at.skip(layer.on_fs@.len() as int),
                },
            ),
            _ => s.object_key(at) is None,
        },
{
    if s.overlay(at) is Real {
        lemma_layer_member(s.layers, at);
        let layer = sandbox::newest_covering_layer(s.layers, at)->0;
        let i = choose|i: int| 0 <= i < s.layers.len() && #[trigger] s.layers[i] == layer;
        lemma_first_with_id(s.layers, i);
    }
}

proof fn lemma_first_with_id(layers: Seq<MountLayer>, k: int)
    requires
        0 <= k < layers.len(),
        forall|i: int, j: int|
            0 <= i < j < layers.len() ==> (#[trigger] layers[i]).id != (#[trigger] layers[j]).id,
    ensures
        sandbox::layer_with_id(layers, layers[k].id) == Some(layers[k]),
    decreases layers.len(),
{
    let front = layers.drop_last();
    assert forall|i: int, j: int| 0 <= i < j < front.len() implies (#[trigger] front[i]).id != (
    #[trigger] front[j]).id by {
        assert(layers[i].id != layers[j].id);
    }
    if k < layers.len() - 1 {
        lemma_first_with_id(front, k);
    } else {
        lemma_absent_id(front, layers[k].id);
    }
}

proof fn lemma_absent_id(layers: Seq<MountLayer>, id: u64)
    requires
        forall|i: int| 0 <= i < layers.len() ==> (#[trigger] layers[i]).id != id,
    ensures
        sandbox::layer_with_id(layers, id) is None,
    decreases layers.len(),
{
    if layers.len() > 0 {
        let front = layers.drop_last();
        assert forall|i: int| 0 <= i < front.len() implies (#[trigger] front[i]).id != id by {
            assert(layers[i].id != id);
        }
        lemma_absent_id(front, id);
        assert(layers[layers.len() - 1].id != id);
    }
}

/// What is set is shown: after an operation its path shows the override with
/// what the operation sets, and other objects keep theirs.
pub proof fn lemma_override_is_shown(
    s: SandboxView,
    operation: MetadataOperation,
    key: ObjectView,
    other: Seq<Seq<char>>,
)
    requires
        s.object_key(operation.subject()@) == Some(key),
    ensures
        s.after_override(key, operation).override_at(operation.subject()@) == Some(
            (match s.override_at(operation.subject()@) {
                Some(before) => before,
                None => MetadataOverride::nothing(),
            }).after(operation),
        ),
        s.object_key(other) != Some(key) ==> s.after_override(key, operation).override_at(other)
            == s.override_at(other),
{
}

/// Rules follow the path, not what is mounted there.
pub proof fn lemma_rules_ignore_mounts(
    s: SandboxView,
    local: HostPath,
    on_fs: SandboxPath,
    hidden: SandboxPath,
    kind: ProtectionKind,
    at: Seq<char>,
    is_dir: bool,
)
    ensures
        after_mount(s, local, on_fs).protects(kind, at, is_dir) == s.protects(kind, at, is_dir),
        after_hide(s, hidden).protects(kind, at, is_dir) == s.protects(kind, at, is_dir),
        after_unmount(s, on_fs@).protects(kind, at, is_dir) == s.protects(kind, at, is_dir),
        after_mount(s, local, on_fs).passes(kind, at, is_dir) == s.passes(kind, at, is_dir),
        after_hide(s, hidden).passes(kind, at, is_dir) == s.passes(kind, at, is_dir),
        after_unmount(s, on_fs@).passes(kind, at, is_dir) == s.passes(kind, at, is_dir),
{
}

/// A rule asks before exactly the effects of its kind on the paths that its
/// pattern selects; other effects are asked about as before.
pub proof fn lemma_rule_reach(
    s: SandboxView,
    rule: ProtectionRule,
    kind: ProtectionKind,
    at: Seq<char>,
    is_dir: bool,
)
    ensures
        ({
            let next = SandboxView { protection_rules: s.protection_rules.push(rule), ..s };
            next.protects(kind, at, is_dir) == (s.protects(kind, at, is_dir) || (rule.kind == kind
                && policy::selects(rule.pattern@, at, is_dir)))
        }),
{
    let next = SandboxView { protection_rules: s.protection_rules.push(rule), ..s };
    if s.protects(kind, at, is_dir) {
        let i = choose|i: int|
            {
                &&& 0 <= i < s.protection_rules.len()
                &&& (#[trigger] s.protection_rules[i]).kind == kind
                &&& policy::selects(s.protection_rules[i].pattern@, at, is_dir)
            };
        assert(next.protection_rules[i] == s.protection_rules[i]);
    }
    if next.protects(kind, at, is_dir) {
        let i = choose|i: int|
            {
                &&& 0 <= i < next.protection_rules.len()
                &&& (#[trigger] next.protection_rules[i]).kind == kind
                &&& policy::selects(next.protection_rules[i].pattern@, at, is_dir)
            };
        if i < s.protection_rules.len() {
            assert(next.protection_rules[i] == s.protection_rules[i]);
        }
    }
    assert(next.protection_rules[s.protection_rules.len() as int] == rule);
}

/// A passthrough rule lets exactly the effects of its kind pass on the paths
/// that its pattern selects: one for writes does not let metadata changes pass.
pub proof fn lemma_passthrough_reach(
    s: SandboxView,
    rule: PassthroughRule,
    kind: ProtectionKind,
    at: Seq<char>,
    is_dir: bool,
)
    ensures
        ({
            let next = SandboxView { passthrough_rules: s.passthrough_rules.push(rule), ..s };
            &&& next.passes(kind, at, is_dir) == (s.passes(kind, at, is_dir) || (rule.kind == kind
                && policy::selects(rule.pattern@, at, is_dir)))
            &&& next.protects(kind, at, is_dir) == s.protects(kind, at, is_dir)
        }),
{
    let next = SandboxView { passthrough_rules: s.passthrough_rules.push(rule), ..s };
    if s.passes(kind, at, is_dir) {
        let i = choose|i: int|
            {
                &&& 0 <= i < s.passthrough_rules.len()
                &&& (#[trigger] s.passthrough_rules[i]).kind == kind
                &&& policy::selects(s.passthrough_rules[i].pattern@, at, is_dir)
            };
        assert(next.passthrough_rules[i] == s.passthrough_rules[i]);
    }
    if next.passes(kind, at, is_dir) {
        let i = choose|i: int|
            {
                &&& 0 <= i < next.passthrough_rules.len()
                &&& (#[trigger] next.passthrough_rules[i]).kind == kind
                &&& policy::selects(next.passthrough_rules[i].pattern@, at, is_dir)
            };
        if i < s.passthrough_rules.len() {
            assert(next.passthrough_rules[i] == s.passthrough_rules[i]);
        }
    }
    assert(next.passthrough_rules[s.passthrough_rules.len() as int] == rule);
}

/// Removing a rule that was just added restores the list; adding it twice is
/// adding it once.
pub proof fn lemma_unprotect_undoes_protect(rules: Seq<ProtectionRule>, rule: ProtectionRule, at: int)
    requires
        !sandbox::has_protection_rule(rules, rule.kind, rule.pattern@),
        sandbox::first_protection_rule(rules.push(rule), rule.kind, rule.pattern@, at),
    ensures
        rules.push(rule).remove(at) == rules,
        sandbox::has_protection_rule(rules.push(rule), rule.kind, rule.pattern@),
{
    if at < rules.len() {
        assert(rules.push(rule)[at] == rules[at]);
        assert(rules[at].key() == (rule.pattern@, rule.kind));
    }
    assert(rules.push(rule).remove(at) =~= rules);
    assert(rules.push(rule)[rules.len() as int].key() == (rule.pattern@, rule.kind));
}

} // verus!
