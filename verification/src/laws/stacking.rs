//! Which mount or hide decides what a path stands for, in terms of the numbers
//! that mounts and hides got.

use vstd::prelude::*;

use crate::host;
use crate::host::HostPath;
use crate::overlay;
use crate::path;
use crate::path::SandboxPath;
use crate::sandbox;
use crate::sandbox::HideRule;
use crate::sandbox::MountLayer;
use crate::sandbox::ResolvedView;
use crate::sandbox::SandboxView;

verus! {

proof fn lemma_newest_layer(layers: Seq<MountLayer>, at: Seq<Seq<char>>)
    ensures
        match sandbox::newest_covering_layer(layers, at) {
            Some(layer) => {
                &&& layer.on_fs@.is_prefix_of(at)
                &&& exists|i: int| 0 <= i < layers.len() && #[trigger] layers[i] == layer
                &&& forall|j: int|
                    0 <= j < layers.len() && (#[trigger] layers[j]).on_fs@.is_prefix_of(at)
                        ==> layers[j].id <= layer.id
            },
            None => forall|j: int|
                0 <= j < layers.len() ==> !(#[trigger] layers[j]).on_fs@.is_prefix_of(at),
        },
    decreases layers.len(),
{
    if layers.len() > 0 {
        let front = layers.drop_last();
        lemma_newest_layer(front, at);
        assert forall|j: int| 0 <= j < front.len() implies front[j] == layers[j] by {}
        assert(layers[layers.len() - 1] == layers.last());
        if let Some(layer) = sandbox::newest_covering_layer(front, at) {
            let i = choose|i: int| 0 <= i < front.len() && #[trigger] front[i] == layer;
            assert(layers[i] == layer);
        }
    }
}

proof fn lemma_newest_hide(hides: Seq<HideRule>, at: Seq<Seq<char>>)
    ensures
        match sandbox::newest_covering_hide(hides, at) {
            Some(hide) => {
                &&& hide.path@.is_prefix_of(at)
                &&& exists|i: int| 0 <= i < hides.len() && #[trigger] hides[i] == hide
                &&& forall|j: int|
                    0 <= j < hides.len() && (#[trigger] hides[j]).path@.is_prefix_of(at)
                        ==> hides[j].id <= hide.id
            },
            None => forall|j: int|
                0 <= j < hides.len() ==> !(#[trigger] hides[j]).path@.is_prefix_of(at),
        },
    decreases hides.len(),
{
    if hides.len() > 0 {
        let front = hides.drop_last();
        lemma_newest_hide(front, at);
        assert forall|j: int| 0 <= j < front.len() implies front[j] == hides[j] by {}
        assert(hides[hides.len() - 1] == hides.last());
        if let Some(hide) = sandbox::newest_covering_hide(front, at) {
            let i = choose|i: int| 0 <= i < front.len() && #[trigger] front[i] == hide;
            assert(hides[i] == hide);
        }
    }
}

proof fn lemma_newest_beneath(layers: Seq<MountLayer>, at: Seq<Seq<char>>)
    ensures
        match sandbox::newest_layer_beneath(layers, at) {
            Some(layer) => {
                &&& at.is_prefix_of(layer.on_fs@)
                &&& at.len() < layer.on_fs@.len()
                &&& exists|i: int| 0 <= i < layers.len() && #[trigger] layers[i] == layer
                &&& forall|j: int|
                    0 <= j < layers.len() && at.is_prefix_of((#[trigger] layers[j]).on_fs@)
                        && at.len() < layers[j].on_fs@.len() ==> layers[j].id <= layer.id
            },
            None => forall|j: int|
                0 <= j < layers.len() && at.is_prefix_of((#[trigger] layers[j]).on_fs@) ==> at.len()
                    == layers[j].on_fs@.len(),
        },
    decreases layers.len(),
{
    if layers.len() > 0 {
        let front = layers.drop_last();
        lemma_newest_beneath(front, at);
        assert forall|j: int| 0 <= j < front.len() implies front[j] == layers[j] by {}
        assert(layers[layers.len() - 1] == layers.last());
        if at.is_prefix_of(layers.last().on_fs@) && at.len() == layers.last().on_fs@.len() {
            assert(layers.last().on_fs@ =~= at);
        }
        if let Some(layer) = sandbox::newest_layer_beneath(front, at) {
            let i = choose|i: int| 0 <= i < front.len() && #[trigger] front[i] == layer;
            assert(layers[i] == layer);
        }
    }
}

/// The newest mount on or above a path decides what the path stands for, unless
/// a newer hide covers the path: it stands for the host path below the mounted
/// one, whatever is mounted below it. No hide covers the root.
pub proof fn lemma_newest_mount_decides(s: SandboxView, at: Seq<Seq<char>>, i: int)
    requires
        s.well_ordered(),
        0 <= i < s.layers.len(),
        s.layers[i].on_fs@.is_prefix_of(at),
        forall|j: int|
            0 <= j < s.layers.len() && (#[trigger] s.layers[j]).on_fs@.is_prefix_of(at)
                ==> s.layers[j].id <= s.layers[i].id,
        at.len() > 0 ==> forall|h: int|
            0 <= h < s.hides.len() && (#[trigger] s.hides[h]).path@.is_prefix_of(at)
                ==> s.hides[h].id < s.layers[i].id,
    ensures
        s.resolution(at) == Some(
            ResolvedView::Real {
                local_path: host::host_join(
                    s.layers[i].local@,
                    path::relative(at.skip(s.layers[i].on_fs@.len() as int)),
                ),
                layer_id: s.layers[i].id,
                sandbox_path: at,
            },
        ),
{
    lemma_newest_layer(s.layers, at);
    lemma_newest_hide(s.hides, at);
    let layer = sandbox::newest_covering_layer(s.layers, at)->0;
    let k = choose|k: int| 0 <= k < s.layers.len() && #[trigger] s.layers[k] == layer;
    assert(s.layers[k].on_fs@.is_prefix_of(at));
    assert(k == i);
}

/// Below the newest hide, where no newer mount covers the path, the path stands
/// for nothing, except that directories on the way to newer mounts are shown.
pub proof fn lemma_newest_hide_decides(s: SandboxView, at: Seq<Seq<char>>, h: int)
    requires
        s.well_ordered(),
        at.len() > 0,
        0 <= h < s.hides.len(),
        s.hides[h].path@.is_prefix_of(at),
        forall|j: int|
            0 <= j < s.hides.len() && (#[trigger] s.hides[j]).path@.is_prefix_of(at)
                ==> s.hides[j].id <= s.hides[h].id,
        forall|i: int|
            0 <= i < s.layers.len() && (#[trigger] s.layers[i]).on_fs@.is_prefix_of(at)
                ==> s.layers[i].id < s.hides[h].id,
    ensures
        (exists|i: int|
            0 <= i < s.layers.len() && at.is_prefix_of((#[trigger] s.layers[i]).on_fs@) && at.len()
                < s.layers[i].on_fs@.len() && s.layers[i].id > s.hides[h].id) ==> s.resolution(at)
            == Some(ResolvedView::VirtualDir { sandbox_path: at }),
        (forall|i: int|
            0 <= i < s.layers.len() && at.is_prefix_of((#[trigger] s.layers[i]).on_fs@) && at.len()
                < s.layers[i].on_fs@.len() ==> s.layers[i].id < s.hides[h].id) ==> s.resolution(at)
            is None && s.overlay(at) is Hidden,
{
    lemma_newest_layer(s.layers, at);
    lemma_newest_hide(s.hides, at);
    lemma_newest_beneath(s.layers, at);
    let hide = sandbox::newest_covering_hide(s.hides, at)->0;
    let k = choose|k: int| 0 <= k < s.hides.len() && #[trigger] s.hides[k] == hide;
    assert(s.hides[k].path@.is_prefix_of(at));
    assert(k == h);
    if sandbox::newest_covering_layer(s.layers, at) is Some {
        let layer = sandbox::newest_covering_layer(s.layers, at)->0;
        let i = choose|i: int| 0 <= i < s.layers.len() && #[trigger] s.layers[i] == layer;
        assert(s.layers[i].on_fs@.is_prefix_of(at));
    }
    if sandbox::newest_layer_beneath(s.layers, at) is Some {
        let layer = sandbox::newest_layer_beneath(s.layers, at)->0;
        let i = choose|i: int| 0 <= i < s.layers.len() && #[trigger] s.layers[i] == layer;
        assert(at.is_prefix_of(s.layers[i].on_fs@));
    }
}

/// A path that nothing covers stands for nothing, except the root and the
/// directories on the way to mounts.
pub proof fn lemma_uncovered_paths(s: SandboxView, at: Seq<Seq<char>>)
    requires
        forall|i: int|
            0 <= i < s.layers.len() ==> !(#[trigger] s.layers[i]).on_fs@.is_prefix_of(at),
        forall|h: int| 0 <= h < s.hides.len() ==> !(#[trigger] s.hides[h]).path@.is_prefix_of(at),
    ensures
        at.len() == 0 || (exists|i: int|
            0 <= i < s.layers.len() && at.is_prefix_of((#[trigger] s.layers[i]).on_fs@))
            ==> s.resolution(at) == Some(ResolvedView::VirtualDir { sandbox_path: at }),
        at.len() > 0 && (forall|i: int|
            0 <= i < s.layers.len() ==> !at.is_prefix_of((#[trigger] s.layers[i]).on_fs@))
            ==> s.resolution(at) is None && s.overlay(at) is Missing,
{
    lemma_newest_layer(s.layers, at);
    lemma_newest_hide(s.hides, at);
    lemma_newest_beneath(s.layers, at);
    if sandbox::newest_covering_layer(s.layers, at) is Some {
        let layer = sandbox::newest_covering_layer(s.layers, at)->0;
        let i = choose|i: int| 0 <= i < s.layers.len() && #[trigger] s.layers[i] == layer;
        assert(s.layers[i].on_fs@.is_prefix_of(at));
    }
    if sandbox::newest_covering_hide(s.hides, at) is Some {
        let hide = sandbox::newest_covering_hide(s.hides, at)->0;
        let h = choose|h: int| 0 <= h < s.hides.len() && #[trigger] s.hides[h] == hide;
        assert(s.hides[h].path@.is_prefix_of(at));
    }
    if sandbox::newest_layer_beneath(s.layers, at) is None {
        assert forall|i: int|
            0 <= i < s.layers.len() && at.is_prefix_of((#[trigger] s.layers[i]).on_fs@) implies false by {
            assert(s.layers[i].on_fs@ =~= at);
        }
    } else {
        let layer = sandbox::newest_layer_beneath(s.layers, at)->0;
        let i = choose|i: int| 0 <= i < s.layers.len() && #[trigger] s.layers[i] == layer;
        assert(at.is_prefix_of(s.layers[i].on_fs@));
    }
}

/// The root always stands for something, and no hide changes what for.
pub proof fn lemma_root_stays(s: SandboxView, hidden: SandboxPath)
    ensures
        s.resolution(Seq::empty()) is Some,
        overlay::after_hide(s, hidden).resolution(Seq::empty()) == s.resolution(Seq::empty()),
{
}

/// A mount changes what a directory above it stands for only where that was
/// nothing: what a layer showed there it shows still, and a directory that led
/// to other mounts leads to this one too.
pub proof fn lemma_mount_keeps_directories_above(
    s: SandboxView,
    local: HostPath,
    on_fs: SandboxPath,
    at: Seq<Seq<char>>,
)
    requires
        s.well_ordered(),
        s.next_order() < u64::MAX,
        at.is_prefix_of(on_fs@),
        at.len() < on_fs@.len(),
    ensures
        ({
            let after = overlay::after_mount(s, local, on_fs).resolution(at);
            &&& s.resolution(at) is Some ==> after == s.resolution(at)
            &&& s.resolution(at) is None ==> after == Some(
                ResolvedView::VirtualDir { sandbox_path: at },
            )
        }),
{
    let next = overlay::after_mount(s, local, on_fs);
    assert(next.layers.drop_last() =~= s.layers);
    assert(!on_fs@.is_prefix_of(at));
    lemma_newest_layer(s.layers, at);
    lemma_newest_hide(s.hides, at);
    lemma_newest_beneath(s.layers, at);
    if sandbox::newest_covering_hide(s.hides, at) is Some {
        let hide = sandbox::newest_covering_hide(s.hides, at)->0;
        let h = choose|h: int| 0 <= h < s.hides.len() && #[trigger] s.hides[h] == hide;
        assert(s.hides[h].id < s.next_order());
    }
    if sandbox::newest_layer_beneath(s.layers, at) is Some {
        let layer = sandbox::newest_layer_beneath(s.layers, at)->0;
        let i = choose|i: int| 0 <= i < s.layers.len() && #[trigger] s.layers[i] == layer;
        assert(s.layers[i].id < s.next_order());
    }
}

/// Mounting and hiding add one entry with the next number, unmounting takes one
/// away, and none of them changes the other entries, the rules, the overrides or
/// the attached views.
pub proof fn lemma_stacking_changes_nothing_else(
    s: SandboxView,
    local: HostPath,
    at: SandboxPath,
    i: int,
)
    requires
        s.next_order() < u64::MAX,
    ensures
        ({
            let mounted = overlay::after_mount(s, local, at);
            let hidden = overlay::after_hide(s, at);
            let taken = overlay::after_unmount(s, at@);
            &&& mounted.layers.len() == s.layers.len() + 1
            &&& 0 <= i < s.layers.len() ==> mounted.layers[i] == s.layers[i]
            &&& mounted.layers.last().local == local
            &&& mounted.layers.last().on_fs == at
            &&& mounted.layers.last().id == s.next_order()
            &&& mounted.next_order() == s.next_order() + 1
            &&& mounted.hides == s.hides
            &&& mounted.metadata == s.metadata
            &&& mounted.protection_rules == s.protection_rules
            &&& mounted.passthrough_rules == s.passthrough_rules
            &&& mounted.attaches == s.attaches
            &&& mounted.name == s.name
            &&& mounted.log_path == s.log_path
            &&& hidden.hides.len() == s.hides.len() + 1
            &&& 0 <= i < s.hides.len() ==> hidden.hides[i] == s.hides[i]
            &&& hidden.hides.last().path == at
            &&& hidden.hides.last().id == s.next_order()
            &&& hidden.next_order() == s.next_order() + 1
            &&& hidden.layers == s.layers
            &&& hidden.metadata == s.metadata
            &&& hidden.protection_rules == s.protection_rules
            &&& hidden.passthrough_rules == s.passthrough_rules
            &&& hidden.attaches == s.attaches
            &&& hidden.name == s.name
            &&& hidden.log_path == s.log_path
            &&& taken.hides == s.hides
            &&& taken.metadata == s.metadata
            &&& taken.next_order() == s.next_order()
            &&& taken.protection_rules == s.protection_rules
            &&& taken.passthrough_rules == s.passthrough_rules
            &&& taken.attaches == s.attaches
            &&& taken.name == s.name
            &&& taken.log_path == s.log_path
        }),
{
}

proof fn lemma_relative_starts(names: Seq<Seq<char>>)
    requires
        path::all_normal(names),
        names.len() > 0,
    ensures
        path::relative(names).len() > 0,
        path::relative(names)[0] != '/',
    decreases names.len(),
{
    assert(path::normal(names[0]));
    assert(names[0].contains(names[0][0]));
    if names.len() > 1 {
        let front = names.drop_last();
        assert forall|i: int| 0 <= i < front.len() implies path::normal(#[trigger] front[i]) by {
            assert(front[i] == names[i]);
        }
        lemma_relative_starts(front);
    }
}

/// Below a mount, host paths follow sandbox paths name by name: the mount itself
/// stands for the mounted path, and one name more in the sandbox is that name
/// more on the host.
pub proof fn lemma_host_path_follows(layer: MountLayer, at: Seq<Seq<char>>, name: Seq<char>)
    requires
        layer.on_fs@.is_prefix_of(at),
        path::all_normal(at),
        path::normal(name),
    ensures
        ({
            let base = layer.local@;
            let top = sandbox::local_path(layer, layer.on_fs@);
            let here = sandbox::local_path(layer, at);
            let below = sandbox::local_path(layer, at.push(name));
            &&& top == if base.len() == 0 || base.last() == '/' {
                base
            } else {
                base.push('/')
            }
            &&& at == layer.on_fs@ ==> below == here + name
            &&& at != layer.on_fs@ ==> below == here.push('/') + name
        }),
{
    let base = layer.local@;
    let n = layer.on_fs@.len() as int;
    let rest = at.skip(n);
    let longer = at.push(name).skip(n);
    assert(layer.on_fs@.skip(n) =~= Seq::<Seq<char>>::empty());
    assert(longer =~= rest.push(name));
    assert(longer.drop_last() =~= rest);
    assert(base + path::relative(Seq::empty()) =~= base);
    assert(base.push('/') + path::relative(Seq::empty()) =~= base.push('/'));
    assert(name.contains(name[0]));
    if rest.len() == 0 {
        assert(at =~= layer.on_fs@);
        assert(path::relative(longer) == name);
        assert(sandbox::local_path(layer, at) + name =~= sandbox::local_path(layer, at.push(name)));
    } else {
        assert forall|i: int| 0 <= i < rest.len() implies path::normal(#[trigger] rest[i]) by {
            assert(rest[i] == at[n + i]);
        }
        lemma_relative_starts(rest);
        assert forall|i: int| 0 <= i < longer.len() implies path::normal(#[trigger] longer[i]) by {
            if i < rest.len() {
                assert(rest[i] == at[n + i]);
            }
        }
        lemma_relative_starts(longer);
        let front = path::relative(rest);
        assert(path::relative(longer) =~= front.push('/') + name);
        assert(sandbox::local_path(layer, at.push(name)) =~= sandbox::local_path(layer, at).push(
            '/',
        ) + name);
    }
}

/// Different paths are different objects: overrides of one never show at the
/// other.
pub proof fn lemma_objects_are_apart(s: SandboxView, a: Seq<Seq<char>>, b: Seq<Seq<char>>)
    requires
        s.well_ordered(),
        s.object_key(a) is Some,
        s.object_key(a) == s.object_key(b),
    ensures
        a == b,
        s.resolution(a) is Some && s.resolution(a)->0 is Real,
        s.resolution(a)->0->layer_id == s.object_key(a)->0.layer_id,
{
    overlay::lemma_object_of_real_path(s, a);
    overlay::lemma_object_of_real_path(s, b);
    lemma_newest_layer(s.layers, a);
    lemma_newest_layer(s.layers, b);
    let x = s.overlay(a)->Real_0;
    let y = s.overlay(b)->Real_0;
    let i = choose|i: int| 0 <= i < s.layers.len() && #[trigger] s.layers[i] == x;
    let j = choose|j: int| 0 <= j < s.layers.len() && #[trigger] s.layers[j] == y;
    assert(s.layers[i].id == s.layers[j].id);
    assert(i == j);
    let n = x.on_fs@.len() as int;
    assert(a.skip(n) == b.skip(n));
    assert(a =~= x.on_fs@ + a.skip(n));
    assert(b =~= x.on_fs@ + b.skip(n));
}

/// A directory of a layer shows every name of the host that stands for
/// something, as what it stands for. A name that the host does not have and that
/// no mount leads through is not shown.
pub proof fn lemma_directory_shows_the_host(
    s: SandboxView,
    dir: Seq<Seq<char>>,
    names: Seq<Seq<char>>,
    name: Seq<char>,
)
    requires
        path::normal(name),
    ensures
        s.resolution(dir) is Some && s.resolution(dir)->0 is Real && names.contains(name)
            && s.resolution(dir.push(name)) is Some ==> s.child(dir, Some(names), name)
            == s.resolution(dir.push(name)),
        !names.contains(name) && (forall|i: int|
            0 <= i < s.layers.len() ==> !dir.push(name).is_prefix_of((#[trigger] s.layers[i]).on_fs@))
            ==> s.child(dir, Some(names), name) is None,
        !(s.resolution(dir) is Some && s.resolution(dir)->0 is Real) ==> s.child(
            dir,
            Some(names),
            name,
        ) == s.child(dir, None, name),
{
    path::lemma_join_name(dir, name);
    assert(!path::is_absolute(name)) by {
        if path::is_absolute(name) {
            assert(name.contains(name[0]));
        }
    }
    if !names.contains(name) && s.leads_to_mount(dir, name) {
        let i = choose|i: int|
            {
                &&& 0 <= i < s.layers.len()
                &&& sandbox::beneath(#[trigger] s.layers[i], dir)
                &&& s.layers[i].on_fs@[dir.len() as int] == name
            };
        let on_fs = s.layers[i].on_fs@;
        assert(on_fs.len() > dir.len()) by {
            if on_fs.len() == dir.len() {
                assert(on_fs =~= dir);
            }
        }
        assert(dir.push(name).is_prefix_of(on_fs));
    }
}

} // verus!
