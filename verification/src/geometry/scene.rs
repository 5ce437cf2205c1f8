//! The bookkeeping of scenes: which meshes each scene holds, which meshes await removal
//! at the next commit, and which simulators each scene is registered with.
//!
//! Scenes live in a [`SceneRegistry`] and are named by their index in it. An instanced
//! mesh makes its sub-scene a child of the scene that holds it. A simulator that uses a
//! scene registers with the scene and, through every instanced mesh, with every scene
//! below it: a scene reached along `k` paths is registered `k` times as often. Paths are
//! followed through at most as many scenes as the registry holds, which bounds every walk
//! when a scene reaches itself.

use vstd::prelude::*;

use crate::sealed::Sealed;
use crate::geometry::slot_map::{
    contents_wf, entries_in_slot_order, key_is_occupied_version, key_slot, slot_map_contains_key,
    slot_map_contents, slot_map_entries, slot_map_insert, slot_map_len, slot_map_new,
    slot_map_remove, MeshSlots,
};

verus! {

/// Marker trait for the ray tracers whose scenes can be saved to a serialized object.
pub trait SaveableAsSerialized: Sealed {}

/// Marker trait for the ray tracers whose scenes can be saved to an OBJ file.
pub trait SaveableAsObj: Sealed {}

// ---------------------------------------------------------------------------------------
// Slot order
// ---------------------------------------------------------------------------------------

/// The entries of a slot map's contents, in slot order.
pub open spec fn entries_of(contents: Map<u64, u64>) -> Seq<(u64, u64)> {
    choose|s: Seq<(u64, u64)>| entries_in_slot_order(contents, s)
}

/// The children of a scene: the sub-scenes of its instanced meshes, in slot order,
/// followed by the sub-scenes of the instanced meshes that await removal.
pub open spec fn children_of(instanced: Map<u64, u64>, pending: Seq<u64>) -> Seq<u64> {
    entries_of(instanced).map_values(|e: (u64, u64)| e.1) + pending
}

/// Two listings of the same contents in slot order are the same listing.
pub proof fn lemma_slot_order_unique(contents: Map<u64, u64>, s1: Seq<(u64, u64)>, s2: Seq<(u64, u64)>)
    requires
        contents_wf(contents),
        entries_in_slot_order(contents, s1),
        entries_in_slot_order(contents, s2),
    ensures
        s1 == s2,
    decreases s1.len(),
{
    if s1.len() == 0 {
        if s2.len() > 0 {
            let k = s2[0].0;
            assert(contents.dom().contains(k));
        }
        assert(s1 =~= s2);
    } else {
        if s2.len() == 0 {
            let k = s1[0].0;
            assert(contents.dom().contains(k));
        }
        let k1 = s1[0].0;
        let k2 = s2[0].0;
        assert(contents.dom().contains(k1));
        assert(contents.dom().contains(k2));
        let j2 = choose|i: int| 0 <= i < s2.len() && s2[i].0 == k1;
        let j1 = choose|i: int| 0 <= i < s1.len() && s1[i].0 == k2;
        if j2 > 0 {
            assert(key_slot(s2[0].0) < key_slot(s2[j2].0));
        }
        if j1 > 0 {
            assert(key_slot(s1[0].0) < key_slot(s1[j1].0));
        }
        assert(k1 == k2);
        let rest = contents.remove(k1);
        let t1 = s1.drop_first();
        let t2 = s2.drop_first();
        assert(contents_wf(rest)) by {
            assert forall|a: u64, b: u64|
                rest.dom().contains(a) && rest.dom().contains(b) && a != b implies key_slot(a)
                != key_slot(b) by {
                assert(contents.dom().contains(a) && contents.dom().contains(b));
            }
        }
        assert forall|i: int| 0 <= i < t1.len() implies #[trigger] rest.dom().contains(t1[i].0)
            && rest[t1[i].0] == t1[i].1 by {
            assert(key_slot(s1[0].0) < key_slot(s1[i + 1].0));
            assert(contents.dom().contains(s1[i + 1].0));
            assert(t1[i] == s1[i + 1]);
        }
        assert forall|k: u64| #[trigger]
            rest.dom().contains(k) implies exists|i: int| 0 <= i < t1.len() && t1[i].0 == k by {
            let i = choose|i: int| 0 <= i < s1.len() && s1[i].0 == k;
            assert(t1[i - 1].0 == k);
        }
        assert forall|i: int| 0 <= i < t2.len() implies #[trigger] rest.dom().contains(t2[i].0)
            && rest[t2[i].0] == t2[i].1 by {
            assert(key_slot(s2[0].0) < key_slot(s2[i + 1].0));
            assert(contents.dom().contains(s2[i + 1].0));
            assert(t2[i] == s2[i + 1]);
        }
        assert forall|k: u64| #[trigger]
            rest.dom().contains(k) implies exists|i: int| 0 <= i < t2.len() && t2[i].0 == k by {
            let i = choose|i: int| 0 <= i < s2.len() && s2[i].0 == k;
            assert(t2[i - 1].0 == k);
        }
        assert forall|i: int, j: int| 0 <= i < j < t1.len() implies key_slot(#[trigger] t1[i].0)
            < key_slot(#[trigger] t1[j].0) by {
            assert(key_slot(s1[i + 1].0) < key_slot(s1[j + 1].0));
        }
        assert forall|i: int, j: int| 0 <= i < j < t2.len() implies key_slot(#[trigger] t2[i].0)
            < key_slot(#[trigger] t2[j].0) by {
            assert(key_slot(s2[i + 1].0) < key_slot(s2[j + 1].0));
        }
        lemma_slot_order_unique(rest, t1, t2);
        assert(s1 =~= s2) by {
            assert forall|i: int| 0 <= i < s1.len() implies s1[i] == s2[i] by {
                if i > 0 {
                    assert(s1[i] == t1[i - 1]);
                }
            }
        }
    }
}

/// A listing in slot order is the one that [`entries_of`] names.
pub proof fn lemma_entries_of(contents: Map<u64, u64>, s: Seq<(u64, u64)>)
    requires
        contents_wf(contents),
        entries_in_slot_order(contents, s),
    ensures
        entries_of(contents) == s,
{
    let c = entries_of(contents);
    assert(entries_in_slot_order(contents, c));
    lemma_slot_order_unique(contents, c, s);
}

/// A finite, non-empty set of keys has one whose slot is the largest.
proof fn lemma_max_slot_exists(keys: Set<u64>)
    requires
        keys.finite(),
        keys.len() > 0,
    ensures
        exists|m: u64| keys.contains(m) && forall|k: u64| #[trigger] keys.contains(k) ==> key_slot(k) <= key_slot(m),
    decreases keys.len(),
{
    let x = keys.choose();
    assert(keys.contains(x));
    let rest = keys.remove(x);
    if rest.len() == 0 {
        assert forall|k: u64| #[trigger] keys.contains(k) implies key_slot(k) <= key_slot(x) by {
            if k != x {
                assert(rest.contains(k));
            }
        }
    } else {
        lemma_max_slot_exists(rest);
        let m = choose|m: u64| rest.contains(m) && forall|k: u64| #[trigger] rest.contains(k) ==> key_slot(k) <= key_slot(m);
        if key_slot(x) <= key_slot(m) {
            assert forall|k: u64| #[trigger] keys.contains(k) implies key_slot(k) <= key_slot(m) by {
                if k != x {
                    assert(rest.contains(k));
                }
            }
        } else {
            assert forall|k: u64| #[trigger] keys.contains(k) implies key_slot(k) <= key_slot(x) by {
                if k != x {
                    assert(rest.contains(k));
                }
            }
        }
    }
}

/// The contents of every slot map can be listed in slot order.
pub proof fn lemma_slot_order_exists(contents: Map<u64, u64>)
    requires
        contents_wf(contents),
    ensures
        entries_in_slot_order(contents, entries_of(contents)),
    decreases contents.dom().len(),
{
    if contents.dom().len() == 0 {
        let s = Seq::<(u64, u64)>::empty();
        assert forall|k: u64| #[trigger] contents.dom().contains(k) implies exists|i: int|
            0 <= i < s.len() && s[i].0 == k by {
            assert(contents.dom().len() > 0) by {
                vstd::set_lib::lemma_set_empty_equivalency_len(contents.dom());
            }
        }
        assert(entries_in_slot_order(contents, s));
    } else {
        lemma_max_slot_exists(contents.dom());
        let m = choose|m: u64| contents.dom().contains(m) && forall|k: u64| #[trigger] contents.dom().contains(k) ==> key_slot(k) <= key_slot(m);
        let rest = contents.remove(m);
        assert(contents_wf(rest)) by {
            assert forall|a: u64, b: u64|
                rest.dom().contains(a) && rest.dom().contains(b) && a != b implies key_slot(a)
                != key_slot(b) by {
                assert(contents.dom().contains(a) && contents.dom().contains(b));
            }
        }
        lemma_slot_order_exists(rest);
        let t = entries_of(rest);
        let s = t.push((m, contents[m]));
        assert forall|i: int| 0 <= i < s.len() implies #[trigger] contents.dom().contains(s[i].0)
            && contents[s[i].0] == s[i].1 by {
            if i < t.len() {
                assert(rest.dom().contains(t[i].0));
            }
        }
        assert forall|k: u64| #[trigger] contents.dom().contains(k) implies exists|i: int|
            0 <= i < s.len() && s[i].0 == k by {
            if k == m {
                assert(s[t.len() as int].0 == k);
            } else {
                assert(rest.dom().contains(k));
                let i = choose|i: int| 0 <= i < t.len() && t[i].0 == k;
                assert(s[i].0 == k);
            }
        }
        assert forall|i: int, j: int| 0 <= i < j < s.len() implies key_slot(#[trigger] s[i].0)
            < key_slot(#[trigger] s[j].0) by {
            if j < t.len() {
                assert(key_slot(t[i].0) < key_slot(t[j].0));
            } else {
                assert(rest.dom().contains(t[i].0));
                assert(contents.dom().contains(t[i].0));
                assert(key_slot(t[i].0) <= key_slot(m));
                assert(t[i].0 != m);
            }
        }
        assert(entries_in_slot_order(contents, s));
    }
}

/// Listing a map with one more key in slot order puts that key's entry among the
/// entries of the map, which keep their order.
pub proof fn lemma_entries_after_insert(m: Map<u64, u64>, k: u64, v: u64)
    requires
        contents_wf(m),
        !m.dom().contains(k),
        contents_wf(m.insert(k, v)),
    ensures
        exists|i: int|
            0 <= i <= entries_of(m).len() && entries_of(m.insert(k, v)) == #[trigger] entries_of(m).insert(
                i,
                (k, v),
            ),
{
    let m2 = m.insert(k, v);
    lemma_slot_order_exists(m2);
    let s2 = entries_of(m2);
    assert(m2.dom().contains(k));
    let i = choose|i: int| 0 <= i < s2.len() && s2[i].0 == k;
    let t = s2.remove(i);
    assert forall|j: int| 0 <= j < t.len() implies #[trigger] m.dom().contains(t[j].0) && m[t[j].0] == t[j].1 by {
        let j2 = if j < i { j } else { j + 1 };
        assert(t[j] == s2[j2]);
        assert(m2.dom().contains(s2[j2].0));
        if j2 < i {
            assert(key_slot(s2[j2].0) < key_slot(s2[i].0));
        } else {
            assert(key_slot(s2[i].0) < key_slot(s2[j2].0));
        }
    }
    assert forall|key: u64| #[trigger] m.dom().contains(key) implies exists|j: int| 0 <= j < t.len() && t[j].0 == key by {
        assert(m2.dom().contains(key));
        let j2 = choose|j: int| 0 <= j < s2.len() && s2[j].0 == key;
        let j = if j2 < i { j2 } else { j2 - 1 };
        assert(t[j] == s2[j2]);
    }
    assert forall|a: int, b: int| 0 <= a < b < t.len() implies key_slot(#[trigger] t[a].0) < key_slot(
        #[trigger] t[b].0,
    ) by {
        let a2 = if a < i { a } else { a + 1 };
        let b2 = if b < i { b } else { b + 1 };
        assert(t[a] == s2[a2]);
        assert(t[b] == s2[b2]);
        assert(key_slot(s2[a2].0) < key_slot(s2[b2].0));
    }
    lemma_entries_of(m, t);
    assert(s2[i] == (k, v));
    assert(s2 =~= t.insert(i, (k, v)));
}

// ---------------------------------------------------------------------------------------
// Paths through the scene hierarchy
// ---------------------------------------------------------------------------------------

/// The number of paths from scene `from` to scene `to` that visit at most `fuel` scenes,
/// `edges[x]` listing the children of scene `x` (a child listed twice is two paths).
pub open spec fn num_paths(edges: Seq<Seq<u64>>, from: int, to: int, fuel: nat) -> nat
    decreases fuel, 0nat,
{
    if fuel == 0 {
        0
    } else {
        (if from == to {
            1nat
        } else {
            0nat
        }) + sum_paths(edges, edges[from], to, (fuel - 1) as nat)
    }
}

/// The number of paths to `to`, visiting at most `fuel` scenes, that start at one of
/// `children` (summed over the list).
pub open spec fn sum_paths(edges: Seq<Seq<u64>>, children: Seq<u64>, to: int, fuel: nat) -> nat
    decreases fuel, children.len(),
{
    if children.len() == 0 {
        0
    } else {
        sum_paths(edges, children.drop_last(), to, fuel) + num_paths(
            edges,
            children.last() as int,
            to,
            fuel,
        )
    }
}

/// The sum over a prefix grows by the paths from the next child.
pub proof fn lemma_sum_paths_prefix(edges: Seq<Seq<u64>>, children: Seq<u64>, i: int, to: int, fuel: nat)
    requires
        0 <= i < children.len(),
    ensures
        sum_paths(edges, children.take(i + 1), to, fuel) == sum_paths(
            edges,
            children.take(i),
            to,
            fuel,
        ) + num_paths(edges, children[i] as int, to, fuel),
{
    assert(children.take(i + 1).drop_last() =~= children.take(i));
}

/// A sum over a prefix is at most the sum over the whole list.
pub proof fn lemma_sum_paths_prefix_le(edges: Seq<Seq<u64>>, children: Seq<u64>, i: int, to: int, fuel: nat)
    requires
        0 <= i <= children.len(),
    ensures
        sum_paths(edges, children.take(i), to, fuel) <= sum_paths(edges, children, to, fuel),
    decreases children.len() - i,
{
    if i < children.len() {
        lemma_sum_paths_prefix(edges, children, i, to, fuel);
        lemma_sum_paths_prefix_le(edges, children, i + 1, to, fuel);
    } else {
        assert(children.take(i) =~= children);
    }
}

/// Paths from `x` that never reach scene `s` count the same in two hierarchies that
/// differ only in the children of `s`.
pub proof fn lemma_paths_avoiding(edges: Seq<Seq<u64>>, edges2: Seq<Seq<u64>>, s: int, x: int, fuel: nat)
    requires
        edges_in_range(edges),
        edges2.len() == edges.len(),
        forall|z: int| 0 <= z < edges.len() && z != s ==> #[trigger] edges2[z] == edges[z],
        0 <= x < edges.len(),
        num_paths(edges, x, s, fuel) == 0,
    ensures
        forall|y: int| #[trigger] num_paths(edges2, x, y, fuel) == num_paths(edges, x, y, fuel),
    decreases fuel, 0nat,
{
    if fuel > 0 {
        assert(x != s);
        assert(edges2[x] == edges[x]);
        lemma_sum_paths_avoiding(edges, edges2, s, edges[x], (fuel - 1) as nat);
        assert forall|y: int| #[trigger] num_paths(edges2, x, y, fuel) == num_paths(edges, x, y, fuel) by {
            assert(sum_paths(edges2, edges[x], y, (fuel - 1) as nat) == sum_paths(
                edges,
                edges[x],
                y,
                (fuel - 1) as nat,
            ));
        }
    }
}

/// [`lemma_paths_avoiding`] summed over `children`.
pub proof fn lemma_sum_paths_avoiding(
    edges: Seq<Seq<u64>>,
    edges2: Seq<Seq<u64>>,
    s: int,
    children: Seq<u64>,
    fuel: nat,
)
    requires
        edges_in_range(edges),
        edges2.len() == edges.len(),
        forall|z: int| 0 <= z < edges.len() && z != s ==> #[trigger] edges2[z] == edges[z],
        forall|i: int| 0 <= i < children.len() ==> #[trigger] children[i] < edges.len(),
        sum_paths(edges, children, s, fuel) == 0,
    ensures
        forall|y: int| #[trigger] sum_paths(edges2, children, y, fuel) == sum_paths(edges, children, y, fuel),
    decreases fuel, children.len(),
{
    if children.len() > 0 {
        let init = children.drop_last();
        let last = children.last() as int;
        assert(children[children.len() - 1] < edges.len());
        lemma_sum_paths_avoiding(edges, edges2, s, init, fuel);
        lemma_paths_avoiding(edges, edges2, s, last, fuel);
        assert forall|y: int| #[trigger] sum_paths(edges2, children, y, fuel) == sum_paths(edges, children, y, fuel) by {
            assert(sum_paths(edges2, init, y, fuel) == sum_paths(edges, init, y, fuel));
            assert(num_paths(edges2, last, y, fuel) == num_paths(edges, last, y, fuel));
        }
    }
}

/// The sum over a list is the sum without its `i`-th child plus the paths from that child.
pub proof fn lemma_sum_paths_remove(edges: Seq<Seq<u64>>, children: Seq<u64>, i: int, to: int, fuel: nat)
    requires
        0 <= i < children.len(),
    ensures
        sum_paths(edges, children, to, fuel) == sum_paths(edges, children.remove(i), to, fuel)
            + num_paths(edges, children[i] as int, to, fuel),
    decreases children.len(),
{
    if i == children.len() - 1 {
        assert(children.remove(i) =~= children.drop_last());
    } else {
        lemma_sum_paths_remove(edges, children.drop_last(), i, to, fuel);
        assert(children.drop_last().remove(i) =~= children.remove(i).drop_last());
        assert(children.remove(i).last() == children.last());
    }
}

/// Two lists of children that are equal, or equal but for one child that the first
/// holds at some place and the second at its end.
pub open spec fn same_children(l1: Seq<u64>, l2: Seq<u64>) -> bool {
    ||| l1 == l2
    ||| exists|base: Seq<u64>, i: int, v: u64|
        0 <= i <= base.len() && l1 == #[trigger] base.insert(i, v) && l2 == base.push(v)
}

/// Hierarchies whose scenes have the same children, up to where one child stands, have
/// the same number of paths between any two scenes.
pub proof fn lemma_paths_same_children(edges1: Seq<Seq<u64>>, edges2: Seq<Seq<u64>>, x: int, fuel: nat)
    requires
        edges_in_range(edges1),
        edges_in_range(edges2),
        edges1.len() == edges2.len(),
        forall|z: int| 0 <= z < edges1.len() ==> #[trigger] same_children(edges1[z], edges2[z]),
        0 <= x < edges1.len(),
    ensures
        forall|y: int| #[trigger] num_paths(edges1, x, y, fuel) == num_paths(edges2, x, y, fuel),
    decreases fuel, 0nat,
{
    if fuel > 0 {
        let f1 = (fuel - 1) as nat;
        let l1 = edges1[x];
        let l2 = edges2[x];
        assert(same_children(l1, l2));
        lemma_sum_paths_same_children(edges1, edges2, l1, f1);
        assert forall|y: int| #[trigger] num_paths(edges1, x, y, fuel) == num_paths(edges2, x, y, fuel) by {
            assert(sum_paths(edges1, l1, y, f1) == sum_paths(edges2, l1, y, f1));
            if l1 != l2 {
                let (base, i, v) = choose|base: Seq<u64>, i: int, v: u64|
                    0 <= i <= base.len() && l1 == #[trigger] base.insert(i, v) && l2 == base.push(v);
                lemma_sum_paths_remove(edges2, l1, i, y, f1);
                assert(l1.remove(i) =~= base);
                assert(l1[i] == v);
                assert(l2.drop_last() =~= base);
            }
        }
    }
}

/// [`lemma_paths_same_children`] summed over `children`.
pub proof fn lemma_sum_paths_same_children(
    edges1: Seq<Seq<u64>>,
    edges2: Seq<Seq<u64>>,
    children: Seq<u64>,
    fuel: nat,
)
    requires
        edges_in_range(edges1),
        edges_in_range(edges2),
        edges1.len() == edges2.len(),
        forall|z: int| 0 <= z < edges1.len() ==> #[trigger] same_children(edges1[z], edges2[z]),
        forall|i: int| 0 <= i < children.len() ==> #[trigger] children[i] < edges1.len(),
    ensures
        forall|y: int| #[trigger] sum_paths(edges1, children, y, fuel) == sum_paths(edges2, children, y, fuel),
    decreases fuel, children.len(),
{
    if children.len() > 0 {
        let init = children.drop_last();
        let last = children.last() as int;
        assert(children[children.len() - 1] < edges1.len());
        lemma_sum_paths_same_children(edges1, edges2, init, fuel);
        lemma_paths_same_children(edges1, edges2, last, fuel);
        assert forall|y: int| #[trigger] sum_paths(edges1, children, y, fuel) == sum_paths(edges2, children, y, fuel) by {
            assert(sum_paths(edges1, init, y, fuel) == sum_paths(edges2, init, y, fuel));
            assert(num_paths(edges1, last, y, fuel) == num_paths(edges2, last, y, fuel));
        }
    }
}

// ---------------------------------------------------------------------------------------
// Registrations
// ---------------------------------------------------------------------------------------

/// Simulator-specific registration state for a scene hierarchy.
#[derive(Debug)]
pub struct SceneSimulationRegistration {
    /// Identifiers of the simulation locks that must be held while committing this scene.
    pub locks: Vec<u64>,
    /// Number of references from this simulator into this scene subtree.
    pub ref_count: usize,
}

/// What a registration amounts to: its lock identifiers and its reference count.
pub open spec fn registration_view(r: SceneSimulationRegistration) -> (Seq<u64>, nat) {
    (r.locks@, r.ref_count as nat)
}

/// The registration of `simulator` in a list of registrations keyed by simulator.
pub open spec fn registration_lookup(regs: Seq<(u64, SceneSimulationRegistration)>, simulator: u64) -> Option<
    (Seq<u64>, nat),
> {
    if exists|i: int| 0 <= i < regs.len() && regs[i].0 == simulator {
        let i = choose|i: int| 0 <= i < regs.len() && regs[i].0 == simulator;
        Some(registration_view(regs[i].1))
    } else {
        None
    }
}

/// `snapshot` lists the simulators of `regs` with copies of their registrations.
pub open spec fn snapshot_of(
    snapshot: Seq<(u64, SceneSimulationRegistration)>,
    regs: Seq<(u64, SceneSimulationRegistration)>,
) -> bool {
    &&& snapshot.len() == regs.len()
    &&& forall|i: int|
        0 <= i < snapshot.len() ==> {
            &&& #[trigger] snapshot[i].0 == regs[i].0
            &&& registration_view(snapshot[i].1) == registration_view(regs[i].1)
        }
}

/// No simulator has two registrations in the list.
pub open spec fn keys_distinct(regs: Seq<(u64, SceneSimulationRegistration)>) -> bool {
    forall|i: int, j: int| 0 <= i < j < regs.len() ==> #[trigger] regs[i].0 != #[trigger] regs[j].0
}

/// The lookup finds the entry that holds the simulator.
pub proof fn lemma_lookup_at(regs: Seq<(u64, SceneSimulationRegistration)>, i: int)
    requires
        keys_distinct(regs),
        0 <= i < regs.len(),
    ensures
        registration_lookup(regs, regs[i].0) == Some(registration_view(regs[i].1)),
{
    let sim = regs[i].0;
    let j = choose|j: int| 0 <= j < regs.len() && regs[j].0 == sim;
    if j < i {
        assert(regs[j].0 != regs[i].0);
    } else if j > i {
        assert(regs[i].0 != regs[j].0);
    }
}

/// The lookup finds nothing for a simulator that no entry holds.
pub proof fn lemma_lookup_absent(regs: Seq<(u64, SceneSimulationRegistration)>, simulator: u64)
    requires
        forall|i: int| 0 <= i < regs.len() ==> #[trigger] regs[i].0 != simulator,
    ensures
        registration_lookup(regs, simulator) is None,
{
}

/// Updating the entry at `i` (keeping its simulator) changes that simulator's lookup only.
pub proof fn lemma_lookup_update(
    regs: Seq<(u64, SceneSimulationRegistration)>,
    i: int,
    e: (u64, SceneSimulationRegistration),
)
    requires
        keys_distinct(regs),
        0 <= i < regs.len(),
        e.0 == regs[i].0,
    ensures
        keys_distinct(regs.update(i, e)),
        registration_lookup(regs.update(i, e), e.0) == Some(registration_view(e.1)),
        forall|sim: u64|
            sim != e.0 ==> #[trigger] registration_lookup(regs.update(i, e), sim)
                == registration_lookup(regs, sim),
{
    let regs2 = regs.update(i, e);
    assert forall|a: int, b: int| 0 <= a < b < regs2.len() implies #[trigger] regs2[a].0
        != #[trigger] regs2[b].0 by {
        assert(regs[a].0 != regs[b].0);
    }
    lemma_lookup_at(regs2, i);
    assert forall|sim: u64| sim != e.0 implies #[trigger] registration_lookup(regs2, sim)
        == registration_lookup(regs, sim) by {
        if exists|j: int| 0 <= j < regs.len() && regs[j].0 == sim {
            let j = choose|j: int| 0 <= j < regs.len() && regs[j].0 == sim;
            lemma_lookup_at(regs, j);
            lemma_lookup_at(regs2, j);
        } else {
            assert forall|j: int| 0 <= j < regs2.len() implies #[trigger] regs2[j].0 != sim by {
                if j != i {
                    assert(regs2[j] == regs[j]);
                }
            }
        }
    }
}

/// Appending an entry for a new simulator adds that simulator's lookup only.
pub proof fn lemma_lookup_push(regs: Seq<(u64, SceneSimulationRegistration)>, e: (u64, SceneSimulationRegistration))
    requires
        keys_distinct(regs),
        forall|j: int| 0 <= j < regs.len() ==> #[trigger] regs[j].0 != e.0,
    ensures
        keys_distinct(regs.push(e)),
        registration_lookup(regs.push(e), e.0) == Some(registration_view(e.1)),
        forall|sim: u64|
            sim != e.0 ==> #[trigger] registration_lookup(regs.push(e), sim) == registration_lookup(
                regs,
                sim,
            ),
{
    let regs2 = regs.push(e);
    assert forall|a: int, b: int| 0 <= a < b < regs2.len() implies #[trigger] regs2[a].0
        != #[trigger] regs2[b].0 by {
        if b == regs.len() {
            assert(regs[a].0 != e.0);
        } else {
            assert(regs[a].0 != regs[b].0);
        }
    }
    lemma_lookup_at(regs2, regs.len() as int);
    assert forall|sim: u64| sim != e.0 implies #[trigger] registration_lookup(regs2, sim)
        == registration_lookup(regs, sim) by {
        if exists|j: int| 0 <= j < regs.len() && regs[j].0 == sim {
            let j = choose|j: int| 0 <= j < regs.len() && regs[j].0 == sim;
            lemma_lookup_at(regs, j);
            lemma_lookup_at(regs2, j);
        } else {
            assert forall|j: int| 0 <= j < regs2.len() implies #[trigger] regs2[j].0 != sim by {
                if j < regs.len() {
                    assert(regs2[j] == regs[j]);
                }
            }
        }
    }
}

/// Removing the entry at `i` removes that simulator's lookup only.
pub proof fn lemma_lookup_remove(regs: Seq<(u64, SceneSimulationRegistration)>, i: int)
    requires
        keys_distinct(regs),
        0 <= i < regs.len(),
    ensures
        keys_distinct(regs.remove(i)),
        registration_lookup(regs.remove(i), regs[i].0) is None,
        forall|sim: u64|
            sim != regs[i].0 ==> #[trigger] registration_lookup(regs.remove(i), sim)
                == registration_lookup(regs, sim),
{
    let regs2 = regs.remove(i);
    let key = regs[i].0;
    assert forall|a: int, b: int| 0 <= a < b < regs2.len() implies #[trigger] regs2[a].0
        != #[trigger] regs2[b].0 by {
        let a1 = if a < i { a } else { a + 1 };
        let b1 = if b < i { b } else { b + 1 };
        assert(regs2[a] == regs[a1]);
        assert(regs2[b] == regs[b1]);
        assert(regs[a1].0 != regs[b1].0);
    }
    assert forall|j: int| 0 <= j < regs2.len() implies #[trigger] regs2[j].0 != key by {
        let j1 = if j < i { j } else { j + 1 };
        assert(regs2[j] == regs[j1]);
        if j1 < i {
            assert(regs[j1].0 != regs[i].0);
        } else {
            assert(regs[i].0 != regs[j1].0);
        }
    }
    assert forall|sim: u64| sim != key implies #[trigger] registration_lookup(regs2, sim)
        == registration_lookup(regs, sim) by {
        if exists|j: int| 0 <= j < regs.len() && regs[j].0 == sim {
            let j = choose|j: int| 0 <= j < regs.len() && regs[j].0 == sim;
            lemma_lookup_at(regs, j);
            let j2 = if j < i { j } else { j - 1 };
            assert(regs2[j2] == regs[j]);
            lemma_lookup_at(regs2, j2);
        } else {
            assert forall|j: int| 0 <= j < regs2.len() implies #[trigger] regs2[j].0 != sim by {
                let j1 = if j < i { j } else { j + 1 };
                assert(regs2[j] == regs[j1]);
            }
        }
    }
}

/// A registration after `k` more references: unchanged when `k` is zero, else the count
/// grows by `k`, or a new registration with `locks` and count `k` appears.
pub open spec fn registration_added(old: Option<(Seq<u64>, nat)>, locks: Seq<u64>, k: nat) -> Option<
    (Seq<u64>, nat),
> {
    if k == 0 {
        old
    } else {
        match old {
            Some((l, rc)) => Some((l, rc + k)),
            None => Some((locks, k)),
        }
    }
}

/// Adding references in two steps adds their sum.
pub proof fn lemma_registration_added_twice(old: Option<(Seq<u64>, nat)>, locks: Seq<u64>, a: nat, b: nat)
    ensures
        registration_added(registration_added(old, locks, a), locks, b) == registration_added(
            old,
            locks,
            a + b,
        ),
{
}

/// Whether `k` more references fit in a `usize`, next to those already registered.
pub open spec fn room_for(reg: Option<(Seq<u64>, nat)>, k: nat) -> bool {
    &&& k <= usize::MAX
    &&& reg matches Some((_, rc)) ==> rc + k <= usize::MAX
}

/// After `count * p` of `count * total` references, room remains for `count * q` more
/// when `p + q <= total`, and the two additions make `count * (p + q)`.
proof fn lemma_room_step(old: Option<(Seq<u64>, nat)>, locks: Seq<u64>, count: nat, p: nat, q: nat, total: nat)
    requires
        p + q <= total,
        room_for(old, count * total),
    ensures
        count * p + count * q == count * (p + q),
        room_for(registration_added(old, locks, count * p), count * q),
        count * (p + q) <= count * total,
{
    vstd::arithmetic::mul::lemma_mul_is_distributive_add(count as int, p as int, q as int);
    if count > 0 {
        vstd::arithmetic::mul::lemma_mul_left_inequality(count as int, (p + q) as int, total as int);
    }
    assert(count * p >= 0 && count * q >= 0) by (nonlinear_arith);
    if count == 0 {
        assert(count * p == 0) by (nonlinear_arith)
            requires
                count == 0,
        ;
        assert(count * q == 0) by (nonlinear_arith)
            requires
                count == 0,
        ;
        assert(count * (p + q) == 0) by (nonlinear_arith)
            requires
                count == 0,
        ;
    }
}

/// A registration after `count` references are dropped: it goes when no more than
/// `count` are left.
pub open spec fn registration_removed(old: Option<(Seq<u64>, nat)>, count: nat) -> Option<
    (Seq<u64>, nat),
> {
    match old {
        Some((l, rc)) => if rc <= count {
            None
        } else {
            Some((l, (rc - count) as nat))
        },
        None => None,
    }
}

/// The registrations of one simulator, scene by scene, after unregistering it `count`
/// times from scene `x`: if `x` holds a registration, its count drops by `count` (and it
/// goes when no reference is left), and the walk continues into the children of `x`;
/// a scene without a registration stops the walk. `fuel` bounds the depth.
pub open spec fn unregister_walk(
    edges: Seq<Seq<u64>>,
    state: Seq<Option<(Seq<u64>, nat)>>,
    x: int,
    count: nat,
    fuel: nat,
) -> Seq<Option<(Seq<u64>, nat)>>
    decreases fuel, 0nat,
{
    if fuel == 0 {
        state
    } else if state[x] is None {
        state
    } else {
        let state1 = state.update(x, registration_removed(state[x], count));
        unregister_walk_children(edges, state1, edges[x], count, (fuel - 1) as nat)
    }
}

/// [`unregister_walk`] from each of `children` in turn.
pub open spec fn unregister_walk_children(
    edges: Seq<Seq<u64>>,
    state: Seq<Option<(Seq<u64>, nat)>>,
    children: Seq<u64>,
    count: nat,
    fuel: nat,
) -> Seq<Option<(Seq<u64>, nat)>>
    decreases fuel, children.len(),
{
    if children.len() == 0 {
        state
    } else {
        unregister_walk(
            edges,
            unregister_walk_children(edges, state, children.drop_last(), count, fuel),
            children.last() as int,
            count,
            fuel,
        )
    }
}

/// [`unregister_walk`] from each of `roots` in turn, all with the same count, each walk
/// with fuel for as many scenes as the simulator then has references.
pub open spec fn unregister_each(
    edges: Seq<Seq<u64>>,
    state: Seq<Option<(Seq<u64>, nat)>>,
    roots: Seq<u64>,
    count: nat,
) -> Seq<Option<(Seq<u64>, nat)>>
    decreases roots.len(),
{
    if roots.len() == 0 {
        state
    } else {
        let before = unregister_each(edges, state, roots.drop_last(), count);
        unregister_walk(edges, before, roots.last() as int, count, total_refs(before))
    }
}

/// Whether some walk down the hierarchy from scene `x` passes through `k + 1` scenes. In
/// a hierarchy of `n` scenes, a walk through `n + 1` scenes visits some scene twice, so
/// `!long_walk(edges, x, n)` says that no scene below `x` leads back to itself.
pub open spec fn long_walk(edges: Seq<Seq<u64>>, x: int, k: nat) -> bool
    decreases k, 0nat,
{
    if k == 0 {
        true
    } else {
        any_long_walk(edges, edges[x], (k - 1) as nat)
    }
}

/// Whether [`long_walk`] holds from one of `children`.
pub open spec fn any_long_walk(edges: Seq<Seq<u64>>, children: Seq<u64>, k: nat) -> bool
    decreases k, children.len(),
{
    if children.len() == 0 {
        false
    } else {
        any_long_walk(edges, children.drop_last(), k) || long_walk(edges, children.last() as int, k)
    }
}

/// The references a registration counts (none for no registration).
pub open spec fn refs_of(reg: Option<(Seq<u64>, nat)>) -> nat {
    match reg {
        Some((_, rc)) => rc,
        None => 0,
    }
}

/// The references of one simulator, summed over all scenes.
pub open spec fn total_refs(state: Seq<Option<(Seq<u64>, nat)>>) -> nat
    decreases state.len(),
{
    if state.len() == 0 {
        0
    } else {
        total_refs(state.drop_last()) + refs_of(state.last())
    }
}

/// Replacing one registration changes the total by the difference.
proof fn lemma_total_refs_update(state: Seq<Option<(Seq<u64>, nat)>>, i: int, v: Option<(Seq<u64>, nat)>)
    requires
        0 <= i < state.len(),
    ensures
        total_refs(state.update(i, v)) + refs_of(state[i]) == total_refs(state) + refs_of(v),
    decreases state.len(),
{
    if i == state.len() - 1 {
        assert(state.update(i, v).drop_last() =~= state.drop_last());
    } else {
        lemma_total_refs_update(state.drop_last(), i, v);
        assert(state.update(i, v).drop_last() =~= state.drop_last().update(i, v));
    }
}

/// A walk keeps the number of scenes, keeps every registration counting at least one
/// reference, and never adds references.
proof fn lemma_walk_keeps(edges: Seq<Seq<u64>>, state: Seq<Option<(Seq<u64>, nat)>>, x: int, count: nat, fuel: nat)
    requires
        edges_in_range(edges),
        state.len() == edges.len(),
        counts_positive(state),
        0 <= x < edges.len(),
    ensures
        unregister_walk(edges, state, x, count, fuel).len() == state.len(),
        counts_positive(unregister_walk(edges, state, x, count, fuel)),
        total_refs(unregister_walk(edges, state, x, count, fuel)) <= total_refs(state),
    decreases fuel, 0nat,
{
    if fuel > 0 && state[x] is Some {
        let state1 = state.update(x, registration_removed(state[x], count));
        lemma_total_refs_update(state, x, registration_removed(state[x], count));
        assert(counts_positive(state1));
        lemma_walk_children_keeps(edges, state1, edges[x], count, (fuel - 1) as nat);
    }
}

/// [`lemma_walk_keeps`] for a walk from each of `children` in turn.
proof fn lemma_walk_children_keeps(
    edges: Seq<Seq<u64>>,
    state: Seq<Option<(Seq<u64>, nat)>>,
    children: Seq<u64>,
    count: nat,
    fuel: nat,
)
    requires
        edges_in_range(edges),
        state.len() == edges.len(),
        counts_positive(state),
        forall|i: int| 0 <= i < children.len() ==> #[trigger] children[i] < edges.len(),
    ensures
        unregister_walk_children(edges, state, children, count, fuel).len() == state.len(),
        counts_positive(unregister_walk_children(edges, state, children, count, fuel)),
        total_refs(unregister_walk_children(edges, state, children, count, fuel)) <= total_refs(state),
    decreases fuel, children.len(),
{
    if children.len() > 0 {
        assert(children[children.len() - 1] < edges.len());
        lemma_walk_children_keeps(edges, state, children.drop_last(), count, fuel);
        let state2 = unregister_walk_children(edges, state, children.drop_last(), count, fuel);
        lemma_walk_keeps(edges, state2, children.last() as int, count, fuel);
    }
}

/// A walk that may visit as many registered scenes as there are references never runs
/// out of fuel: every visit drops at least one reference, so more fuel changes nothing.
pub proof fn lemma_walk_fuel_enough(
    edges: Seq<Seq<u64>>,
    state: Seq<Option<(Seq<u64>, nat)>>,
    x: int,
    count: nat,
    fuel: nat,
    more: nat,
)
    requires
        edges_in_range(edges),
        state.len() == edges.len(),
        counts_positive(state),
        0 <= x < edges.len(),
        count > 0,
        total_refs(state) <= fuel <= more,
    ensures
        unregister_walk(edges, state, x, count, fuel) == unregister_walk(edges, state, x, count, more),
    decreases fuel, 0nat,
{
    if state[x] is Some {
        let state1 = state.update(x, registration_removed(state[x], count));
        lemma_total_refs_update(state, x, registration_removed(state[x], count));
        lemma_total_refs_update(state, x, None);
        assert(counts_positive(state1));
        lemma_walk_children_fuel_enough(edges, state1, edges[x], count, (fuel - 1) as nat, (more - 1) as nat);
    }
}

/// [`lemma_walk_fuel_enough`] for a walk from each of `children` in turn.
proof fn lemma_walk_children_fuel_enough(
    edges: Seq<Seq<u64>>,
    state: Seq<Option<(Seq<u64>, nat)>>,
    children: Seq<u64>,
    count: nat,
    fuel: nat,
    more: nat,
)
    requires
        edges_in_range(edges),
        state.len() == edges.len(),
        counts_positive(state),
        forall|i: int| 0 <= i < children.len() ==> #[trigger] children[i] < edges.len(),
        count > 0,
        total_refs(state) <= fuel <= more,
    ensures
        unregister_walk_children(edges, state, children, count, fuel) == unregister_walk_children(
            edges,
            state,
            children,
            count,
            more,
        ),
    decreases fuel, children.len(),
{
    if children.len() > 0 {
        assert(children[children.len() - 1] < edges.len());
        lemma_walk_children_fuel_enough(edges, state, children.drop_last(), count, fuel, more);
        let state2 = unregister_walk_children(edges, state, children.drop_last(), count, fuel);
        lemma_walk_children_keeps(edges, state, children.drop_last(), count, fuel);
        lemma_walk_fuel_enough(edges, state2, children.last() as int, count, fuel, more);
    }
}

/// Below a scene that leads back to no scene, a walk with fuel for as many scenes as
/// there are goes everywhere: more fuel changes nothing.
pub proof fn lemma_walk_no_long_walk(
    edges: Seq<Seq<u64>>,
    state: Seq<Option<(Seq<u64>, nat)>>,
    x: int,
    count: nat,
    fuel: nat,
    more: nat,
)
    requires
        !long_walk(edges, x, fuel),
        fuel <= more,
    ensures
        unregister_walk(edges, state, x, count, fuel) == unregister_walk(edges, state, x, count, more),
    decreases fuel, 0nat,
{
    if state[x] is Some {
        let state1 = state.update(x, registration_removed(state[x], count));
        lemma_walk_children_no_long_walk(edges, state1, edges[x], count, (fuel - 1) as nat, (more - 1) as nat);
    }
}

/// [`lemma_walk_no_long_walk`] for a walk from each of `children` in turn.
proof fn lemma_walk_children_no_long_walk(
    edges: Seq<Seq<u64>>,
    state: Seq<Option<(Seq<u64>, nat)>>,
    children: Seq<u64>,
    count: nat,
    fuel: nat,
    more: nat,
)
    requires
        !any_long_walk(edges, children, fuel),
        fuel <= more,
    ensures
        unregister_walk_children(edges, state, children, count, fuel) == unregister_walk_children(
            edges,
            state,
            children,
            count,
            more,
        ),
    decreases fuel, children.len(),
{
    if children.len() > 0 {
        lemma_walk_children_no_long_walk(edges, state, children.drop_last(), count, fuel, more);
        let state2 = unregister_walk_children(edges, state, children.drop_last(), count, fuel);
        lemma_walk_no_long_walk(edges, state2, children.last() as int, count, fuel, more);
    }
}

/// Below a scene that leads back to no scene, counting paths through as many scenes as
/// there are counts them all: more scenes per path add none.
pub proof fn lemma_paths_no_long_walk(edges: Seq<Seq<u64>>, x: int, y: int, fuel: nat, more: nat)
    requires
        !long_walk(edges, x, fuel),
        fuel <= more,
    ensures
        num_paths(edges, x, y, more) == num_paths(edges, x, y, fuel),
    decreases fuel, 0nat,
{
    lemma_sum_paths_no_long_walk(edges, edges[x], y, (fuel - 1) as nat, (more - 1) as nat);
}

/// [`lemma_paths_no_long_walk`] summed over `children`.
pub proof fn lemma_sum_paths_no_long_walk(edges: Seq<Seq<u64>>, children: Seq<u64>, y: int, fuel: nat, more: nat)
    requires
        !any_long_walk(edges, children, fuel),
        fuel <= more,
    ensures
        sum_paths(edges, children, y, more) == sum_paths(edges, children, y, fuel),
    decreases fuel, children.len(),
{
    if children.len() > 0 {
        lemma_sum_paths_no_long_walk(edges, children.drop_last(), y, fuel, more);
        lemma_paths_no_long_walk(edges, children.last() as int, y, fuel, more);
    }
}

/// Whether a long walk starts at one of a list of children does not depend on where in
/// the list a child stands.
proof fn lemma_any_long_walk_remove(edges: Seq<Seq<u64>>, children: Seq<u64>, i: int, k: nat)
    requires
        0 <= i < children.len(),
    ensures
        any_long_walk(edges, children, k) == (any_long_walk(edges, children.remove(i), k) || long_walk(
            edges,
            children[i] as int,
            k,
        )),
    decreases children.len(),
{
    if i == children.len() - 1 {
        assert(children.remove(i) =~= children.drop_last());
    } else {
        lemma_any_long_walk_remove(edges, children.drop_last(), i, k);
        assert(children.drop_last().remove(i) =~= children.remove(i).drop_last());
        assert(children.remove(i).last() == children.last());
    }
}

/// Hierarchies whose scenes have the same children, up to where one child stands, have
/// the same long walks.
pub proof fn lemma_long_walk_same_children(edges1: Seq<Seq<u64>>, edges2: Seq<Seq<u64>>, x: int, k: nat)
    requires
        edges_in_range(edges1),
        edges_in_range(edges2),
        edges1.len() == edges2.len(),
        forall|z: int| 0 <= z < edges1.len() ==> #[trigger] same_children(edges1[z], edges2[z]),
        0 <= x < edges1.len(),
    ensures
        long_walk(edges1, x, k) == long_walk(edges2, x, k),
    decreases k, 0nat,
{
    if k > 0 {
        let k1 = (k - 1) as nat;
        let l1 = edges1[x];
        let l2 = edges2[x];
        assert(same_children(l1, l2));
        lemma_any_long_walk_same_children(edges1, edges2, l1, k1);
        if l1 != l2 {
            let (base, i, v) = choose|base: Seq<u64>, i: int, v: u64|
                0 <= i <= base.len() && l1 == #[trigger] base.insert(i, v) && l2 == base.push(v);
            lemma_any_long_walk_remove(edges2, l1, i, k1);
            assert(l1.remove(i) =~= base);
            assert(l1[i] == v);
            assert(l2.drop_last() =~= base);
        }
    }
}

/// [`lemma_long_walk_same_children`] from any of `children`.
pub proof fn lemma_any_long_walk_same_children(
    edges1: Seq<Seq<u64>>,
    edges2: Seq<Seq<u64>>,
    children: Seq<u64>,
    k: nat,
)
    requires
        edges_in_range(edges1),
        edges_in_range(edges2),
        edges1.len() == edges2.len(),
        forall|z: int| 0 <= z < edges1.len() ==> #[trigger] same_children(edges1[z], edges2[z]),
        forall|i: int| 0 <= i < children.len() ==> #[trigger] children[i] < edges1.len(),
    ensures
        any_long_walk(edges1, children, k) == any_long_walk(edges2, children, k),
    decreases k, children.len(),
{
    if children.len() > 0 {
        assert(children[children.len() - 1] < edges1.len());
        lemma_any_long_walk_same_children(edges1, edges2, children.drop_last(), k);
        lemma_long_walk_same_children(edges1, edges2, children.last() as int, k);
    }
}

/// A walk that drops no references leaves every registration as it was.
proof fn lemma_walk_with_no_count(edges: Seq<Seq<u64>>, state: Seq<Option<(Seq<u64>, nat)>>, x: int, fuel: nat)
    requires
        edges_in_range(edges),
        state.len() == edges.len(),
        counts_positive(state),
        0 <= x < edges.len(),
    ensures
        unregister_walk(edges, state, x, 0, fuel) == state,
    decreases fuel, 0nat,
{
    if fuel > 0 && state[x] is Some {
        assert(state.update(x, registration_removed(state[x], 0)) =~= state);
        lemma_walk_children_with_no_count(edges, state, edges[x], (fuel - 1) as nat);
    }
}

/// [`lemma_walk_with_no_count`] from each of `children` in turn.
proof fn lemma_walk_children_with_no_count(
    edges: Seq<Seq<u64>>,
    state: Seq<Option<(Seq<u64>, nat)>>,
    children: Seq<u64>,
    fuel: nat,
)
    requires
        edges_in_range(edges),
        state.len() == edges.len(),
        counts_positive(state),
        forall|i: int| 0 <= i < children.len() ==> #[trigger] children[i] < edges.len(),
    ensures
        unregister_walk_children(edges, state, children, 0, fuel) == state,
    decreases fuel, children.len(),
{
    if children.len() > 0 {
        assert(children[children.len() - 1] < edges.len());
        lemma_walk_children_with_no_count(edges, state, children.drop_last(), fuel);
        lemma_walk_with_no_count(edges, state, children.last() as int, fuel);
    }
}

/// `base` with `count * k(y)` more references added at each scene `y`, a new
/// registration taking `locks`.
pub open spec fn state_added(
    base: Seq<Option<(Seq<u64>, nat)>>,
    locks: Seq<u64>,
    count: nat,
    k: spec_fn(int) -> nat,
) -> Seq<Option<(Seq<u64>, nat)>> {
    Seq::new(base.len(), |y: int| registration_added(base[y], locks, count * k(y)))
}

/// Adding references keeps every registration counting at least one reference.
proof fn lemma_state_added_counts_positive(
    base: Seq<Option<(Seq<u64>, nat)>>,
    locks: Seq<u64>,
    count: nat,
    k: spec_fn(int) -> nat,
)
    requires
        counts_positive(base),
    ensures
        counts_positive(state_added(base, locks, count, k)),
{
    let st = state_added(base, locks, count, k);
    assert forall|y: int| 0 <= y < st.len() implies (#[trigger] st[y] matches Some((_, rc)) ==> rc > 0) by {
        assert(base[y] matches Some((_, rc)) ==> rc > 0);
    }
}

/// Every child is one of the scenes.
pub open spec fn edges_in_range(edges: Seq<Seq<u64>>) -> bool {
    forall|x: int, i: int|
        0 <= x < edges.len() && 0 <= i < edges[x].len() ==> #[trigger] edges[x][i] < edges.len()
}

/// Every registration counts at least one reference.
pub open spec fn counts_positive(state: Seq<Option<(Seq<u64>, nat)>>) -> bool {
    forall|y: int| 0 <= y < state.len() ==> (#[trigger] state[y] matches Some((_, rc)) ==> rc > 0)
}

/// Dropping `count` of `count * k` added references (`k >= 1`) leaves `count * (k - 1)`.
proof fn lemma_removed_after_added(b: Option<(Seq<u64>, nat)>, locks: Seq<u64>, count: nat, k: nat)
    requires
        k >= 1,
        count > 0,
        b matches Some((_, rc)) ==> rc > 0,
    ensures
        registration_removed(registration_added(b, locks, count * k), count) == registration_added(
            b,
            locks,
            count * ((k - 1) as nat),
        ),
{
    assert(count * k == count * ((k - 1) as nat) + count) by (nonlinear_arith)
        requires
            k >= 1,
    ;
    assert(count * ((k - 1) as nat) == 0 <==> k == 1) by (nonlinear_arith)
        requires
            k >= 1,
            count > 0,
    ;
}

/// Walking from `x` to unregister `count` references along every path of at most `fuel`
/// scenes takes away exactly what registering `count` references along those paths added.
proof fn lemma_walk_removes_paths(
    edges: Seq<Seq<u64>>,
    base: Seq<Option<(Seq<u64>, nat)>>,
    locks: Seq<u64>,
    count: nat,
    x: int,
    fuel: nat,
    rest: spec_fn(int) -> nat,
)
    requires
        edges_in_range(edges),
        base.len() == edges.len(),
        counts_positive(base),
        count > 0,
        0 <= x < edges.len(),
    ensures
        unregister_walk(
            edges,
            state_added(base, locks, count, |y: int| rest(y) + num_paths(edges, x, y, fuel)),
            x,
            count,
            fuel,
        ) == state_added(base, locks, count, rest),
    decreases fuel, 0nat,
{
    let st = state_added(base, locks, count, |y: int| rest(y) + num_paths(edges, x, y, fuel));
    if fuel == 0 {
        assert(st =~= state_added(base, locks, count, rest));
    } else {
        let f1 = (fuel - 1) as nat;
        let k_x = rest(x) + num_paths(edges, x, x, fuel);
        assert(k_x >= 1);
        assert(count * k_x > 0) by (nonlinear_arith)
            requires
                count > 0,
                k_x >= 1,
        ;
        assert(st[x] is Some);
        let st1 = st.update(x, registration_removed(st[x], count));
        let target = state_added(
            base,
            locks,
            count,
            |y: int| rest(y) + sum_paths(edges, edges[x], y, f1),
        );
        lemma_removed_after_added(base[x], locks, count, k_x);
        assert(st1 =~= target);
        lemma_walk_children_removes_paths(edges, base, locks, count, edges[x], f1, rest);
    }
}

/// Unregistering from a single root is one walk from it, with fuel for as many scenes
/// as the simulator has references.
pub proof fn lemma_unregister_each_single(
    edges: Seq<Seq<u64>>,
    state: Seq<Option<(Seq<u64>, nat)>>,
    root: u64,
    count: nat,
)
    ensures
        unregister_each(edges, state, seq![root], count) == unregister_walk(
            edges,
            state,
            root as int,
            count,
            total_refs(state),
        ),
{
    let roots = seq![root];
    assert(roots.drop_last() =~= Seq::<u64>::empty());
    assert(unregister_each(edges, state, roots.drop_last(), count) == state);
    assert(roots.last() == root);
}

/// Unregistering from the roots of `first` and then of `second` is unregistering from
/// all of them: every root of a list is walked from, in turn, each walk starting from
/// what the walks before it left.
pub proof fn lemma_unregister_each_append(
    edges: Seq<Seq<u64>>,
    state: Seq<Option<(Seq<u64>, nat)>>,
    first: Seq<u64>,
    second: Seq<u64>,
    count: nat,
)
    ensures
        unregister_each(edges, state, first + second, count) == unregister_each(
            edges,
            unregister_each(edges, state, first, count),
            second,
            count,
        ),
    decreases second.len(),
{
    if second.len() == 0 {
        assert(first + second =~= first);
    } else {
        assert((first + second).drop_last() =~= first + second.drop_last());
        assert((first + second).last() == second.last());
        lemma_unregister_each_append(edges, state, first, second.drop_last(), count);
    }
}

/// Unregistering `count` references from each of `roots` takes away exactly what
/// registering `count` references along every path from each root added, when no scene
/// below a root leads back to itself: the registrations are left as they were before
/// those references were added.
pub proof fn lemma_unregister_each_removes_paths(
    edges: Seq<Seq<u64>>,
    base: Seq<Option<(Seq<u64>, nat)>>,
    locks: Seq<u64>,
    count: nat,
    roots: Seq<u64>,
    rest: spec_fn(int) -> nat,
)
    requires
        edges_in_range(edges),
        base.len() == edges.len(),
        counts_positive(base),
        count > 0,
        forall|i: int| 0 <= i < roots.len() ==> #[trigger] roots[i] < edges.len(),
        forall|i: int| 0 <= i < roots.len() ==> !long_walk(edges, #[trigger] roots[i] as int, edges.len()),
    ensures
        unregister_each(
            edges,
            state_added(base, locks, count, |y: int| rest(y) + sum_paths(edges, roots, y, edges.len())),
            roots,
            count,
        ) == state_added(base, locks, count, rest),
    decreases roots.len(),
{
    let n = edges.len();
    let st = state_added(base, locks, count, |y: int| rest(y) + sum_paths(edges, roots, y, n));
    if roots.len() == 0 {
        assert(st =~= state_added(base, locks, count, rest));
    } else {
        let front = roots.drop_last();
        let r = roots.last();
        assert(r == roots[roots.len() - 1]);
        let rest2 = |y: int| rest(y) + num_paths(edges, r as int, y, n);
        assert forall|i: int| 0 <= i < front.len() implies #[trigger] front[i] < edges.len() && !long_walk(
            edges,
            front[i] as int,
            n,
        ) by {
            assert(front[i] == roots[i]);
        }
        assert(st =~= state_added(base, locks, count, |y: int| rest2(y) + sum_paths(edges, front, y, n)));
        lemma_unregister_each_removes_paths(edges, base, locks, count, front, rest2);
        let mid = state_added(base, locks, count, rest2);
        assert(unregister_each(edges, st, front, count) == mid);
        lemma_walk_removes_paths(edges, base, locks, count, r as int, n, rest);
        assert(mid =~= state_added(base, locks, count, |y: int| rest(y) + num_paths(edges, r as int, y, n)));
        lemma_state_added_counts_positive(base, locks, count, rest2);
        let more = if n >= total_refs(mid) { n } else { total_refs(mid) };
        lemma_walk_no_long_walk(edges, mid, r as int, count, n, more);
        lemma_walk_fuel_enough(edges, mid, r as int, count, total_refs(mid), more);
    }
}


/// [`lemma_walk_removes_paths`] from each of `children` in turn.
proof fn lemma_walk_children_removes_paths(
    edges: Seq<Seq<u64>>,
    base: Seq<Option<(Seq<u64>, nat)>>,
    locks: Seq<u64>,
    count: nat,
    children: Seq<u64>,
    fuel: nat,
    rest: spec_fn(int) -> nat,
)
    requires
        edges_in_range(edges),
        base.len() == edges.len(),
        counts_positive(base),
        count > 0,
        forall|i: int| 0 <= i < children.len() ==> #[trigger] children[i] < edges.len(),
    ensures
        unregister_walk_children(
            edges,
            state_added(base, locks, count, |y: int| rest(y) + sum_paths(edges, children, y, fuel)),
            children,
            count,
            fuel,
        ) == state_added(base, locks, count, rest),
    decreases fuel, children.len(),
{
    let st = state_added(base, locks, count, |y: int| rest(y) + sum_paths(edges, children, y, fuel));
    if children.len() == 0 {
        assert(st =~= state_added(base, locks, count, rest));
    } else {
        let last = children.last() as int;
        let init = children.drop_last();
        assert(children[children.len() - 1] < edges.len());
        let rest2 = |y: int| rest(y) + num_paths(edges, last, y, fuel);
        assert(st =~= state_added(
            base,
            locks,
            count,
            |y: int| rest2(y) + sum_paths(edges, init, y, fuel),
        ));
        lemma_walk_children_removes_paths(edges, base, locks, count, init, fuel, rest2);
        assert(state_added(base, locks, count, rest2) =~= state_added(
            base,
            locks,
            count,
            |y: int| rest(y) + num_paths(edges, last, y, fuel),
        ));
        lemma_walk_removes_paths(edges, base, locks, count, last, fuel, rest);
    }
}

/// The bound at which path counts saturate: one more than the largest `u64`.
pub open spec fn path_cap() -> nat {
    0x1_0000_0000_0000_0000
}

/// `v`, or [`path_cap`] when `v` is larger.
pub open spec fn saturated(v: nat) -> nat {
    if v < path_cap() {
        v
    } else {
        path_cap()
    }
}

/// Adds two saturated counts, saturating the sum.
fn saturating_sum(a: u128, b: u128) -> (r: u128)
    requires
        a <= path_cap(),
        b <= path_cap(),
    ensures
        forall|x: nat, y: nat|
            a == #[trigger] saturated(x) && b == #[trigger] saturated(y) ==> r == saturated(x + y),
{
    let sum = a + b;
    if sum < 0x1_0000_0000_0000_0000u128 {
        sum
    } else {
        0x1_0000_0000_0000_0000u128
    }
}

// ---------------------------------------------------------------------------------------
// The registry
// ---------------------------------------------------------------------------------------

/// The state of one scene.
pub struct SceneShared {
    /// Static meshes, as tokens that name them.
    static_meshes: MeshSlots,
    /// Instanced meshes, as the indices of their sub-scenes.
    instanced_meshes: MeshSlots,
    /// Static meshes to be dropped by the next commit.
    static_meshes_to_remove: Vec<u64>,
    /// Sub-scenes of instanced meshes to be dropped by the next commit.
    instanced_meshes_to_remove: Vec<u64>,
    /// Simulator registrations that currently require this scene to block commits.
    simulation_registrations: Vec<(u64, SceneSimulationRegistration)>,
}

/// All scenes, named by their index.
pub struct SceneRegistry {
    scenes: Vec<SceneShared>,
}

/// A handle to a static mesh within a scene.
#[derive(Copy, Clone, Debug, PartialEq, Eq, Hash)]
pub struct StaticMeshHandle {
    key: u64,
}

/// A handle to an instanced mesh within a scene.
#[derive(Copy, Clone, Debug, PartialEq, Eq, Hash)]
pub struct InstancedMeshHandle {
    key: u64,
}

impl StaticMeshHandle {
    /// The slot map key of the mesh.
    pub closed spec fn key(self) -> u64 {
        self.key
    }

    #[verifier::type_invariant]
    closed spec fn inv(self) -> bool {
        key_is_occupied_version(self.key)
    }
}

impl InstancedMeshHandle {
    /// The slot map key of the mesh.
    pub closed spec fn key(self) -> u64 {
        self.key
    }

    #[verifier::type_invariant]
    closed spec fn inv(self) -> bool {
        key_is_occupied_version(self.key)
    }
}

impl SceneRegistry {
    /// The number of scenes.
    pub closed spec fn num_scenes(&self) -> nat {
        self.scenes@.len()
    }

    /// The static meshes of scene `x`: key to mesh token.
    pub closed spec fn static_meshes(&self, x: int) -> Map<u64, u64> {
        slot_map_contents(self.scenes@[x].static_meshes)
    }

    /// The instanced meshes of scene `x`: key to sub-scene index.
    pub closed spec fn instanced_meshes(&self, x: int) -> Map<u64, u64> {
        slot_map_contents(self.scenes@[x].instanced_meshes)
    }

    /// The static meshes of scene `x` that await the next commit.
    pub closed spec fn pending_static(&self, x: int) -> Seq<u64> {
        self.scenes@[x].static_meshes_to_remove@
    }

    /// The sub-scenes of the instanced meshes of scene `x` that await the next commit.
    pub closed spec fn pending_instanced(&self, x: int) -> Seq<u64> {
        self.scenes@[x].instanced_meshes_to_remove@
    }

    /// The registration of `simulator` with scene `x`, if any.
    pub closed spec fn registration(&self, x: int, simulator: u64) -> Option<(Seq<u64>, nat)> {
        registration_lookup(self.scenes@[x].simulation_registrations@, simulator)
    }

    /// The children of every scene.
    pub open spec fn edges(&self) -> Seq<Seq<u64>> {
        Seq::new(
            self.num_scenes(),
            |x: int| children_of(self.instanced_meshes(x), self.pending_instanced(x)),
        )
    }

    /// The registrations of `simulator`, scene by scene.
    pub open spec fn simulator_state(&self, simulator: u64) -> Seq<Option<(Seq<u64>, nat)>> {
        Seq::new(self.num_scenes(), |x: int| self.registration(x, simulator))
    }

    /// The registry is consistent: slot maps are well formed, every child is a scene,
    /// no simulator is registered twice with a scene, and every registration counts at
    /// least one reference.
    pub closed spec fn wf(&self) -> bool {
        forall|x: int| 0 <= x < self.scenes@.len() ==> #[trigger] self.scene_wf(x)
    }

    closed spec fn scene_wf(&self, x: int) -> bool {
        let scene = self.scenes@[x];
        let n = self.scenes@.len();
        &&& contents_wf(slot_map_contents(scene.static_meshes))
        &&& contents_wf(slot_map_contents(scene.instanced_meshes))
        &&& forall|k: u64| #[trigger]
            slot_map_contents(scene.instanced_meshes).dom().contains(k) ==> slot_map_contents(
                scene.instanced_meshes,
            )[k] < n
        &&& forall|i: int|
            0 <= i < scene.instanced_meshes_to_remove@.len()
                ==> #[trigger] scene.instanced_meshes_to_remove@[i] < n
        &&& keys_distinct(scene.simulation_registrations@)
        &&& forall|i: int|
            0 <= i < scene.simulation_registrations@.len()
                ==> #[trigger] scene.simulation_registrations@[i].1.ref_count > 0
    }

    /// Scenes `a` and `b` hold the same meshes and pending removals.
    pub open spec fn same_meshes(a: &Self, b: &Self) -> bool {
        &&& a.num_scenes() == b.num_scenes()
        &&& forall|x: int|
            0 <= x < a.num_scenes() ==> {
                &&& #[trigger] a.static_meshes(x) == b.static_meshes(x)
                &&& a.instanced_meshes(x) == b.instanced_meshes(x)
                &&& a.pending_static(x) == b.pending_static(x)
                &&& a.pending_instanced(x) == b.pending_instanced(x)
            }
    }

    /// `a` and `b` have the same registrations.
    pub open spec fn same_registrations(a: &Self, b: &Self) -> bool {
        forall|x: int, sim: u64|
            0 <= x < a.num_scenes() ==> #[trigger] a.registration(x, sim) == b.registration(x, sim)
    }

    /// The children of every scene are scenes.
    pub proof fn lemma_edges_in_range(&self)
        requires
            self.wf(),
        ensures
            self.edges().len() == self.num_scenes(),
            edges_in_range(self.edges()),
    {
        let edges = self.edges();
        assert forall|x: int, i: int| 0 <= x < edges.len() && 0 <= i < edges[x].len() implies #[trigger] edges[x][i]
            < edges.len() by {
            assert(self.scene_wf(x));
            let m = self.instanced_meshes(x);
            lemma_slot_order_exists(m);
            let e = entries_of(m);
            if i < e.len() {
                assert(m.dom().contains(e[i].0));
                assert(edges[x][i] == e[i].1);
            } else {
                assert(edges[x][i] == self.pending_instanced(x)[i - e.len()]);
            }
        }
    }

    /// Every registration of a simulator counts at least one reference.
    pub proof fn lemma_counts_positive(&self, simulator: u64)
        requires
            self.wf(),
        ensures
            counts_positive(self.simulator_state(simulator)),
    {
        let st = self.simulator_state(simulator);
        assert forall|y: int| 0 <= y < st.len() implies (#[trigger] st[y] matches Some((_, rc)) ==> rc > 0) by {
            assert(self.scene_wf(y));
            let regs = self.scenes@[y].simulation_registrations@;
            if exists|i: int| 0 <= i < regs.len() && regs[i].0 == simulator {
                let i = choose|i: int| 0 <= i < regs.len() && regs[i].0 == simulator;
                assert(regs[i].1.ref_count > 0);
            }
        }
    }

    /// The registrations of `simulator`, scene by scene, once it is registered `count`
    /// times with scene `scene` and through it with every scene below.
    pub open spec fn state_after_register(&self, scene: int, simulator: u64, locks: Seq<u64>, count: nat) -> Seq<
        Option<(Seq<u64>, nat)>,
    > {
        Seq::new(
            self.num_scenes(),
            |y: int|
                registration_added(
                    self.registration(y, simulator),
                    locks,
                    count * num_paths(self.edges(), scene, y, self.num_scenes()),
                ),
        )
    }

    /// Unregistering a simulator `count` times from a scene undoes registering it there
    /// `count` times: every scene is left with the registration it had before.
    pub proof fn lemma_unregister_undoes_register(&self, scene: int, simulator: u64, locks: Seq<u64>, count: nat)
        requires
            self.wf(),
            0 <= scene < self.num_scenes(),
            count > 0 ==> !long_walk(self.edges(), scene, self.num_scenes()),
        ensures
            unregister_walk(
                self.edges(),
                self.state_after_register(scene, simulator, locks, count),
                scene,
                count,
                total_refs(self.state_after_register(scene, simulator, locks, count)),
            ) == self.simulator_state(simulator),
    {
        let n = self.num_scenes();
        let edges = self.edges();
        let base = self.simulator_state(simulator);
        self.lemma_edges_in_range();
        self.lemma_counts_positive(simulator);
        if count == 0 {
            assert forall|y: int| 0 <= y < n implies #[trigger] self.state_after_register(scene, simulator, locks, count)[y]
                == base[y] by {
                assert(count * num_paths(edges, scene, y, n) == 0) by (nonlinear_arith)
                    requires
                        count == 0,
                ;
            }
            assert(self.state_after_register(scene, simulator, locks, count) =~= base);
            lemma_walk_with_no_count(edges, base, scene, total_refs(base));
        } else {
            let zero = |y: int| 0nat;
            assert(self.state_after_register(scene, simulator, locks, count) =~= state_added(
                base,
                locks,
                count,
                |y: int| zero(y) + num_paths(edges, scene, y, n),
            ));
            lemma_walk_removes_paths(edges, base, locks, count, scene, n, zero);
            assert forall|y: int| 0 <= y < n implies #[trigger] state_added(base, locks, count, zero)[y] == base[y] by {
                assert(count * zero(y) == 0);
            }
            assert(state_added(base, locks, count, zero) =~= base);
            let st = self.state_after_register(scene, simulator, locks, count);
            lemma_state_added_counts_positive(base, locks, count, |y: int| zero(y) + num_paths(edges, scene, y, n));
            let more = if n >= total_refs(st) { n } else { total_refs(st) };
            lemma_walk_no_long_walk(edges, st, scene, count, n, more);
            lemma_walk_fuel_enough(edges, st, scene, count, total_refs(st), more);
        }
    }

    /// Below a scene that leads back to no scene, paths through as many scenes as there
    /// are are all the paths: counting longer ones adds none.
    pub proof fn lemma_paths_complete(&self, scene: int, y: int, more: nat)
        requires
            !long_walk(self.edges(), scene, self.num_scenes()),
            more >= self.num_scenes(),
        ensures
            num_paths(self.edges(), scene, y, more) == num_paths(self.edges(), scene, y, self.num_scenes()),
    {
        lemma_paths_no_long_walk(self.edges(), scene, y, self.num_scenes(), more);
    }

    /// Creates an empty registry.
    pub fn new() -> (r: Self)
        ensures
            r.wf(),
            r.num_scenes() == 0,
    {
        SceneRegistry { scenes: Vec::new() }
    }

    /// Returns the number of scenes.
    pub fn len(&self) -> (r: usize)
        ensures
            r == self.num_scenes(),
    {
        self.scenes.len()
    }

    /// Adds an empty scene and returns its index.
    pub fn add_scene(&mut self) -> (r: usize)
        requires
            old(self).wf(),
            old(self).num_scenes() < usize::MAX,
        ensures
            final(self).wf(),
            r == old(self).num_scenes(),
            final(self).num_scenes() == old(self).num_scenes() + 1,
            forall|x: int|
                0 <= x < old(self).num_scenes() ==> {
                    &&& #[trigger] final(self).static_meshes(x) == old(self).static_meshes(x)
                    &&& final(self).instanced_meshes(x) == old(self).instanced_meshes(x)
                    &&& final(self).pending_static(x) == old(self).pending_static(x)
                    &&& final(self).pending_instanced(x) == old(self).pending_instanced(x)
                    &&& forall|sim: u64| #[trigger]
                        final(self).registration(x, sim) == old(self).registration(x, sim)
                },
            final(self).static_meshes(r as int).dom().is_empty(),
            final(self).instanced_meshes(r as int).dom().is_empty(),
            final(self).pending_static(r as int).len() == 0,
            final(self).pending_instanced(r as int).len() == 0,
            forall|sim: u64| #[trigger] final(self).registration(r as int, sim) is None,
    {
        let scene = SceneShared {
            static_meshes: slot_map_new(),
            instanced_meshes: slot_map_new(),
            static_meshes_to_remove: Vec::new(),
            instanced_meshes_to_remove: Vec::new(),
            simulation_registrations: Vec::new(),
        };
        let r = self.scenes.len();
        self.scenes.push(scene);
        proof {
            assert forall|x: int| 0 <= x < self.scenes@.len() implies #[trigger] self.scene_wf(x) by {
                if x < r {
                    assert(old(self).scene_wf(x));
                } else {
                    assert(slot_map_contents(self.scenes@[x].static_meshes).dom() =~= Set::empty());
                    assert(slot_map_contents(self.scenes@[x].instanced_meshes).dom() =~= Set::empty());
                }
            }
        }
        r
    }

    /// Returns the number of static meshes of scene `scene`.
    pub fn static_mesh_count(&self, scene: usize) -> (r: usize)
        requires
            self.wf(),
            scene < self.num_scenes(),
        ensures
            r == self.static_meshes(scene as int).len(),
    {
        proof {
            assert(self.scene_wf(scene as int));
        }
        slot_map_len(&self.scenes[scene].static_meshes)
    }

    /// Returns the number of instanced meshes of scene `scene`.
    pub fn instanced_mesh_count(&self, scene: usize) -> (r: usize)
        requires
            self.wf(),
            scene < self.num_scenes(),
        ensures
            r == self.instanced_meshes(scene as int).len(),
    {
        proof {
            assert(self.scene_wf(scene as int));
        }
        slot_map_len(&self.scenes[scene].instanced_meshes)
    }

    /// Adds a static mesh, named by `mesh`, to scene `scene`, and returns a handle to it.
    pub fn add_static_mesh(&mut self, scene: usize, mesh: u64) -> (r: StaticMeshHandle)
        requires
            old(self).wf(),
            scene < old(self).num_scenes(),
            old(self).static_meshes(scene as int).len() < u32::MAX - 1,
        ensures
            final(self).wf(),
            final(self).num_scenes() == old(self).num_scenes(),
            !old(self).static_meshes(scene as int).dom().contains(r.key()),
            final(self).static_meshes(scene as int) == old(self).static_meshes(scene as int).insert(
                r.key(),
                mesh,
            ),
            forall|x: int|
                0 <= x < old(self).num_scenes() && x != scene ==> #[trigger] final(self).static_meshes(
                    x,
                ) == old(self).static_meshes(x),
            forall|x: int|
                0 <= x < old(self).num_scenes() ==> {
                    &&& #[trigger] final(self).instanced_meshes(x) == old(self).instanced_meshes(x)
                    &&& final(self).pending_static(x) == old(self).pending_static(x)
                    &&& final(self).pending_instanced(x) == old(self).pending_instanced(x)
                },
            SceneRegistry::same_registrations(final(self), old(self)),
    {
        proof {
            assert(self.scene_wf(scene as int));
        }
        let key = slot_map_insert(&mut self.scenes[scene].static_meshes, mesh);
        proof {
            assert forall|x: int| 0 <= x < self.scenes@.len() implies #[trigger] self.scene_wf(x) by {
                assert(old(self).scene_wf(x));
            }
            assert(slot_map_contents(self.scenes@[scene as int].static_meshes).dom().contains(key));
        }
        StaticMeshHandle { key }
    }

    /// Removes a static mesh from scene `scene`; returns whether the handle named one of
    /// its meshes. The mesh waits for the next commit to be dropped.
    pub fn remove_static_mesh(&mut self, scene: usize, handle: StaticMeshHandle) -> (r: bool)
        requires
            old(self).wf(),
            scene < old(self).num_scenes(),
        ensures
            final(self).wf(),
            final(self).num_scenes() == old(self).num_scenes(),
            r == old(self).static_meshes(scene as int).dom().contains(handle.key()),
            r ==> final(self).static_meshes(scene as int) == old(self).static_meshes(
                scene as int,
            ).remove(handle.key()) && final(self).pending_static(scene as int) == old(self).pending_static(scene as int).push(old(self).static_meshes(scene as int)[handle.key()]),
            !r ==> final(self).static_meshes(scene as int) == old(self).static_meshes(scene as int)
                && final(self).pending_static(scene as int) == old(self).pending_static(scene as int),
            forall|x: int|
                0 <= x < old(self).num_scenes() && x != scene ==> {
                    &&& #[trigger] final(self).static_meshes(x) == old(self).static_meshes(x)
                    &&& final(self).pending_static(x) == old(self).pending_static(x)
                },
            forall|x: int|
                0 <= x < old(self).num_scenes() ==> {
                    &&& #[trigger] final(self).instanced_meshes(x) == old(self).instanced_meshes(x)
                    &&& final(self).pending_instanced(x) == old(self).pending_instanced(x)
                },
            SceneRegistry::same_registrations(final(self), old(self)),
    {
        proof {
            use_type_invariant(&handle);
            assert(self.scene_wf(scene as int));
        }
        let removed = slot_map_remove(&mut self.scenes[scene].static_meshes, handle.key);
        let r = match removed {
            Some(mesh) => {
                self.scenes[scene].static_meshes_to_remove.push(mesh);
                true
            },
            None => false,
        };
        proof {
            assert forall|x: int| 0 <= x < self.scenes@.len() implies #[trigger] self.scene_wf(x) by {
                assert(old(self).scene_wf(x));
            }
        }
        r
    }

    /// Returns the children of scene `x`: the sub-scenes of its instanced meshes, in slot
    /// order, then those that await removal.
    pub fn sub_scenes(&self, x: usize) -> (r: Vec<u64>)
        requires
            self.wf(),
            x < self.num_scenes(),
        ensures
            r@ == self.edges()[x as int],
            forall|i: int| 0 <= i < r@.len() ==> #[trigger] r@[i] < self.num_scenes(),
    {
        proof {
            assert(self.scene_wf(x as int));
        }
        let entries = slot_map_entries(&self.scenes[x].instanced_meshes);
        let ghost contents = slot_map_contents(self.scenes@[x as int].instanced_meshes);
        proof {
            lemma_entries_of(contents, entries@);
        }
        let mut r: Vec<u64> = Vec::new();
        let mut i: usize = 0;
        while i < entries.len()
            invariant
                0 <= i <= entries@.len(),
                entries_in_slot_order(contents, entries@),
                r@ == entries@.take(i as int).map_values(|e: (u64, u64)| e.1),
            decreases entries@.len() - i,
        {
            r.push(entries[i].1);
            i += 1;
            proof {
                assert(r@ =~= entries@.take(i as int).map_values(|e: (u64, u64)| e.1));
            }
        }
        assert(entries@.take(entries@.len() as int) =~= entries@);
        let pending = &self.scenes[x].instanced_meshes_to_remove;
        let ghost prefix = r@;
        let mut j: usize = 0;
        while j < pending.len()
            invariant
                0 <= j <= pending@.len(),
                r@ == prefix + pending@.take(j as int),
            decreases pending@.len() - j,
        {
            r.push(pending[j]);
            j += 1;
            proof {
                assert(r@ =~= prefix + pending@.take(j as int));
            }
        }
        proof {
            assert(pending@.take(pending@.len() as int) =~= pending@);
            assert(r@ =~= self.edges()[x as int]);
            assert forall|i: int| 0 <= i < r@.len() implies #[trigger] r@[i] < self.num_scenes() by {
                if i < prefix.len() {
                    assert(contents.dom().contains(entries@[i].0));
                } else {
                    assert(r@[i] == pending@[i - prefix.len()]);
                }
            }
        }
        r
    }

    /// Adds `count` references of `simulator` to the registration of scene `x` alone,
    /// creating it with `locks` if there is none.
    fn register_local(&mut self, x: usize, simulator: u64, locks: &Vec<u64>, count: usize)
        requires
            old(self).wf(),
            x < old(self).num_scenes(),
            count > 0,
            old(self).registration(x as int, simulator) matches Some((_, rc)) ==> rc + count
                <= usize::MAX,
        ensures
            final(self).wf(),
            SceneRegistry::same_meshes(final(self), old(self)),
            forall|y: int, sim: u64|
                0 <= y < old(self).num_scenes() ==> #[trigger] final(self).registration(y, sim) == if y
                    == x && sim == simulator {
                    registration_added(old(self).registration(y, sim), locks@, count as nat)
                } else {
                    old(self).registration(y, sim)
                },
    {
        proof {
            assert(self.scene_wf(x as int));
        }
        let ghost regs = self.scenes@[x as int].simulation_registrations@;
        let num = self.scenes[x].simulation_registrations.len();
        let mut i: usize = 0;
        while i < num
            invariant
                0 <= i <= num,
                num == regs.len(),
                self == old(self),
                regs == self.scenes@[x as int].simulation_registrations@,
                x < self.scenes@.len(),
                old(self).wf(),
                keys_distinct(regs),
                count > 0,
                registration_lookup(regs, simulator) matches Some((_, rc)) ==> rc + count
                    <= usize::MAX,
                forall|j: int| 0 <= j < i ==> #[trigger] regs[j].0 != simulator,
            decreases num - i,
        {
            if self.scenes[x].simulation_registrations[i].0 == simulator {
                proof {
                    lemma_lookup_at(regs, i as int);
                }
                let rc = self.scenes[x].simulation_registrations[i].1.ref_count;
                self.scenes[x].simulation_registrations[i].1.ref_count = rc + count;
                proof {
                    let e = self.scenes@[x as int].simulation_registrations@[i as int];
                    assert(self.scenes@[x as int].simulation_registrations@ =~= regs.update(
                        i as int,
                        e,
                    ));
                    lemma_lookup_update(regs, i as int, e);
                    assert forall|y: int| 0 <= y < self.scenes@.len() implies #[trigger] self.scene_wf(
                        y,
                    ) by {
                        assert(old(self).scene_wf(y));
                        if y == x {
                            let regs2 = self.scenes@[x as int].simulation_registrations@;
                            assert forall|j: int| 0 <= j < regs2.len() implies #[trigger] regs2[j].1.ref_count
                                > 0 by {
                                if j != i {
                                    assert(regs2[j] == regs[j]);
                                }
                            }
                        }
                    }
                }
                return;
            }
            i += 1;
        }
        let copied = copy_ids(locks);
        let e = (simulator, SceneSimulationRegistration { locks: copied, ref_count: count });
        self.scenes[x].simulation_registrations.push(e);
        proof {
            lemma_lookup_absent(regs, simulator);
            lemma_lookup_push(regs, e);
            assert forall|y: int| 0 <= y < self.scenes@.len() implies #[trigger] self.scene_wf(y) by {
                assert(old(self).scene_wf(y));
            }
        }
    }

    /// Scenes that hold the same meshes have the same children.
    pub proof fn lemma_same_meshes_same_edges(a: &Self, b: &Self)
        requires
            SceneRegistry::same_meshes(a, b),
        ensures
            a.edges() == b.edges(),
    {
        assert forall|x: int| 0 <= x < a.num_scenes() implies #[trigger] a.edges()[x] == b.edges()[x] by {
            assert(a.static_meshes(x) == b.static_meshes(x));
            assert(a.instanced_meshes(x) == b.instanced_meshes(x));
        }
        assert(a.edges() =~= b.edges());
    }

    /// Registers `simulator` `count` times with scene `x` and, through its children, with
    /// every scene below it, along paths that visit at most `fuel` scenes.
    #[verifier::spinoff_prover]
    fn register_rec(&mut self, x: usize, simulator: u64, locks: &Vec<u64>, count: usize, fuel: usize)
        requires
            old(self).wf(),
            x < old(self).num_scenes(),
            count > 0,
            forall|s: int|
                0 <= s < old(self).num_scenes() ==> room_for(
                    #[trigger] old(self).registration(s, simulator),
                    (count as nat) * num_paths(old(self).edges(), x as int, s, fuel as nat),
                ),
        ensures
            final(self).wf(),
            SceneRegistry::same_meshes(final(self), old(self)),
            forall|y: int, sim: u64|
                0 <= y < old(self).num_scenes() ==> #[trigger] final(self).registration(y, sim) == if sim
                    == simulator {
                    registration_added(
                        old(self).registration(y, sim),
                        locks@,
                        (count as nat) * num_paths(old(self).edges(), x as int, y, fuel as nat),
                    )
                } else {
                    old(self).registration(y, sim)
                },
        decreases fuel,
    {
        let ghost edges = old(self).edges();
        let ghost n = old(self).num_scenes();
        let num_scenes = self.scenes.len();
        if fuel == 0 {
            proof {
                assert forall|y: int, sim: u64| 0 <= y < n implies #[trigger] self.registration(y, sim)
                    == if sim == simulator {
                    registration_added(
                        old(self).registration(y, sim),
                        locks@,
                        (count as nat) * num_paths(edges, x as int, y, fuel as nat),
                    )
                } else {
                    old(self).registration(y, sim)
                } by {
                    assert((count as nat) * num_paths(edges, x as int, y, fuel as nat) == 0) by (nonlinear_arith)
                        requires
                            num_paths(edges, x as int, y, fuel as nat) == 0,
                    ;
                }
            }
            return;
        }
        proof {
            let s = x as int;
            assert(room_for(
                old(self).registration(s, simulator),
                (count as nat) * num_paths(edges, x as int, s, fuel as nat),
            ));
            lemma_room_step(
                old(self).registration(s, simulator),
                locks@,
                count as nat,
                0,
                1,
                num_paths(edges, x as int, s, fuel as nat),
            );
            assert((count as nat) * 0 == 0);
            assert((count as nat) * 1 == count);
        }
        self.register_local(x, simulator, locks, count);
        let children = self.sub_scenes(x);
        proof {
            SceneRegistry::lemma_same_meshes_same_edges(self, old(self));
        }
        let mut i: usize = 0;
        while i < children.len()
            invariant
                self.wf(),
                SceneRegistry::same_meshes(self, old(self)),
                self.edges() == edges,
                edges == old(self).edges(),
                n == old(self).num_scenes(),
                n == num_scenes,
                x < n,
                children@ == edges[x as int],
                forall|k: int| 0 <= k < children@.len() ==> #[trigger] children@[k] < n,
                0 <= i <= children@.len(),
                fuel > 0,
                count > 0,
                forall|s: int|
                    0 <= s < n ==> room_for(
                        #[trigger] old(self).registration(s, simulator),
                        (count as nat) * num_paths(edges, x as int, s, fuel as nat),
                    ),
                forall|y: int, sim: u64|
                    0 <= y < n ==> #[trigger] self.registration(y, sim) == if sim == simulator {
                        registration_added(
                            old(self).registration(y, sim),
                            locks@,
                            (count as nat) * ((if x == y {
                                1nat
                            } else {
                                0nat
                            }) + sum_paths(edges, children@.take(i as int), y, (fuel - 1) as nat)),
                        )
                    } else {
                        old(self).registration(y, sim)
                    },
            decreases children@.len() - i,
        {
            let c = children[i];
            assert(c < n);
            let cu = c as usize;
            assert(cu as int == c as int);
            let ghost before = *self;
            proof {
                assert forall|s: int| 0 <= s < n implies room_for(
                    #[trigger] self.registration(s, simulator),
                    (count as nat) * num_paths(self.edges(), c as int, s, (fuel - 1) as nat),
                ) by {
                    let p = (if x == s {
                        1nat
                    } else {
                        0nat
                    }) + sum_paths(edges, children@.take(i as int), s, (fuel - 1) as nat);
                    let q = num_paths(edges, c as int, s, (fuel - 1) as nat);
                    lemma_sum_paths_prefix(edges, children@, i as int, s, (fuel - 1) as nat);
                    lemma_sum_paths_prefix_le(edges, children@, i as int + 1, s, (fuel - 1) as nat);
                    assert(num_paths(edges, x as int, s, fuel as nat) == (if x == s {
                        1nat
                    } else {
                        0nat
                    }) + sum_paths(edges, edges[x as int], s, (fuel - 1) as nat));
                    assert(room_for(
                        old(self).registration(s, simulator),
                        (count as nat) * num_paths(edges, x as int, s, fuel as nat),
                    ));
                    lemma_room_step(
                        old(self).registration(s, simulator),
                        locks@,
                        count as nat,
                        p,
                        q,
                        num_paths(edges, x as int, s, fuel as nat),
                    );
                }
            }
            self.register_rec(cu, simulator, locks, count, fuel - 1);
            proof {
                assert forall|y: int, sim: u64| 0 <= y < n implies #[trigger] self.registration(y, sim)
                    == if sim == simulator {
                    registration_added(
                        old(self).registration(y, sim),
                        locks@,
                        (count as nat) * ((if x == y {
                            1nat
                        } else {
                            0nat
                        }) + sum_paths(edges, children@.take(i + 1), y, (fuel - 1) as nat)),
                    )
                } else {
                    old(self).registration(y, sim)
                } by {
                    if sim == simulator {
                        let p = (if x == y {
                            1nat
                        } else {
                            0nat
                        }) + sum_paths(edges, children@.take(i as int), y, (fuel - 1) as nat);
                        let q = num_paths(edges, c as int, y, (fuel - 1) as nat);
                        lemma_sum_paths_prefix(edges, children@, i as int, y, (fuel - 1) as nat);
                        lemma_sum_paths_prefix_le(edges, children@, i as int + 1, y, (fuel - 1) as nat);
                        assert(before.registration(y, sim) == registration_added(
                            old(self).registration(y, sim),
                            locks@,
                            (count as nat) * p,
                        ));
                        assert(room_for(
                            old(self).registration(y, simulator),
                            (count as nat) * num_paths(edges, x as int, y, fuel as nat),
                        ));
                        lemma_room_step(
                            old(self).registration(y, sim),
                            locks@,
                            count as nat,
                            p,
                            q,
                            num_paths(edges, x as int, y, fuel as nat),
                        );
                        lemma_registration_added_twice(
                            old(self).registration(y, sim),
                            locks@,
                            (count as nat) * p,
                            (count as nat) * q,
                        );
                    } else {
                        assert(before.registration(y, sim) == old(self).registration(y, sim));
                    }
                }
                SceneRegistry::lemma_same_meshes_same_edges(self, old(self));
            }
            i += 1;
        }
        proof {
            assert(children@.take(children@.len() as int) =~= children@);
        }
    }

    /// Registers `simulator` with scene `scene` and every scene below it: each scene
    /// reached along `k` paths gains `count * k` references, a new registration taking
    /// the identifiers `locks` of the simulation locks to hold while committing.
    /// Registering follows every path down the hierarchy, so it never ends where a scene
    /// below `scene` leads back to itself: unless `count` is zero, no such scene may be
    /// below `scene` ([`Self::can_register`] tells).
    pub fn register_simulator(&mut self, scene: usize, simulator: u64, locks: &Vec<u64>, count: usize)
        requires
            old(self).wf(),
            scene < old(self).num_scenes(),
            count > 0 ==> !long_walk(old(self).edges(), scene as int, old(self).num_scenes()),
            forall|s: int|
                0 <= s < old(self).num_scenes() ==> room_for(
                    #[trigger] old(self).registration(s, simulator),
                    (count as nat) * num_paths(old(self).edges(), scene as int, s, old(self).num_scenes()),
                ),
        ensures
            final(self).wf(),
            SceneRegistry::same_meshes(final(self), old(self)),
            forall|y: int, sim: u64|
                0 <= y < old(self).num_scenes() ==> #[trigger] final(self).registration(y, sim) == if sim
                    == simulator {
                    registration_added(
                        old(self).registration(y, sim),
                        locks@,
                        (count as nat) * num_paths(old(self).edges(), scene as int, y, old(self).num_scenes()),
                    )
                } else {
                    old(self).registration(y, sim)
                },
            final(self).simulator_state(simulator) == old(self).state_after_register(
                scene as int,
                simulator,
                locks@,
                count as nat,
            ),
    {
        if count == 0 {
            proof {
                assert forall|y: int, sim: u64| 0 <= y < old(self).num_scenes() implies #[trigger] self.registration(
                    y,
                    sim,
                ) == if sim == simulator {
                    registration_added(
                        old(self).registration(y, sim),
                        locks@,
                        (count as nat) * num_paths(old(self).edges(), scene as int, y, old(self).num_scenes()),
                    )
                } else {
                    old(self).registration(y, sim)
                } by {
                    let k = num_paths(old(self).edges(), scene as int, y, old(self).num_scenes());
                    assert((count as nat) * k == 0) by (nonlinear_arith)
                        requires
                            count == 0,
                    ;
                }
                assert(self.simulator_state(simulator) =~= old(self).state_after_register(
                    scene as int,
                    simulator,
                    locks@,
                    count as nat,
                ));
            }
            return;
        }
        let fuel = self.scenes.len();
        self.register_rec(scene, simulator, locks, count, fuel);
        proof {
            assert(self.simulator_state(simulator) =~= old(self).state_after_register(
                scene as int,
                simulator,
                locks@,
                count as nat,
            ));
        }
    }

    /// Drops `count` references of `simulator` from the registration of scene `x` alone
    /// (removing it when no more than `count` are left); returns whether there was one.
    fn unregister_local(&mut self, x: usize, simulator: u64, count: usize) -> (found: bool)
        requires
            old(self).wf(),
            x < old(self).num_scenes(),
        ensures
            final(self).wf(),
            SceneRegistry::same_meshes(final(self), old(self)),
            found == old(self).registration(x as int, simulator) is Some,
            forall|y: int, sim: u64|
                0 <= y < old(self).num_scenes() ==> #[trigger] final(self).registration(y, sim) == if y
                    == x && sim == simulator {
                    registration_removed(old(self).registration(y, sim), count as nat)
                } else {
                    old(self).registration(y, sim)
                },
    {
        proof {
            assert(self.scene_wf(x as int));
        }
        let ghost regs = self.scenes@[x as int].simulation_registrations@;
        let num = self.scenes[x].simulation_registrations.len();
        let mut i: usize = 0;
        while i < num
            invariant
                0 <= i <= num,
                num == regs.len(),
                self == old(self),
                old(self).wf(),
                regs == self.scenes@[x as int].simulation_registrations@,
                x < self.scenes@.len(),
                keys_distinct(regs),
                forall|j: int| 0 <= j < i ==> #[trigger] regs[j].0 != simulator,
            decreases num - i,
        {
            if self.scenes[x].simulation_registrations[i].0 == simulator {
                proof {
                    lemma_lookup_at(regs, i as int);
                }
                let rc = self.scenes[x].simulation_registrations[i].1.ref_count;
                if rc <= count {
                    let _ = self.scenes[x].simulation_registrations.remove(i);
                    proof {
                        lemma_lookup_remove(regs, i as int);
                        assert forall|y: int| 0 <= y < self.scenes@.len() implies #[trigger] self.scene_wf(
                            y,
                        ) by {
                            assert(old(self).scene_wf(y));
                            if y == x {
                                let regs2 = self.scenes@[x as int].simulation_registrations@;
                                assert forall|j: int| 0 <= j < regs2.len() implies #[trigger] regs2[j].1.ref_count
                                    > 0 by {
                                    let j1 = if j < i { j } else { j + 1 };
                                    assert(regs2[j] == regs[j1]);
                                }
                            }
                        }
                    }
                } else {
                    self.scenes[x].simulation_registrations[i].1.ref_count = rc - count;
                    proof {
                        let e = self.scenes@[x as int].simulation_registrations@[i as int];
                        assert(self.scenes@[x as int].simulation_registrations@ =~= regs.update(
                            i as int,
                            e,
                        ));
                        lemma_lookup_update(regs, i as int, e);
                        assert forall|y: int| 0 <= y < self.scenes@.len() implies #[trigger] self.scene_wf(
                            y,
                        ) by {
                            assert(old(self).scene_wf(y));
                            if y == x {
                                let regs2 = self.scenes@[x as int].simulation_registrations@;
                                assert forall|j: int| 0 <= j < regs2.len() implies #[trigger] regs2[j].1.ref_count
                                    > 0 by {
                                    if j != i {
                                        assert(regs2[j] == regs[j]);
                                    }
                                }
                            }
                        }
                    }
                }
                return true;
            }
            i += 1;
        }
        proof {
            lemma_lookup_absent(regs, simulator);
        }
        false
    }

    /// Unregisters `simulator` `count` times from scene `x` and below, walking through
    /// registered scenes along paths that visit at most `fuel` scenes.
    #[verifier::spinoff_prover]
    fn unregister_rec(&mut self, x: usize, simulator: u64, count: usize, fuel: u128)
        requires
            old(self).wf(),
            x < old(self).num_scenes(),
        ensures
            final(self).wf(),
            SceneRegistry::same_meshes(final(self), old(self)),
            final(self).simulator_state(simulator) == unregister_walk(
                old(self).edges(),
                old(self).simulator_state(simulator),
                x as int,
                count as nat,
                fuel as nat,
            ),
            forall|y: int, sim: u64|
                0 <= y < old(self).num_scenes() && sim != simulator ==> #[trigger] final(self).registration(y, sim) == old(self).registration(y, sim),
        decreases fuel,
    {
        let ghost edges = old(self).edges();
        let ghost n = old(self).num_scenes();
        let ghost state0 = old(self).simulator_state(simulator);
        let num_scenes = self.scenes.len();
        if fuel == 0 {
            return;
        }
        let found = self.unregister_local(x, simulator, count);
        let ghost state1 = state0.update(x as int, registration_removed(state0[x as int], count as nat));
        if !found {
            proof {
                assert(self.simulator_state(simulator) =~= state0);
            }
            return;
        }
        proof {
            assert(self.simulator_state(simulator) =~= state1);
        }
        let children = self.sub_scenes(x);
        proof {
            SceneRegistry::lemma_same_meshes_same_edges(self, old(self));
        }
        let mut i: usize = 0;
        while i < children.len()
            invariant
                self.wf(),
                SceneRegistry::same_meshes(self, old(self)),
                self.edges() == edges,
                edges == old(self).edges(),
                n == old(self).num_scenes(),
                n == num_scenes,
                x < n,
                children@ == edges[x as int],
                forall|k: int| 0 <= k < children@.len() ==> #[trigger] children@[k] < n,
                0 <= i <= children@.len(),
                fuel > 0,
                self.simulator_state(simulator) == unregister_walk_children(
                    edges,
                    state1,
                    children@.take(i as int),
                    count as nat,
                    (fuel - 1) as nat,
                ),
                forall|y: int, sim: u64|
                    0 <= y < n && sim != simulator ==> #[trigger] self.registration(y, sim) == old(self).registration(y, sim),
            decreases children@.len() - i,
        {
            let c = children[i];
            assert(c < n);
            let cu = c as usize;
            let ghost before = *self;
            self.unregister_rec(cu, simulator, count, fuel - 1);
            proof {
                assert(children@.take(i + 1).drop_last() =~= children@.take(i as int));
                SceneRegistry::lemma_same_meshes_same_edges(self, old(self));
            }
            i += 1;
        }
        proof {
            assert(children@.take(children@.len() as int) =~= children@);
        }
    }

    /// Unregisters `simulator` `count` times from scene `scene` and, through its
    /// children, from the scenes below it; the walk stops at scenes without a
    /// registration of `simulator`. Each visit drops at least one reference, so the
    /// walk ends on any hierarchy, after as many visits as there are references at most.
    pub fn unregister_simulator(&mut self, scene: usize, simulator: u64, count: usize)
        requires
            old(self).wf(),
            scene < old(self).num_scenes(),
        ensures
            final(self).wf(),
            SceneRegistry::same_meshes(final(self), old(self)),
            count == 0 ==> final(self).simulator_state(simulator) == old(self).simulator_state(simulator),
            count > 0 ==> final(self).simulator_state(simulator) == unregister_walk(
                old(self).edges(),
                old(self).simulator_state(simulator),
                scene as int,
                count as nat,
                total_refs(old(self).simulator_state(simulator)),
            ),
            forall|y: int, sim: u64|
                0 <= y < old(self).num_scenes() && sim != simulator ==> #[trigger] final(self).registration(y, sim) == old(self).registration(y, sim),
    {
        if count == 0 {
            return;
        }
        let fuel = self.total_refs_of(simulator);
        self.unregister_rec(scene, simulator, count, fuel);
    }

    /// Returns the references of `simulator`, summed over all scenes.
    fn total_refs_of(&self, simulator: u64) -> (r: u128)
        requires
            self.wf(),
        ensures
            r == total_refs(self.simulator_state(simulator)),
    {
        let n = self.scenes.len();
        let ghost st = self.simulator_state(simulator);
        let mut total: u128 = 0;
        let mut x: usize = 0;
        while x < n
            invariant
                self.wf(),
                n == self.num_scenes(),
                st == self.simulator_state(simulator),
                0 <= x <= n,
                total == total_refs(st.take(x as int)),
                total <= x * 0xffff_ffff_ffff_ffffnat,
            decreases n - x,
        {
            let rc = self.registration_ref_count(x, simulator);
            proof {
                assert(st.take(x + 1).drop_last() =~= st.take(x as int));
                assert(st.take(x + 1).last() == st[x as int]);
                assert(refs_of(st[x as int]) == rc);
                assert(x * 0xffff_ffff_ffff_ffffnat + 0xffff_ffff_ffff_ffffnat == (x + 1) * 0xffff_ffff_ffff_ffffnat)
                    by (nonlinear_arith);
                assert((x + 1) * 0xffff_ffff_ffff_ffffnat <= 0xffff_ffff_ffff_ffffnat * 0xffff_ffff_ffff_ffffnat)
                    by (nonlinear_arith)
                    requires
                        x + 1 <= 0xffff_ffff_ffff_ffffnat,
                ;
            }
            total = total + rc as u128;
            x += 1;
        }
        proof {
            assert(st.take(n as int) =~= st);
        }
        total
    }

    /// The children of every scene once an instanced mesh with key `key` and sub-scene
    /// `sub_scene` joins scene `scene`.
    pub open spec fn edges_after_adding(&self, scene: int, key: u64, sub_scene: u64) -> Seq<Seq<u64>> {
        self.edges().update(
            scene,
            children_of(self.instanced_meshes(scene).insert(key, sub_scene), self.pending_instanced(scene)),
        )
    }

    /// The registrations of `simulator`, scene by scene, once an instanced mesh with key
    /// `key` and sub-scene `sub_scene` joins scene `scene`: each reference held at
    /// `scene` reaches every scene below the sub-scene once per path.
    pub open spec fn state_after_adding(&self, scene: int, key: u64, sub_scene: u64, simulator: u64) -> Seq<
        Option<(Seq<u64>, nat)>,
    > {
        Seq::new(
            self.num_scenes(),
            |y: int|
                match self.registration(scene, simulator) {
                    Some((locks, rc)) => registration_added(
                        self.registration(y, simulator),
                        locks,
                        rc * num_paths(
                            self.edges_after_adding(scene, key, sub_scene),
                            sub_scene as int,
                            y,
                            self.num_scenes(),
                        ),
                    ),
                    None => self.registration(y, simulator),
                },
        )
    }

    /// Committing a scene after any number of its instanced meshes were removed drops
    /// exactly the references that those meshes brought: when every scene holds, for a
    /// simulator registered with `scene` (count `rc`), its registration in `base` plus
    /// `rc` references per path from each removed sub-scene, and no scene below a removed
    /// sub-scene leads back to itself, the unregistration that the commit performs from
    /// all of them leaves the registrations of `base`.
    pub proof fn lemma_commit_undoes_instances(
        &self,
        scene: int,
        simulator: u64,
        edges: Seq<Seq<u64>>,
        base: Seq<Option<(Seq<u64>, nat)>>,
        locks: Seq<u64>,
    )
        requires
            self.wf(),
            0 <= scene < self.num_scenes(),
            self.registration(scene, simulator) is Some,
            edges.len() == self.num_scenes(),
            edges_in_range(edges),
            base.len() == self.num_scenes(),
            counts_positive(base),
            forall|i: int|
                0 <= i < self.pending_instanced(scene).len() ==> #[trigger] self.pending_instanced(scene)[i]
                    < self.num_scenes(),
            forall|i: int|
                0 <= i < self.pending_instanced(scene).len() ==> !long_walk(
                    edges,
                    #[trigger] self.pending_instanced(scene)[i] as int,
                    self.num_scenes(),
                ),
            self.simulator_state(simulator) == state_added(
                base,
                locks,
                self.registration(scene, simulator).unwrap().1,
                |y: int| sum_paths(edges, self.pending_instanced(scene), y, self.num_scenes()),
            ),
        ensures
            unregister_each(
                edges,
                self.simulator_state(simulator),
                self.pending_instanced(scene),
                self.registration(scene, simulator).unwrap().1,
            ) == base,
    {
        let rc = self.registration(scene, simulator).unwrap().1;
        let n = self.num_scenes();
        let roots = self.pending_instanced(scene);
        self.lemma_counts_positive(simulator);
        assert(self.simulator_state(simulator)[scene] == self.registration(scene, simulator));
        assert(rc > 0);
        let zero = |y: int| 0nat;
        assert(self.simulator_state(simulator) =~= state_added(
            base,
            locks,
            rc,
            |y: int| zero(y) + sum_paths(edges, roots, y, n),
        ));
        lemma_unregister_each_removes_paths(edges, base, locks, rc, roots, zero);
        assert forall|y: int| 0 <= y < n implies #[trigger] state_added(base, locks, rc, zero)[y] == base[y] by {
            assert(rc * zero(y) == 0);
        }
        assert(state_added(base, locks, rc, zero) =~= base);
    }

    /// Committing a scene after one of its instanced meshes was removed drops exactly the
    /// references that adding the mesh brought: when the sub-scene does not lead back to
    /// the scene, unregistering every simulator of the scene from the sub-scene leaves
    /// each scene with the registration it had before the mesh was added.
    pub proof fn lemma_commit_undoes_instance(&self, scene: int, key: u64, sub_scene: u64, simulator: u64)
        requires
            self.wf(),
            0 <= scene < self.num_scenes(),
            sub_scene < self.num_scenes(),
            num_paths(self.edges(), sub_scene as int, scene, self.num_scenes()) == 0,
            !long_walk(self.edges(), sub_scene as int, self.num_scenes()),
        ensures
            self.registration(scene, simulator) matches Some((_, rc)) ==> unregister_each(
                self.edges(),
                self.state_after_adding(scene, key, sub_scene, simulator),
                seq![sub_scene],
                rc,
            ) == self.simulator_state(simulator),
    {
        let n = self.num_scenes();
        let edges = self.edges();
        let edges2 = self.edges_after_adding(scene, key, sub_scene);
        let base = self.simulator_state(simulator);
        self.lemma_edges_in_range();
        self.lemma_counts_positive(simulator);
        lemma_paths_avoiding(edges, edges2, scene, sub_scene as int, n);
        if self.registration(scene, simulator) is Some {
            let locks = self.registration(scene, simulator).unwrap().0;
            let rc = self.registration(scene, simulator).unwrap().1;
            assert(base[scene] is Some);
            assert(rc > 0);
            let zero = |y: int| 0nat;
            let st = self.state_after_adding(scene, key, sub_scene, simulator);
            assert forall|y: int| 0 <= y < n implies #[trigger] st[y] == state_added(
                base,
                locks,
                rc,
                |y: int| zero(y) + num_paths(edges, sub_scene as int, y, n),
            )[y] by {
                assert(num_paths(edges2, sub_scene as int, y, n) == num_paths(edges, sub_scene as int, y, n));
            }
            assert(st =~= state_added(
                base,
                locks,
                rc,
                |y: int| zero(y) + num_paths(edges, sub_scene as int, y, n),
            ));
            lemma_walk_removes_paths(edges, base, locks, rc, sub_scene as int, n, zero);
            assert forall|y: int| 0 <= y < n implies #[trigger] state_added(base, locks, rc, zero)[y] == base[y] by {
                assert(rc * zero(y) == 0);
            }
            assert(state_added(base, locks, rc, zero) =~= base);
            let roots = seq![sub_scene];
            assert(roots.drop_last() =~= Seq::<u64>::empty());
            assert(unregister_each(edges, st, roots.drop_last(), rc) == st);
            lemma_state_added_counts_positive(base, locks, rc, |y: int| zero(y) + num_paths(edges, sub_scene as int, y, n));
            let more = if n >= total_refs(st) { n } else { total_refs(st) };
            lemma_walk_no_long_walk(edges, st, sub_scene as int, rc, n, more);
            lemma_walk_fuel_enough(edges, st, sub_scene as int, rc, total_refs(st), more);
        }
    }

    /// Returns copies of the registrations of scene `x`, in the order they are kept.
    fn registration_snapshots(&self, x: usize) -> (r: Vec<(u64, SceneSimulationRegistration)>)
        requires
            self.wf(),
            x < self.num_scenes(),
        ensures
            r@.len() == self.scenes@[x as int].simulation_registrations@.len(),
            forall|i: int|
                0 <= i < r@.len() ==> {
                    &&& #[trigger] r@[i].0 == self.scenes@[x as int].simulation_registrations@[i].0
                    &&& registration_view(r@[i].1) == registration_view(
                        self.scenes@[x as int].simulation_registrations@[i].1,
                    )
                },
    {
        let regs = &self.scenes[x].simulation_registrations;
        let mut r: Vec<(u64, SceneSimulationRegistration)> = Vec::new();
        let mut i: usize = 0;
        while i < regs.len()
            invariant
                0 <= i <= regs@.len(),
                r@.len() == i,
                forall|j: int|
                    0 <= j < i ==> {
                        &&& #[trigger] r@[j].0 == regs@[j].0
                        &&& registration_view(r@[j].1) == registration_view(regs@[j].1)
                    },
            decreases regs@.len() - i,
        {
            let locks = copy_ids(&regs[i].1.locks);
            r.push((regs[i].0, SceneSimulationRegistration { locks, ref_count: regs[i].1.ref_count }));
            i += 1;
        }
        r
    }

    /// What adding an instanced mesh with key `key` and sub-scene `sub_scene` to scene
    /// `scene` of `old` makes of it, as `new`: the key was free and now holds the
    /// sub-scene, nothing else about the meshes changes, and every simulator registered
    /// with `scene` (count `rc`) gains `rc` references per path from the sub-scene.
    pub open spec fn instanced_mesh_added(old: &Self, new: &Self, scene: int, sub_scene: u64, key: u64) -> bool {
        &&& new.wf()
        &&& new.num_scenes() == old.num_scenes()
        &&& !old.instanced_meshes(scene).dom().contains(key)
        &&& new.instanced_meshes(scene) == old.instanced_meshes(scene).insert(key, sub_scene)
        &&& new.edges() == old.edges_after_adding(scene, key, sub_scene)
        &&& forall|x: int|
            0 <= x < old.num_scenes() && x != scene ==> #[trigger] new.instanced_meshes(x)
                == old.instanced_meshes(x)
        &&& forall|x: int|
            0 <= x < old.num_scenes() ==> {
                &&& #[trigger] new.static_meshes(x) == old.static_meshes(x)
                &&& new.pending_static(x) == old.pending_static(x)
                &&& new.pending_instanced(x) == old.pending_instanced(x)
            }
        &&& forall|y: int, sim: u64|
            0 <= y < old.num_scenes() ==> #[trigger] new.registration(y, sim) == match old.registration(
                scene,
                sim,
            ) {
                Some((_, rc)) => registration_added(
                    old.registration(y, sim),
                    old.registration(scene, sim).unwrap().0,
                    rc * num_paths(new.edges(), sub_scene as int, y, old.num_scenes()),
                ),
                None => old.registration(y, sim),
            }
        &&& forall|sim: u64| #[trigger]
            new.simulator_state(sim) == old.state_after_adding(scene, key, sub_scene, sim)
    }

    /// The children of every scene once `sub_scene` joins the children of `scene`, last.
    pub open spec fn edges_with_child(&self, scene: int, sub_scene: u64) -> Seq<Seq<u64>> {
        self.edges().update(scene, self.edges()[scene].push(sub_scene))
    }

    /// Whether a new instanced mesh of `sub_scene` may join scene `scene`: registering the
    /// simulators of `scene` with the sub-scene ends, and the references it brings (each
    /// reference held at `scene` once per path from the sub-scene) fit in every count.
    pub open spec fn room_for_new_instance(&self, scene: int, sub_scene: u64) -> bool {
        &&& self.acyclic_for_new_instance(scene, sub_scene)
        &&& self.counts_fit_new_instance(scene, sub_scene)
    }

    /// Whether registering the simulators of scene `scene` with a new sub-scene
    /// `sub_scene` ends: when some simulator is registered with `scene`, no scene below
    /// the sub-scene leads back to itself once the sub-scene is a child of `scene`.
    pub open spec fn acyclic_for_new_instance(&self, scene: int, sub_scene: u64) -> bool {
        forall|sim: u64|
            #[trigger] self.registration(scene, sim) is Some ==> !long_walk(
                self.edges_with_child(scene, sub_scene),
                sub_scene as int,
                self.num_scenes(),
            )
    }

    /// Whether the references that a new instanced mesh of `sub_scene` in scene `scene`
    /// would bring fit in every registration's count.
    pub open spec fn counts_fit_new_instance(&self, scene: int, sub_scene: u64) -> bool {
        forall|sim: u64, s: int|
            0 <= s < self.num_scenes() ==> (#[trigger] self.registration(scene, sim) matches Some(
                (_, rc),
            ) ==> room_for(
                #[trigger] self.registration(s, sim),
                rc * num_paths(self.edges_with_child(scene, sub_scene), sub_scene as int, s, self.num_scenes()),
            ))
    }

    /// Where the slot map files a new instanced mesh does not change the paths from any
    /// scene: they are those of the hierarchy with the sub-scene added last.
    pub proof fn lemma_adding_keeps_paths(&self, scene: int, key: u64, sub_scene: u64)
        requires
            self.wf(),
            0 <= scene < self.num_scenes(),
            sub_scene < self.num_scenes(),
            !self.instanced_meshes(scene).dom().contains(key),
            contents_wf(self.instanced_meshes(scene).insert(key, sub_scene)),
        ensures
            forall|x: int, y: int|
                0 <= x < self.num_scenes() ==> #[trigger] num_paths(
                    self.edges_after_adding(scene, key, sub_scene),
                    x,
                    y,
                    self.num_scenes(),
                ) == num_paths(self.edges_with_child(scene, sub_scene), x, y, self.num_scenes()),
            forall|x: int, k: nat|
                0 <= x < self.num_scenes() ==> #[trigger] long_walk(
                    self.edges_after_adding(scene, key, sub_scene),
                    x,
                    k,
                ) == long_walk(self.edges_with_child(scene, sub_scene), x, k),
    {
        let n = self.num_scenes();
        let m = self.instanced_meshes(scene);
        let p = self.pending_instanced(scene);
        let e1 = self.edges_after_adding(scene, key, sub_scene);
        let e2 = self.edges_with_child(scene, sub_scene);
        self.lemma_edges_in_range();
        assert(self.scene_wf(scene));
        lemma_entries_after_insert(m, key, sub_scene);
        let i = choose|i: int|
            0 <= i <= entries_of(m).len() && entries_of(m.insert(key, sub_scene)) == #[trigger] entries_of(
                m,
            ).insert(i, (key, sub_scene));
        let vals = entries_of(m).map_values(|e: (u64, u64)| e.1);
        let base = vals + p;
        assert(entries_of(m.insert(key, sub_scene)).map_values(|e: (u64, u64)| e.1) =~= vals.insert(i, sub_scene));
        assert(e1[scene] =~= base.insert(i, sub_scene));
        assert(e2[scene] =~= base.push(sub_scene));
        assert(same_children(e1[scene], e2[scene]));
        assert forall|z: int| 0 <= z < e1.len() implies #[trigger] same_children(e1[z], e2[z]) by {
            if z != scene {
                assert(e1[z] == e2[z]);
            }
        }
        assert forall|x: int, j: int| 0 <= x < e1.len() && 0 <= j < e1[x].len() implies #[trigger] e1[x][j]
            < e1.len() by {
            if x == scene {
                if j < i {
                    assert(e1[x][j] == base[j]);
                } else if j > i {
                    assert(e1[x][j] == base[j - 1]);
                }
                if e1[x][j] != sub_scene {
                    let k = if j < i { j } else { j - 1 };
                    assert(base[k] == e1[x][j]);
                    assert(self.edges()[scene][k] == base[k]);
                }
            } else {
                assert(e1[x] == self.edges()[x]);
            }
        }
        assert forall|x: int, j: int| 0 <= x < e2.len() && 0 <= j < e2[x].len() implies #[trigger] e2[x][j]
            < e2.len() by {
            if x == scene && j == e2[x].len() - 1 {
            } else if x == scene {
                assert(e2[x][j] == self.edges()[scene][j]);
            } else {
                assert(e2[x] == self.edges()[x]);
            }
        }
        assert forall|x: int, y: int| 0 <= x < n implies #[trigger] num_paths(e1, x, y, n) == num_paths(e2, x, y, n) by {
            lemma_paths_same_children(e1, e2, x, n);
        }
        assert forall|x: int, k: nat| 0 <= x < n implies #[trigger] long_walk(e1, x, k) == long_walk(e2, x, k) by {
            lemma_long_walk_same_children(e1, e2, x, k);
        }
    }

    /// Stores an instanced mesh of sub-scene `sub_scene` in scene `scene`, without
    /// touching any registration, and returns its key.
    fn insert_instanced_mesh(&mut self, scene: usize, sub_scene: usize) -> (key: u64)
        requires
            old(self).wf(),
            scene < old(self).num_scenes(),
            sub_scene < old(self).num_scenes(),
            old(self).instanced_meshes(scene as int).len() < u32::MAX - 1,
        ensures
            final(self).wf(),
            final(self).num_scenes() == old(self).num_scenes(),
            key_is_occupied_version(key),
            !old(self).instanced_meshes(scene as int).dom().contains(key),
            final(self).instanced_meshes(scene as int) == old(self).instanced_meshes(
                scene as int,
            ).insert(key, sub_scene as u64),
            final(self).edges() == old(self).edges_after_adding(scene as int, key, sub_scene as u64),
            forall|x: int|
                0 <= x < old(self).num_scenes() && x != scene ==> #[trigger] final(self).instanced_meshes(
                    x,
                ) == old(self).instanced_meshes(x),
            forall|x: int|
                0 <= x < old(self).num_scenes() ==> {
                    &&& #[trigger] final(self).static_meshes(x) == old(self).static_meshes(x)
                    &&& final(self).pending_static(x) == old(self).pending_static(x)
                    &&& final(self).pending_instanced(x) == old(self).pending_instanced(x)
                },
            SceneRegistry::same_registrations(final(self), old(self)),
            final(self).scenes@[scene as int].simulation_registrations@ == old(self).scenes@[scene as int].simulation_registrations@,
    {
        proof {
            assert(self.scene_wf(scene as int));
        }
        let key = slot_map_insert(&mut self.scenes[scene].instanced_meshes, sub_scene as u64);
        proof {
            assert forall|x: int| 0 <= x < self.scenes@.len() implies #[trigger] self.scene_wf(x) by {
                assert(old(self).scene_wf(x));
                if x == scene {
                    let m = slot_map_contents(self.scenes@[x].instanced_meshes);
                    assert forall|k: u64| #[trigger] m.dom().contains(k) implies m[k] < self.scenes@.len() by {
                        if k != key {
                            assert(slot_map_contents(old(self).scenes@[x].instanced_meshes).dom().contains(k));
                        }
                    }
                }
            }
            assert(slot_map_contents(self.scenes@[scene as int].instanced_meshes).dom().contains(key));
            assert forall|x: int| 0 <= x < self.num_scenes() implies #[trigger] self.edges()[x]
                == old(self).edges_after_adding(scene as int, key, sub_scene as u64)[x] by {
                assert(self.static_meshes(x) == old(self).static_meshes(x));
            }
            assert(self.edges() =~= old(self).edges_after_adding(scene as int, key, sub_scene as u64));
        }
        key
    }

    /// Registers every simulator registered with scene `scene` (count `rc`) with the
    /// hierarchy of `sub_scene`: a scene reached from it along `k` paths gains `rc * k`
    /// references.
    #[verifier::spinoff_prover]
    fn propagate_registrations(&mut self, scene: usize, sub_scene: usize)
        requires
            old(self).wf(),
            scene < old(self).num_scenes(),
            sub_scene < old(self).num_scenes(),
            forall|sim: u64, s: int|
                0 <= s < old(self).num_scenes() ==> (#[trigger] old(self).registration(scene as int, sim) matches Some(
                    (_, rc),
                ) ==> room_for(
                    #[trigger] old(self).registration(s, sim),
                    rc * num_paths(old(self).edges(), sub_scene as int, s, old(self).num_scenes()),
                )),
            forall|sim: u64|
                #[trigger] old(self).registration(scene as int, sim) is Some ==> !long_walk(
                    old(self).edges(),
                    sub_scene as int,
                    old(self).num_scenes(),
                ),
        ensures
            final(self).wf(),
            SceneRegistry::same_meshes(final(self), old(self)),
            forall|y: int, sim: u64|
                0 <= y < old(self).num_scenes() ==> #[trigger] final(self).registration(y, sim) == match old(self).registration(scene as int, sim) {
                    Some((_, rc)) => registration_added(
                        old(self).registration(y, sim),
                        old(self).registration(scene as int, sim).unwrap().0,
                        rc * num_paths(old(self).edges(), sub_scene as int, y, old(self).num_scenes()),
                    ),
                    None => old(self).registration(y, sim),
                },
    {
        proof {
            assert(self.scene_wf(scene as int));
        }
        let ghost regs = self.scenes@[scene as int].simulation_registrations@;
        let ghost edges = self.edges();
        let ghost n = self.num_scenes();
        let snapshot = self.registration_snapshots(scene);
        let mut k: usize = 0;
        while k < snapshot.len()
            invariant
                self.wf(),
                SceneRegistry::same_meshes(self, old(self)),
                self.edges() == edges,
                edges == old(self).edges(),
                n == self.num_scenes(),
                n == old(self).num_scenes(),
                scene < n,
                sub_scene < n,
                keys_distinct(regs),
                snapshot@.len() == regs.len(),
                regs == old(self).scenes@[scene as int].simulation_registrations@,
                forall|i: int|
                    0 <= i < snapshot@.len() ==> {
                        &&& #[trigger] snapshot@[i].0 == regs[i].0
                        &&& registration_view(snapshot@[i].1) == registration_view(regs[i].1)
                    },
                0 <= k <= snapshot@.len(),
                forall|sim: u64, s: int|
                    0 <= s < n ==> (#[trigger] old(self).registration(scene as int, sim) matches Some(
                        (_, rc),
                    ) ==> room_for(
                        #[trigger] old(self).registration(s, sim),
                        rc * num_paths(edges, sub_scene as int, s, n),
                    )),
                forall|sim: u64|
                    #[trigger] old(self).registration(scene as int, sim) is Some ==> !long_walk(
                        edges,
                        sub_scene as int,
                        n,
                    ),
                forall|y: int, sim: u64|
                    0 <= y < n ==> #[trigger] self.registration(y, sim) == if exists|j: int|
                        0 <= j < k && regs[j].0 == sim {
                        registration_added(
                            old(self).registration(y, sim),
                            old(self).registration(scene as int, sim).unwrap().0,
                            old(self).registration(scene as int, sim).unwrap().1 * num_paths(
                                edges,
                                sub_scene as int,
                                y,
                                n,
                            ),
                        )
                    } else {
                        old(self).registration(y, sim)
                    },
            decreases snapshot@.len() - k,
        {
            let sim = snapshot[k].0;
            let rc = snapshot[k].1.ref_count;
            let ghost before = *self;
            proof {
                lemma_lookup_at(regs, k as int);
                assert(old(self).registration(scene as int, sim) == Some(registration_view(regs[k as int].1)));
                assert forall|s: int| 0 <= s < n implies room_for(
                    #[trigger] self.registration(s, sim),
                    (rc as nat) * num_paths(self.edges(), sub_scene as int, s, self.num_scenes()),
                ) by {
                    assert(!exists|j: int| 0 <= j < k && regs[j].0 == sim) by {
                        assert forall|j: int| 0 <= j < k implies regs[j].0 != sim by {
                            assert(regs[j].0 != regs[k as int].0);
                        }
                    }
                    assert(self.registration(s, sim) == old(self).registration(s, sim));
                    assert(old(self).registration(scene as int, sim) matches Some((_, rc0)) && rc0 == rc);
                }
            }
            self.register_simulator(sub_scene, sim, &snapshot[k].1.locks, rc);
            proof {
                SceneRegistry::lemma_same_meshes_same_edges(self, &before);
                assert forall|y: int, sim2: u64| 0 <= y < n implies #[trigger] self.registration(y, sim2)
                    == if exists|j: int| 0 <= j < k + 1 && regs[j].0 == sim2 {
                    registration_added(
                        old(self).registration(y, sim2),
                        old(self).registration(scene as int, sim2).unwrap().0,
                        old(self).registration(scene as int, sim2).unwrap().1 * num_paths(
                            edges,
                            sub_scene as int,
                            y,
                            n,
                        ),
                    )
                } else {
                    old(self).registration(y, sim2)
                } by {
                    if sim2 == sim {
                        assert(regs[k as int].0 == sim2);
                        assert(!exists|j: int| 0 <= j < k && regs[j].0 == sim) by {
                            assert forall|j: int| 0 <= j < k implies regs[j].0 != sim by {
                                assert(regs[j].0 != regs[k as int].0);
                            }
                        }
                    } else {
                        if exists|j: int| 0 <= j < k + 1 && regs[j].0 == sim2 {
                            let j = choose|j: int| 0 <= j < k + 1 && regs[j].0 == sim2;
                            assert(j < k);
                        }
                    }
                }
            }
            k += 1;
        }
        proof {
            assert forall|y: int, sim: u64| 0 <= y < n implies #[trigger] self.registration(y, sim) == match old(self).registration(scene as int, sim) {
                Some((_, rc)) => registration_added(
                    old(self).registration(y, sim),
                    old(self).registration(scene as int, sim).unwrap().0,
                    rc * num_paths(edges, sub_scene as int, y, n),
                ),
                None => old(self).registration(y, sim),
            } by {
                if exists|j: int| 0 <= j < regs.len() && regs[j].0 == sim {
                    let j = choose|j: int| 0 <= j < regs.len() && regs[j].0 == sim;
                    lemma_lookup_at(regs, j);
                    assert(old(self).registration(scene as int, sim) is Some);
                } else {
                    lemma_lookup_absent(regs, sim);
                    assert(old(self).registration(scene as int, sim) is None);
                }
            }
        }
    }

    /// Proves what adding an instanced mesh amounts to once it is stored (`mid`) and its
    /// registrations propagated (`new`).
    proof fn lemma_instanced_mesh_added(old: &Self, mid: &Self, new: &Self, scene: int, sub_scene: u64, key: u64)
        requires
            0 <= scene < old.num_scenes(),
            mid.wf(),
            new.wf(),
            mid.num_scenes() == old.num_scenes(),
            !old.instanced_meshes(scene).dom().contains(key),
            mid.instanced_meshes(scene) == old.instanced_meshes(scene).insert(key, sub_scene),
            mid.edges() == old.edges_after_adding(scene, key, sub_scene),
            forall|x: int|
                0 <= x < old.num_scenes() && x != scene ==> #[trigger] mid.instanced_meshes(x)
                    == old.instanced_meshes(x),
            forall|x: int|
                0 <= x < old.num_scenes() ==> {
                    &&& #[trigger] mid.static_meshes(x) == old.static_meshes(x)
                    &&& mid.pending_static(x) == old.pending_static(x)
                    &&& mid.pending_instanced(x) == old.pending_instanced(x)
                },
            SceneRegistry::same_registrations(mid, old),
            SceneRegistry::same_meshes(new, mid),
            forall|y: int, sim: u64|
                0 <= y < mid.num_scenes() ==> #[trigger] new.registration(y, sim) == match mid.registration(scene, sim) {
                    Some((_, rc)) => registration_added(
                        mid.registration(y, sim),
                        mid.registration(scene, sim).unwrap().0,
                        rc * num_paths(mid.edges(), sub_scene as int, y, mid.num_scenes()),
                    ),
                    None => mid.registration(y, sim),
                },
        ensures
            SceneRegistry::instanced_mesh_added(old, new, scene, sub_scene, key),
    {
        SceneRegistry::lemma_same_meshes_same_edges(new, mid);
        let n = old.num_scenes();
        assert forall|x: int| 0 <= x < n implies #[trigger] new.instanced_meshes(x) == mid.instanced_meshes(x) by {
            assert(new.static_meshes(x) == mid.static_meshes(x));
        }
        assert forall|x: int| 0 <= x < n implies {
            &&& #[trigger] new.static_meshes(x) == old.static_meshes(x)
            &&& new.pending_static(x) == old.pending_static(x)
            &&& new.pending_instanced(x) == old.pending_instanced(x)
        } by {
            assert(new.static_meshes(x) == mid.static_meshes(x));
            assert(mid.static_meshes(x) == old.static_meshes(x));
        }
        assert forall|x: int| 0 <= x < n && x != scene implies #[trigger] new.instanced_meshes(x)
            == old.instanced_meshes(x) by {
            assert(new.instanced_meshes(x) == mid.instanced_meshes(x));
            assert(mid.instanced_meshes(x) == old.instanced_meshes(x));
        }
        assert(new.instanced_meshes(scene) == mid.instanced_meshes(scene));
        assert forall|y: int, sim: u64| 0 <= y < n implies #[trigger] new.registration(y, sim) == match old.registration(
            scene,
            sim,
        ) {
            Some((_, rc)) => registration_added(
                old.registration(y, sim),
                old.registration(scene, sim).unwrap().0,
                rc * num_paths(new.edges(), sub_scene as int, y, n),
            ),
            None => old.registration(y, sim),
        } by {
            assert(mid.registration(y, sim) == old.registration(y, sim));
            assert(mid.registration(scene, sim) == old.registration(scene, sim));
        }
        assert forall|sim: u64| #[trigger] new.simulator_state(sim) == old.state_after_adding(
            scene,
            key,
            sub_scene,
            sim,
        ) by {
            assert forall|y: int| 0 <= y < n implies new.simulator_state(sim)[y] == old.state_after_adding(
                scene,
                key,
                sub_scene,
                sim,
            )[y] by {
                assert(new.registration(y, sim) == match old.registration(scene, sim) {
                    Some((_, rc)) => registration_added(
                        old.registration(y, sim),
                        old.registration(scene, sim).unwrap().0,
                        rc * num_paths(new.edges(), sub_scene as int, y, n),
                    ),
                    None => old.registration(y, sim),
                });
            }
            assert(new.simulator_state(sim) =~= old.state_after_adding(scene, key, sub_scene, sim));
        }
    }

    /// Once an instanced mesh is stored under `key`, the room that the registrations of
    /// `scene` need along the new paths is the room for a new instance.
    proof fn lemma_room_after_insert(old: &Self, mid: &Self, scene: int, key: u64, sub_scene: u64)
        requires
            old.wf(),
            mid.wf(),
            0 <= scene < old.num_scenes(),
            sub_scene < old.num_scenes(),
            mid.num_scenes() == old.num_scenes(),
            !old.instanced_meshes(scene).dom().contains(key),
            mid.instanced_meshes(scene) == old.instanced_meshes(scene).insert(key, sub_scene),
            mid.edges() == old.edges_after_adding(scene, key, sub_scene),
            SceneRegistry::same_registrations(mid, old),
        ensures
            old.acyclic_for_new_instance(scene, sub_scene) <==> forall|sim: u64|
                #[trigger] mid.registration(scene, sim) is Some ==> !long_walk(
                    mid.edges(),
                    sub_scene as int,
                    mid.num_scenes(),
                ),
            old.counts_fit_new_instance(scene, sub_scene) <==> forall|sim: u64, s: int|
                0 <= s < mid.num_scenes() ==> (#[trigger] mid.registration(scene, sim) matches Some((_, rc))
                    ==> room_for(
                    #[trigger] mid.registration(s, sim),
                    rc * num_paths(mid.edges(), sub_scene as int, s, mid.num_scenes()),
                )),
    {
        assert(mid.scene_wf(scene));
        old.lemma_adding_keeps_paths(scene, key, sub_scene);
        assert forall|s: int| 0 <= s < old.num_scenes() implies num_paths(
            mid.edges(),
            sub_scene as int,
            s,
            old.num_scenes(),
        ) == num_paths(old.edges_with_child(scene, sub_scene), sub_scene as int, s, old.num_scenes()) by {
            assert(num_paths(
                old.edges_after_adding(scene, key, sub_scene),
                sub_scene as int,
                s,
                old.num_scenes(),
            ) == num_paths(old.edges_with_child(scene, sub_scene), sub_scene as int, s, old.num_scenes()));
        }
        assert(long_walk(old.edges_after_adding(scene, key, sub_scene), sub_scene as int, old.num_scenes())
            == long_walk(old.edges_with_child(scene, sub_scene), sub_scene as int, old.num_scenes()));
        if old.acyclic_for_new_instance(scene, sub_scene) {
            assert forall|sim: u64| #[trigger] mid.registration(scene, sim) is Some implies !long_walk(
                mid.edges(),
                sub_scene as int,
                mid.num_scenes(),
            ) by {
                assert(mid.registration(scene, sim) == old.registration(scene, sim));
            }
        }
        if forall|sim: u64|
            #[trigger] mid.registration(scene, sim) is Some ==> !long_walk(
                mid.edges(),
                sub_scene as int,
                mid.num_scenes(),
            ) {
            assert forall|sim: u64| #[trigger] old.registration(scene, sim) is Some implies !long_walk(
                old.edges_with_child(scene, sub_scene),
                sub_scene as int,
                old.num_scenes(),
            ) by {
                assert(mid.registration(scene, sim) == old.registration(scene, sim));
            }
        }
        if old.counts_fit_new_instance(scene, sub_scene) {
            assert forall|sim: u64, s: int| 0 <= s < mid.num_scenes() implies (#[trigger] mid.registration(
                scene,
                sim,
            ) matches Some((_, rc)) ==> room_for(
                #[trigger] mid.registration(s, sim),
                rc * num_paths(mid.edges(), sub_scene as int, s, mid.num_scenes()),
            )) by {
                assert(mid.registration(s, sim) == old.registration(s, sim));
                assert(mid.registration(scene, sim) == old.registration(scene, sim));
            }
        }
        if forall|sim: u64, s: int|
            0 <= s < mid.num_scenes() ==> (#[trigger] mid.registration(scene, sim) matches Some((_, rc))
                ==> room_for(
                #[trigger] mid.registration(s, sim),
                rc * num_paths(mid.edges(), sub_scene as int, s, mid.num_scenes()),
            )) {
            assert forall|sim: u64, s: int| 0 <= s < old.num_scenes() implies (#[trigger] old.registration(
                scene,
                sim,
            ) matches Some((_, rc)) ==> room_for(
                #[trigger] old.registration(s, sim),
                rc * num_paths(old.edges_with_child(scene, sub_scene), sub_scene as int, s, old.num_scenes()),
            )) by {
                assert(mid.registration(s, sim) == old.registration(s, sim));
                assert(mid.registration(scene, sim) == old.registration(scene, sim));
            }
        }
    }

    /// Adds an instanced mesh of sub-scene `sub_scene` to scene `scene` and returns a
    /// handle to it. Every simulator registered with `scene` (count `rc`) then registers
    /// with the sub-scene hierarchy: a scene reached from the sub-scene along `k` paths
    /// gains `rc * k` references.
    #[verifier::spinoff_prover]
    pub fn add_instanced_mesh(&mut self, scene: usize, sub_scene: usize) -> (r: InstancedMeshHandle)
        requires
            old(self).wf(),
            scene < old(self).num_scenes(),
            sub_scene < old(self).num_scenes(),
            old(self).instanced_meshes(scene as int).len() < u32::MAX - 1,
            old(self).room_for_new_instance(scene as int, sub_scene as u64),
        ensures
            SceneRegistry::instanced_mesh_added(old(self), final(self), scene as int, sub_scene as u64, r.key()),
    {
        let key = self.insert_instanced_mesh(scene, sub_scene);
        let ghost mid = *self;
        proof {
            SceneRegistry::lemma_room_after_insert(old(self), &mid, scene as int, key, sub_scene as u64);
        }
        self.propagate_registrations(scene, sub_scene);
        proof {
            SceneRegistry::lemma_instanced_mesh_added(old(self), &mid, self, scene as int, sub_scene as u64, key);
        }
        InstancedMeshHandle { key }
    }

    /// Takes back an instanced mesh that [`Self::insert_instanced_mesh`] stored under
    /// `key` in a registry that was `orig`, leaving the meshes and registrations of
    /// `orig`.
    fn take_back_instanced_mesh(&mut self, scene: usize, key: u64, Ghost(orig): Ghost<SceneRegistry>, Ghost(
        sub_scene,
    ): Ghost<u64>)
        requires
            old(self).wf(),
            orig.wf(),
            scene < orig.num_scenes(),
            key_is_occupied_version(key),
            old(self).num_scenes() == orig.num_scenes(),
            SceneRegistry::same_registrations(old(self), &orig),
            !orig.instanced_meshes(scene as int).dom().contains(key),
            old(self).instanced_meshes(scene as int) == orig.instanced_meshes(scene as int).insert(
                key,
                sub_scene,
            ),
            forall|x: int|
                0 <= x < orig.num_scenes() && x != scene ==> #[trigger] old(self).instanced_meshes(x)
                    == orig.instanced_meshes(x),
            forall|x: int|
                0 <= x < orig.num_scenes() ==> {
                    &&& #[trigger] old(self).static_meshes(x) == orig.static_meshes(x)
                    &&& old(self).pending_static(x) == orig.pending_static(x)
                    &&& old(self).pending_instanced(x) == orig.pending_instanced(x)
                },
        ensures
            final(self).wf(),
            SceneRegistry::same_meshes(final(self), &orig),
            SceneRegistry::same_registrations(final(self), &orig),
    {
        proof {
            assert(self.scene_wf(scene as int));
            assert(orig.scene_wf(scene as int));
        }
        let _ = slot_map_remove(&mut self.scenes[scene].instanced_meshes, key);
        proof {
            assert(slot_map_contents(self.scenes@[scene as int].instanced_meshes) =~= slot_map_contents(
                orig.scenes@[scene as int].instanced_meshes,
            ));
            assert forall|x: int| 0 <= x < self.scenes@.len() implies #[trigger] self.scene_wf(x) by {
                assert(old(self).scene_wf(x));
                if x == scene {
                    assert(orig.scene_wf(x));
                }
            }
            assert forall|x: int| 0 <= x < self.num_scenes() implies {
                &&& #[trigger] self.static_meshes(x) == orig.static_meshes(x)
                &&& self.instanced_meshes(x) == orig.instanced_meshes(x)
                &&& self.pending_static(x) == orig.pending_static(x)
                &&& self.pending_instanced(x) == orig.pending_instanced(x)
            } by {
                assert(old(self).static_meshes(x) == orig.static_meshes(x));
                if x != scene {
                    assert(old(self).instanced_meshes(x) == orig.instanced_meshes(x));
                }
            }
            assert forall|x: int, sim2: u64| 0 <= x < self.num_scenes() implies #[trigger] self.registration(
                x,
                sim2,
            ) == orig.registration(x, sim2) by {
                assert(self.scenes@[x].simulation_registrations@ == old(self).scenes@[x].simulation_registrations@);
                assert(old(self).registration(x, sim2) == orig.registration(x, sim2));
            }
        }
    }

    /// Adds an instanced mesh as [`Self::add_instanced_mesh`] does, unless the scene
    /// holds as many instanced meshes as a slot map can, or registering the simulators of
    /// the scene with the sub-scene would not end or would overflow a registration's
    /// count; then it changes nothing and returns `None`.
    #[verifier::spinoff_prover]
    pub fn try_add_instanced_mesh(&mut self, scene: usize, sub_scene: usize) -> (r: Option<InstancedMeshHandle>)
        requires
            old(self).wf(),
            scene < old(self).num_scenes(),
            sub_scene < old(self).num_scenes(),
        ensures
            final(self).wf(),
            r is None <==> old(self).instanced_meshes(scene as int).len() >= u32::MAX - 1
                || !old(self).room_for_new_instance(scene as int, sub_scene as u64),
            r matches Some(h) ==> SceneRegistry::instanced_mesh_added(
                old(self),
                final(self),
                scene as int,
                sub_scene as u64,
                h.key(),
            ),
            r is None ==> SceneRegistry::same_meshes(final(self), old(self))
                && SceneRegistry::same_registrations(final(self), old(self)),
    {
        proof {
            assert(self.scene_wf(scene as int));
        }
        let count = slot_map_len(&self.scenes[scene].instanced_meshes);
        if count >= 0xffff_fffe {
            return None;
        }
        let key = self.insert_instanced_mesh(scene, sub_scene);
        let ghost mid = *self;
        proof {
            SceneRegistry::lemma_room_after_insert(old(self), &mid, scene as int, key, sub_scene as u64);
        }
        let ghost regs = self.scenes@[scene as int].simulation_registrations@;
        let snapshot = self.registration_snapshots(scene);
        proof {
            assert(regs == old(self).scenes@[scene as int].simulation_registrations@);
            assert(old(self).scene_wf(scene as int));
            assert(snapshot@.len() == regs.len());
            assert forall|i: int| 0 <= i < snapshot@.len() implies {
                &&& #[trigger] snapshot@[i].0 == regs[i].0
                &&& registration_view(snapshot@[i].1) == registration_view(regs[i].1)
            } by {
                assert(snapshot@[i].0 == self.scenes@[scene as int].simulation_registrations@[i].0);
            }
        }
        if snapshot.len() > 0 && self.has_long_walk(sub_scene) {
            proof {
                lemma_lookup_at(regs, 0);
                assert(self.registration(scene as int, regs[0].0) is Some);
                assert(!old(self).acyclic_for_new_instance(scene as int, sub_scene as u64));
            }
            self.take_back_instanced_mesh(scene, key, Ghost(*old(self)), Ghost(sub_scene as u64));
            return None;
        }
        proof {
            assert forall|sim: u64| #[trigger] self.registration(scene as int, sim) is Some implies !long_walk(
                self.edges(),
                sub_scene as int,
                self.num_scenes(),
            ) by {
                let i = choose|i: int| 0 <= i < regs.len() && regs[i].0 == sim;
                assert(snapshot@.len() > 0);
            }
        }
        let mut k: usize = 0;
        while k < snapshot.len()
            invariant
                *self == mid,
                self.wf(),
                old(self).wf(),
                key_is_occupied_version(key),
                scene < old(self).num_scenes(),
                sub_scene < old(self).num_scenes(),
                self.num_scenes() == old(self).num_scenes(),
                SceneRegistry::same_registrations(self, old(self)),
                !old(self).instanced_meshes(scene as int).dom().contains(key),
                self.instanced_meshes(scene as int) == old(self).instanced_meshes(scene as int).insert(
                    key,
                    sub_scene as u64,
                ),
                forall|x: int|
                    0 <= x < old(self).num_scenes() && x != scene ==> #[trigger] self.instanced_meshes(x)
                        == old(self).instanced_meshes(x),
                forall|x: int|
                    0 <= x < old(self).num_scenes() ==> {
                        &&& #[trigger] self.static_meshes(x) == old(self).static_meshes(x)
                        &&& self.pending_static(x) == old(self).pending_static(x)
                        &&& self.pending_instanced(x) == old(self).pending_instanced(x)
                    },
                forall|sim: u64|
                    #[trigger] self.registration(scene as int, sim) is Some ==> !long_walk(
                        self.edges(),
                        sub_scene as int,
                        self.num_scenes(),
                    ),
                old(self).acyclic_for_new_instance(scene as int, sub_scene as u64),
                old(self).counts_fit_new_instance(scene as int, sub_scene as u64) <==> forall|sim: u64, s: int|
                    0 <= s < self.num_scenes() ==> (#[trigger] self.registration(scene as int, sim) matches Some(
                        (_, rc),
                    ) ==> room_for(
                        #[trigger] self.registration(s, sim),
                        rc * num_paths(self.edges(), sub_scene as int, s, self.num_scenes()),
                    )),
                keys_distinct(regs),
                regs == self.scenes@[scene as int].simulation_registrations@,
                snapshot_of(snapshot@, regs),
                0 <= k <= snapshot@.len(),
                forall|i: int, s: int|
                    0 <= i < k && 0 <= s < self.num_scenes() ==> room_for(
                        #[trigger] self.registration(s, regs[i].0),
                        ((#[trigger] regs[i].1).ref_count as nat) * num_paths(
                            self.edges(),
                            sub_scene as int,
                            s,
                            self.num_scenes(),
                        ),
                    ),
            decreases snapshot@.len() - k,
        {
            let sim = snapshot[k].0;
            let rc = snapshot[k].1.ref_count;
            proof {
                lemma_lookup_at(regs, k as int);
                assert(self.registration(scene as int, sim) == Some(registration_view(regs[k as int].1)));
            }
            if !self.can_register(sub_scene, sim, rc) {
                proof {
                    let s = choose|s: int|
                        0 <= s < self.num_scenes() && !room_for(
                            #[trigger] self.registration(s, sim),
                            (rc as nat) * num_paths(self.edges(), sub_scene as int, s, self.num_scenes()),
                        );
                    assert(!old(self).counts_fit_new_instance(scene as int, sub_scene as u64));
                }
                self.take_back_instanced_mesh(scene, key, Ghost(*old(self)), Ghost(sub_scene as u64));
                return None;
            }
            k += 1;
        }
        proof {
            assert forall|sim: u64, s: int|
                0 <= s < self.num_scenes() implies (#[trigger] self.registration(scene as int, sim) matches Some(
                    (_, rc),
                ) ==> room_for(
                    #[trigger] self.registration(s, sim),
                    rc * num_paths(self.edges(), sub_scene as int, s, self.num_scenes()),
                )) by {
                if self.registration(scene as int, sim) is Some {
                    let i = choose|i: int| 0 <= i < regs.len() && regs[i].0 == sim;
                    lemma_lookup_at(regs, i);
                    assert(room_for(
                        self.registration(s, regs[i].0),
                        (regs[i].1.ref_count as nat) * num_paths(self.edges(), sub_scene as int, s, self.num_scenes()),
                    ));
                }
            }
        }
        self.propagate_registrations(scene, sub_scene);
        proof {
            SceneRegistry::lemma_instanced_mesh_added(old(self), &mid, self, scene as int, sub_scene as u64, key);
        }
        Some(InstancedMeshHandle { key })
    }

    /// Removes an instanced mesh from scene `scene`; returns whether the handle named one
    /// of its meshes. The mesh's sub-scene stays a child of the scene until the next
    /// commit.
    pub fn remove_instanced_mesh(&mut self, scene: usize, handle: InstancedMeshHandle) -> (r: bool)
        requires
            old(self).wf(),
            scene < old(self).num_scenes(),
        ensures
            final(self).wf(),
            final(self).num_scenes() == old(self).num_scenes(),
            r == old(self).instanced_meshes(scene as int).dom().contains(handle.key()),
            r ==> final(self).instanced_meshes(scene as int) == old(self).instanced_meshes(
                scene as int,
            ).remove(handle.key()) && final(self).pending_instanced(scene as int) == old(self).pending_instanced(scene as int).push(old(self).instanced_meshes(scene as int)[handle.key()]),
            !r ==> final(self).instanced_meshes(scene as int) == old(self).instanced_meshes(scene as int)
                && final(self).pending_instanced(scene as int) == old(self).pending_instanced(
                scene as int,
            ),
            forall|x: int|
                0 <= x < old(self).num_scenes() && x != scene ==> {
                    &&& #[trigger] final(self).instanced_meshes(x) == old(self).instanced_meshes(x)
                    &&& final(self).pending_instanced(x) == old(self).pending_instanced(x)
                },
            forall|x: int|
                0 <= x < old(self).num_scenes() ==> {
                    &&& #[trigger] final(self).static_meshes(x) == old(self).static_meshes(x)
                    &&& final(self).pending_static(x) == old(self).pending_static(x)
                },
            SceneRegistry::same_registrations(final(self), old(self)),
    {
        proof {
            use_type_invariant(&handle);
            assert(self.scene_wf(scene as int));
        }
        let removed = slot_map_remove(&mut self.scenes[scene].instanced_meshes, handle.key);
        let r = match removed {
            Some(sub_scene) => {
                self.scenes[scene].instanced_meshes_to_remove.push(sub_scene);
                true
            },
            None => false,
        };
        proof {
            assert forall|x: int| 0 <= x < self.scenes@.len() implies #[trigger] self.scene_wf(x) by {
                assert(old(self).scene_wf(x));
                if x == scene {
                    let m = slot_map_contents(self.scenes@[x].instanced_meshes);
                    let m0 = slot_map_contents(old(self).scenes@[x].instanced_meshes);
                    assert forall|k: u64| #[trigger] m.dom().contains(k) implies m[k] < self.scenes@.len() by {
                        assert(m0.dom().contains(k));
                    }
                    if r {
                        assert(m0.dom().contains(handle.key));
                        let p = self.scenes@[x].instanced_meshes_to_remove@;
                        assert forall|i: int| 0 <= i < p.len() implies #[trigger] p[i] < self.scenes@.len() by {
                            if i < p.len() - 1 {
                                assert(p[i] == old(self).scenes@[x].instanced_meshes_to_remove@[i]);
                            }
                        }
                    }
                }
            }
        }
        r
    }

    /// Returns whether scene `scene` holds the instanced mesh of `handle`, which decides
    /// whether a transform update applies to it.
    pub fn contains_instanced_mesh(&self, scene: usize, handle: InstancedMeshHandle) -> (r: bool)
        requires
            self.wf(),
            scene < self.num_scenes(),
        ensures
            r == self.instanced_meshes(scene as int).dom().contains(handle.key()),
    {
        proof {
            use_type_invariant(&handle);
        }
        slot_map_contains_key(&self.scenes[scene].instanced_meshes, handle.key)
    }

    /// Returns the number of references of `simulator` registered with scene `scene`
    /// (zero when it is not registered).
    pub fn registration_ref_count(&self, scene: usize, simulator: u64) -> (r: usize)
        requires
            self.wf(),
            scene < self.num_scenes(),
        ensures
            r == match self.registration(scene as int, simulator) {
                Some((_, rc)) => rc,
                None => 0,
            },
    {
        proof {
            assert(self.scene_wf(scene as int));
        }
        let regs = &self.scenes[scene].simulation_registrations;
        let mut i: usize = 0;
        while i < regs.len()
            invariant
                0 <= i <= regs@.len(),
                scene < self.scenes@.len(),
                regs@ == self.scenes@[scene as int].simulation_registrations@,
                keys_distinct(regs@),
                forall|j: int| 0 <= j < i ==> #[trigger] regs@[j].0 != simulator,
            decreases regs@.len() - i,
        {
            if regs[i].0 == simulator {
                proof {
                    lemma_lookup_at(regs@, i as int);
                }
                return regs[i].1.ref_count;
            }
            i += 1;
        }
        proof {
            lemma_lookup_absent(regs@, simulator);
        }
        0
    }

    /// Whether some simulator registered with scene `x` carries lock `l`.
    pub open spec fn lock_registered(&self, x: int, l: u64) -> bool {
        exists|sim: u64|
            #[trigger] self.registration(x, sim) is Some && self.registration(x, sim).unwrap().0.contains(l)
    }

    /// Returns the identifiers of every simulation lock that a registration of scene
    /// `scene` carries, in increasing order and each once: the locks to hold while the
    /// scene is committed.
    pub fn simulation_locks(&self, scene: usize) -> (r: Vec<u64>)
        requires
            self.wf(),
            scene < self.num_scenes(),
        ensures
            strictly_increasing(r@),
            forall|l: u64| #[trigger] r@.contains(l) <==> self.lock_registered(scene as int, l),
    {
        proof {
            assert(self.scene_wf(scene as int));
        }
        let regs = &self.scenes[scene].simulation_registrations;
        let mut r: Vec<u64> = Vec::new();
        let mut i: usize = 0;
        while i < regs.len()
            invariant
                0 <= i <= regs@.len(),
                strictly_increasing(r@),
                forall|y: u64| #[trigger]
                    r@.contains(y) <==> exists|a: int, b: int|
                        0 <= a < i && 0 <= b < regs@[a].1.locks@.len() && #[trigger] regs@[a].1.locks@[b] == y,
            decreases regs@.len() - i,
        {
            let locks = &regs[i].1.locks;
            let mut j: usize = 0;
            while j < locks.len()
                invariant
                    0 <= i < regs@.len(),
                    locks@ == regs@[i as int].1.locks@,
                    0 <= j <= locks@.len(),
                    strictly_increasing(r@),
                    forall|y: u64| #[trigger]
                        r@.contains(y) <==> (exists|a: int, b: int|
                            0 <= a < i && 0 <= b < regs@[a].1.locks@.len() && #[trigger] regs@[a].1.locks@[b] == y)
                            || (exists|b: int| 0 <= b < j && #[trigger] locks@[b] == y),
                decreases locks@.len() - j,
            {
                let ghost before = r@;
                insert_sorted(&mut r, locks[j]);
                proof {
                    assert forall|y: u64| #[trigger] r@.contains(y) <==> (exists|a: int, b: int|
                        0 <= a < i && 0 <= b < regs@[a].1.locks@.len() && #[trigger] regs@[a].1.locks@[b] == y)
                        || (exists|b: int| 0 <= b < j + 1 && #[trigger] locks@[b] == y) by {
                        if y == locks@[j as int] {
                            assert(locks@[j as int] == y);
                        }
                        if exists|b: int| 0 <= b < j + 1 && #[trigger] locks@[b] == y {
                            let b = choose|b: int| 0 <= b < j + 1 && #[trigger] locks@[b] == y;
                            if b < j {
                                assert(before.contains(y));
                            }
                        }
                        if before.contains(y) {
                        }
                    }
                }
                j += 1;
            }
            proof {
                assert forall|y: u64| #[trigger] r@.contains(y) <==> exists|a: int, b: int|
                    0 <= a < i + 1 && 0 <= b < regs@[a].1.locks@.len() && #[trigger] regs@[a].1.locks@[b] == y by {
                    if exists|b: int| 0 <= b < j && #[trigger] locks@[b] == y {
                        let b = choose|b: int| 0 <= b < j && #[trigger] locks@[b] == y;
                        assert(regs@[i as int].1.locks@[b] == y);
                    }
                    if exists|a: int, b: int|
                        0 <= a < i + 1 && 0 <= b < regs@[a].1.locks@.len() && #[trigger] regs@[a].1.locks@[b] == y {
                        let (a, b) = choose|a: int, b: int|
                            0 <= a < i + 1 && 0 <= b < regs@[a].1.locks@.len() && #[trigger] regs@[a].1.locks@[b] == y;
                        if a == i {
                            assert(locks@[b] == y);
                        }
                    }
                }
            }
            i += 1;
        }
        proof {
            let regs_v = regs@;
            assert forall|l: u64| #[trigger] r@.contains(l) <==> self.lock_registered(scene as int, l) by {
                if r@.contains(l) {
                    let (a, b) = choose|a: int, b: int|
                        0 <= a < regs_v.len() && 0 <= b < regs_v[a].1.locks@.len() && #[trigger] regs_v[a].1.locks@[b] == l;
                    lemma_lookup_at(regs_v, a);
                    assert(self.registration(scene as int, regs_v[a].0) is Some);
                    assert(self.registration(scene as int, regs_v[a].0).unwrap().0.contains(l));
                }
                if self.lock_registered(scene as int, l) {
                    let sim = choose|sim: u64|
                        #[trigger] self.registration(scene as int, sim) is Some && self.registration(scene as int, sim).unwrap().0.contains(l);
                    let a = choose|a: int| 0 <= a < regs_v.len() && regs_v[a].0 == sim;
                    lemma_lookup_at(regs_v, a);
                    let b = choose|b: int| 0 <= b < regs_v[a].1.locks@.len() && regs_v[a].1.locks@[b] == l;
                    assert(regs_v[a].1.locks@[b] == l);
                }
            }
        }
        r
    }

    /// Returns the next level of path counts: from `prev`, the saturated counts of paths
    /// of at most `fuel` scenes between every two scenes, the counts for `fuel + 1`.
    fn path_count_level(&self, prev: &Vec<Vec<u128>>, Ghost(fuel): Ghost<nat>) -> (r: Vec<Vec<u128>>)
        requires
            self.wf(),
            prev@.len() == self.num_scenes(),
            forall|x: int| 0 <= x < prev@.len() ==> #[trigger] prev@[x]@.len() == self.num_scenes(),
            forall|x: int, y: int|
                0 <= x < prev@.len() && 0 <= y < prev@.len() ==> #[trigger] prev@[x]@[y] == saturated(
                    num_paths(self.edges(), x, y, fuel),
                ),
        ensures
            r@.len() == self.num_scenes(),
            forall|x: int| 0 <= x < r@.len() ==> #[trigger] r@[x]@.len() == self.num_scenes(),
            forall|x: int, y: int|
                0 <= x < r@.len() && 0 <= y < r@.len() ==> #[trigger] r@[x]@[y] == saturated(
                    num_paths(self.edges(), x, y, fuel + 1),
                ),
    {
        let n = self.scenes.len();
        let ghost edges = self.edges();
        let mut r: Vec<Vec<u128>> = Vec::new();
        let mut x: usize = 0;
        while x < n
            invariant
                self.wf(),
                n == self.num_scenes(),
                edges == self.edges(),
                0 <= x <= n,
                prev@.len() == n,
                forall|a: int| 0 <= a < n ==> #[trigger] prev@[a]@.len() == n,
                forall|a: int, b: int|
                    0 <= a < n && 0 <= b < n ==> #[trigger] prev@[a]@[b] == saturated(
                        num_paths(edges, a, b, fuel),
                    ),
                r@.len() == x,
                forall|a: int| 0 <= a < x ==> #[trigger] r@[a]@.len() == n,
                forall|a: int, b: int|
                    0 <= a < x && 0 <= b < n ==> #[trigger] r@[a]@[b] == saturated(
                        num_paths(edges, a, b, fuel + 1),
                    ),
            decreases n - x,
        {
            let children = self.sub_scenes(x);
            let mut row: Vec<u128> = Vec::new();
            let mut y: usize = 0;
            while y < n
                invariant
                    0 <= x < n,
                    n == edges.len(),
                    children@ == edges[x as int],
                    forall|k: int| 0 <= k < children@.len() ==> #[trigger] children@[k] < n,
                    0 <= y <= n,
                    prev@.len() == n,
                    forall|a: int| 0 <= a < n ==> #[trigger] prev@[a]@.len() == n,
                    forall|a: int, b: int|
                        0 <= a < n && 0 <= b < n ==> #[trigger] prev@[a]@[b] == saturated(
                            num_paths(edges, a, b, fuel),
                        ),
                    row@.len() == y,
                    forall|b: int|
                        0 <= b < y ==> #[trigger] row@[b] == saturated(
                            num_paths(edges, x as int, b, fuel + 1),
                        ),
                decreases n - y,
            {
                let mut acc: u128 = if x == y {
                    1
                } else {
                    0
                };
                let mut i: usize = 0;
                while i < children.len()
                    invariant
                        0 <= x < n,
                        0 <= y < n,
                        n == edges.len(),
                        children@ == edges[x as int],
                        forall|k: int| 0 <= k < children@.len() ==> #[trigger] children@[k] < n,
                        0 <= i <= children@.len(),
                        prev@.len() == n,
                        forall|a: int| 0 <= a < n ==> #[trigger] prev@[a]@.len() == n,
                        forall|a: int, b: int|
                            0 <= a < n && 0 <= b < n ==> #[trigger] prev@[a]@[b] == saturated(
                                num_paths(edges, a, b, fuel),
                            ),
                        acc == saturated(
                            (if x == y {
                                1nat
                            } else {
                                0nat
                            }) + sum_paths(edges, children@.take(i as int), y as int, fuel),
                        ),
                    decreases children@.len() - i,
                {
                    let c = children[i] as usize;
                    assert(children@[i as int] < n);
                    let ghost before = acc;
                    acc = saturating_sum(acc, prev[c][y]);
                    proof {
                        lemma_sum_paths_prefix(edges, children@, i as int, y as int, fuel);
                    }
                    i += 1;
                }
                proof {
                    assert(children@.take(children@.len() as int) =~= children@);
                }
                row.push(acc);
                y += 1;
            }
            r.push(row);
            x += 1;
        }
        r
    }

    /// Returns, for every scene `y`, the number of paths from scene `from` to `y` that
    /// visit at most as many scenes as there are, saturated at 2^64.
    pub fn path_counts(&self, from: usize) -> (r: Vec<u128>)
        requires
            self.wf(),
            from < self.num_scenes(),
        ensures
            r@.len() == self.num_scenes(),
            forall|y: int| 0 <= y < r@.len() ==> #[trigger] r@[y] == saturated(
                num_paths(self.edges(), from as int, y, self.num_scenes()),
            ),
    {
        let n = self.scenes.len();
        let ghost edges = self.edges();
        let mut level: Vec<Vec<u128>> = Vec::new();
        let mut x: usize = 0;
        while x < n
            invariant
                0 <= x <= n,
                level@.len() == x,
                forall|a: int| 0 <= a < x ==> #[trigger] level@[a]@.len() == n,
                forall|a: int, b: int| 0 <= a < x && 0 <= b < n ==> #[trigger] level@[a]@[b] == 0,
            decreases n - x,
        {
            let mut row: Vec<u128> = Vec::new();
            let mut y: usize = 0;
            while y < n
                invariant
                    0 <= y <= n,
                    row@.len() == y,
                    forall|b: int| 0 <= b < y ==> #[trigger] row@[b] == 0,
                decreases n - y,
            {
                row.push(0);
                y += 1;
            }
            level.push(row);
            x += 1;
        }
        let mut f: usize = 0;
        while f < n
            invariant
                self.wf(),
                n == self.num_scenes(),
                edges == self.edges(),
                0 <= f <= n,
                level@.len() == n,
                forall|a: int| 0 <= a < n ==> #[trigger] level@[a]@.len() == n,
                forall|a: int, b: int|
                    0 <= a < n && 0 <= b < n ==> #[trigger] level@[a]@[b] == saturated(
                        num_paths(edges, a, b, f as nat),
                    ),
            decreases n - f,
        {
            level = self.path_count_level(&level, Ghost(f as nat));
            f += 1;
        }
        let mut r: Vec<u128> = Vec::new();
        let mut y: usize = 0;
        while y < n
            invariant
                0 <= y <= n,
                from < n,
                level@.len() == n,
                forall|a: int| 0 <= a < n ==> #[trigger] level@[a]@.len() == n,
                r@.len() == y,
                forall|b: int| 0 <= b < y ==> #[trigger] r@[b] == level@[from as int]@[b],
            decreases n - y,
        {
            r.push(level[from][y]);
            y += 1;
        }
        r
    }

    /// Returns the next level of long walks: from `prev`, which scenes start a walk
    /// through `k + 1` scenes, which start one through `k + 2`.
    fn long_walk_level(&self, prev: &Vec<bool>, Ghost(k): Ghost<nat>) -> (r: Vec<bool>)
        requires
            self.wf(),
            prev@.len() == self.num_scenes(),
            forall|x: int| 0 <= x < prev@.len() ==> #[trigger] prev@[x] == long_walk(self.edges(), x, k),
        ensures
            r@.len() == self.num_scenes(),
            forall|x: int| 0 <= x < r@.len() ==> #[trigger] r@[x] == long_walk(self.edges(), x, k + 1),
    {
        let n = self.scenes.len();
        let ghost edges = self.edges();
        let mut r: Vec<bool> = Vec::new();
        let mut x: usize = 0;
        while x < n
            invariant
                self.wf(),
                n == self.num_scenes(),
                edges == self.edges(),
                0 <= x <= n,
                prev@.len() == n,
                forall|a: int| 0 <= a < n ==> #[trigger] prev@[a] == long_walk(edges, a, k),
                r@.len() == x,
                forall|a: int| 0 <= a < x ==> #[trigger] r@[a] == long_walk(edges, a, k + 1),
            decreases n - x,
        {
            let children = self.sub_scenes(x);
            let mut found = false;
            let mut i: usize = 0;
            while i < children.len()
                invariant
                    0 <= x < n,
                    n == edges.len(),
                    children@ == edges[x as int],
                    forall|j: int| 0 <= j < children@.len() ==> #[trigger] children@[j] < n,
                    0 <= i <= children@.len(),
                    prev@.len() == n,
                    forall|a: int| 0 <= a < n ==> #[trigger] prev@[a] == long_walk(edges, a, k),
                    found == any_long_walk(edges, children@.take(i as int), k),
                decreases children@.len() - i,
            {
                let c = children[i] as usize;
                assert(children@[i as int] < n);
                proof {
                    assert(children@.take(i + 1).drop_last() =~= children@.take(i as int));
                }
                found = found || prev[c];
                i += 1;
            }
            proof {
                assert(children@.take(children@.len() as int) =~= children@);
            }
            r.push(found);
            x += 1;
        }
        r
    }

    /// Returns whether some walk from scene `scene` passes through more scenes than there
    /// are, that is, whether some scene below `scene` leads back to itself.
    pub fn has_long_walk(&self, scene: usize) -> (r: bool)
        requires
            self.wf(),
            scene < self.num_scenes(),
        ensures
            r == long_walk(self.edges(), scene as int, self.num_scenes()),
    {
        let n = self.scenes.len();
        let ghost edges = self.edges();
        let mut level: Vec<bool> = Vec::new();
        let mut x: usize = 0;
        while x < n
            invariant
                0 <= x <= n,
                level@.len() == x,
                forall|a: int| 0 <= a < x ==> #[trigger] level@[a] == long_walk(edges, a, 0),
            decreases n - x,
        {
            level.push(true);
            x += 1;
        }
        let mut k: usize = 0;
        while k < n
            invariant
                self.wf(),
                n == self.num_scenes(),
                edges == self.edges(),
                0 <= k <= n,
                level@.len() == n,
                forall|a: int| 0 <= a < n ==> #[trigger] level@[a] == long_walk(edges, a, k as nat),
            decreases n - k,
        {
            level = self.long_walk_level(&level, Ghost(k as nat));
            k += 1;
        }
        level[scene]
    }

    /// Returns whether [`Self::register_simulator`] may be called with these arguments:
    /// no scene below `scene` leads back to itself (unless `count` is zero), and `count`
    /// more references of `simulator` along every path from `scene` fit in each
    /// registration's `usize` count.
    pub fn can_register(&self, scene: usize, simulator: u64, count: usize) -> (r: bool)
        requires
            self.wf(),
            scene < self.num_scenes(),
        ensures
            r <==> (count > 0 ==> !long_walk(self.edges(), scene as int, self.num_scenes())) && forall|s: int|
                0 <= s < self.num_scenes() ==> room_for(
                    #[trigger] self.registration(s, simulator),
                    (count as nat) * num_paths(self.edges(), scene as int, s, self.num_scenes()),
                ),
    {
        if count > 0 && self.has_long_walk(scene) {
            return false;
        }
        let paths = self.path_counts(scene);
        let n = self.scenes.len();
        let ghost edges = self.edges();
        let mut s: usize = 0;
        while s < n
            invariant
                self.wf(),
                n == self.num_scenes(),
                edges == self.edges(),
                scene < n,
                count > 0 ==> !long_walk(edges, scene as int, n as nat),
                0 <= s <= n,
                paths@.len() == n,
                forall|y: int| 0 <= y < n ==> #[trigger] paths@[y] == saturated(
                    num_paths(edges, scene as int, y, n as nat),
                ),
                forall|t: int|
                    0 <= t < s ==> room_for(
                        #[trigger] self.registration(t, simulator),
                        (count as nat) * num_paths(edges, scene as int, t, n as nat),
                    ),
            decreases n - s,
        {
            let rc = self.registration_ref_count(s, simulator);
            let p = paths[s];
            let ghost np = num_paths(edges, scene as int, s as int, n as nat);
            let fits = if p == 0x1_0000_0000_0000_0000u128 {
                proof {
                    assert(np >= path_cap());
                    if count > 0 {
                        assert((count as nat) * np >= np) by (nonlinear_arith)
                            requires
                                count > 0,
                        ;
                    } else {
                        assert((count as nat) * np == 0) by (nonlinear_arith)
                            requires
                                count == 0,
                        ;
                    }
                }
                count == 0
            } else {
                proof {
                    assert(p == np);
                    assert((count as nat) * np <= 0xffff_ffff_ffff_ffff * 0xffff_ffff_ffff_ffffnat)
                        by (nonlinear_arith)
                        requires
                            count <= 0xffff_ffff_ffff_ffffnat,
                            np <= 0xffff_ffff_ffff_ffffnat,
                    ;
                }
                let product: u128 = (count as u128) * p;
                product <= usize::MAX as u128 && (rc as u128) + product <= usize::MAX as u128
            };
            if !fits {
                return false;
            }
            s += 1;
        }
        true
    }

    /// Commits scene `scene`: drops the meshes that await removal, then unregisters
    /// every simulator registered with the scene (count `rc`) `rc` times from each
    /// removed sub-scene, now that it is no longer a child.
    #[verifier::spinoff_prover]
    pub fn commit(&mut self, scene: usize)
        requires
            old(self).wf(),
            scene < old(self).num_scenes(),
        ensures
            final(self).wf(),
            final(self).num_scenes() == old(self).num_scenes(),
            forall|x: int|
                0 <= x < old(self).num_scenes() ==> {
                    &&& #[trigger] final(self).static_meshes(x) == old(self).static_meshes(x)
                    &&& final(self).instanced_meshes(x) == old(self).instanced_meshes(x)
                },
            forall|x: int|
                0 <= x < old(self).num_scenes() && x != scene ==> {
                    &&& #[trigger] final(self).pending_static(x) == old(self).pending_static(x)
                    &&& final(self).pending_instanced(x) == old(self).pending_instanced(x)
                },
            final(self).pending_static(scene as int).len() == 0,
            final(self).pending_instanced(scene as int).len() == 0,
            forall|sim: u64| #[trigger]
                final(self).simulator_state(sim) == match old(self).registration(scene as int, sim) {
                    Some((_, rc)) => unregister_each(
                        final(self).edges(),
                        old(self).simulator_state(sim),
                        old(self).pending_instanced(scene as int),
                        rc,
                    ),
                    None => old(self).simulator_state(sim),
                },
    {
        proof {
            assert(self.scene_wf(scene as int));
        }
        let ghost n = self.num_scenes();
        let ghost regs = self.scenes@[scene as int].simulation_registrations@;
        let removed = copy_ids(&self.scenes[scene].instanced_meshes_to_remove);
        let snapshot = self.registration_snapshots(scene);
        self.scenes[scene].static_meshes_to_remove.clear();
        self.scenes[scene].instanced_meshes_to_remove.clear();
        proof {
            assert forall|x: int| 0 <= x < self.scenes@.len() implies #[trigger] self.scene_wf(x) by {
                assert(old(self).scene_wf(x));
            }
            assert forall|sim: u64| #[trigger] self.simulator_state(sim) == old(self).simulator_state(sim) by {
                assert(self.simulator_state(sim) =~= old(self).simulator_state(sim));
            }
        }
        let ghost mid = *self;
        let ghost edges = self.edges();
        let num_scenes = self.scenes.len();
        let mut j: usize = 0;
        while j < removed.len()
            invariant
                self.wf(),
                SceneRegistry::same_meshes(self, &mid),
                self.edges() == edges,
                edges == mid.edges(),
                n == self.num_scenes(),
                n == old(self).num_scenes(),
                n == num_scenes,
                scene < n,
                keys_distinct(regs),
                snapshot@.len() == regs.len(),
                regs == old(self).scenes@[scene as int].simulation_registrations@,
                forall|i: int| 0 <= i < regs.len() ==> #[trigger] regs[i].1.ref_count > 0,
                forall|i: int|
                    0 <= i < snapshot@.len() ==> {
                        &&& #[trigger] snapshot@[i].0 == regs[i].0
                        &&& registration_view(snapshot@[i].1) == registration_view(regs[i].1)
                    },
                removed@ == old(self).pending_instanced(scene as int),
                forall|i: int| 0 <= i < removed@.len() ==> #[trigger] removed@[i] < n,
                0 <= j <= removed@.len(),
                forall|sim: u64| #[trigger]
                    self.simulator_state(sim) == match old(self).registration(scene as int, sim) {
                        Some((_, rc)) => unregister_each(
                            edges,
                            old(self).simulator_state(sim),
                            removed@.take(j as int),
                            rc,
                        ),
                        None => old(self).simulator_state(sim),
                    },
            decreases removed@.len() - j,
        {
            let root = removed[j];
            assert(root < n);
            let root_index = root as usize;
            let mut k: usize = 0;
            while k < snapshot.len()
                invariant
                    self.wf(),
                    SceneRegistry::same_meshes(self, &mid),
                    self.edges() == edges,
                    edges == mid.edges(),
                    n == self.num_scenes(),
                    n == old(self).num_scenes(),
                    scene < n,
                    root_index < n,
                    root_index as int == removed@[j as int] as int,
                    0 <= j < removed@.len(),
                    keys_distinct(regs),
                    snapshot@.len() == regs.len(),
                    regs == old(self).scenes@[scene as int].simulation_registrations@,
                    forall|i: int| 0 <= i < regs.len() ==> #[trigger] regs[i].1.ref_count > 0,
                    forall|i: int|
                        0 <= i < snapshot@.len() ==> {
                            &&& #[trigger] snapshot@[i].0 == regs[i].0
                            &&& registration_view(snapshot@[i].1) == registration_view(regs[i].1)
                        },
                    0 <= k <= snapshot@.len(),
                    forall|sim: u64| #[trigger]
                        self.simulator_state(sim) == match old(self).registration(scene as int, sim) {
                            Some((_, rc)) => if exists|i: int| 0 <= i < k && regs[i].0 == sim {
                                unregister_each(
                                    edges,
                                    old(self).simulator_state(sim),
                                    removed@.take(j + 1),
                                    rc,
                                )
                            } else {
                                unregister_each(
                                    edges,
                                    old(self).simulator_state(sim),
                                    removed@.take(j as int),
                                    rc,
                                )
                            },
                            None => old(self).simulator_state(sim),
                        },
                decreases snapshot@.len() - k,
            {
                let sim = snapshot[k].0;
                let rc = snapshot[k].1.ref_count;
                let ghost before = *self;
                proof {
                    lemma_lookup_at(regs, k as int);
                    assert(old(self).registration(scene as int, sim) == Some(registration_view(regs[k as int].1)));
                    assert(rc > 0);
                }
                self.unregister_simulator(root_index, sim, rc);
                proof {
                    SceneRegistry::lemma_same_meshes_same_edges(self, &before);
                    assert(removed@.take(j + 1).drop_last() =~= removed@.take(j as int));
                    assert forall|sim2: u64| #[trigger] self.simulator_state(sim2) == match old(self).registration(
                        scene as int,
                        sim2,
                    ) {
                        Some((_, rc2)) => if exists|i: int| 0 <= i < k + 1 && regs[i].0 == sim2 {
                            unregister_each(
                                edges,
                                old(self).simulator_state(sim2),
                                removed@.take(j + 1),
                                rc2,
                            )
                        } else {
                            unregister_each(
                                edges,
                                old(self).simulator_state(sim2),
                                removed@.take(j as int),
                                rc2,
                            )
                        },
                        None => old(self).simulator_state(sim2),
                    } by {
                        if sim2 == sim {
                            assert(regs[k as int].0 == sim2);
                            assert(!exists|i: int| 0 <= i < k && regs[i].0 == sim) by {
                                assert forall|i: int| 0 <= i < k implies regs[i].0 != sim by {
                                    assert(regs[i].0 != regs[k as int].0);
                                }
                            }
                        } else {
                            assert(self.simulator_state(sim2) =~= before.simulator_state(sim2));
                            if exists|i: int| 0 <= i < k + 1 && regs[i].0 == sim2 {
                                let i = choose|i: int| 0 <= i < k + 1 && regs[i].0 == sim2;
                                assert(i < k);
                            }
                        }
                    }
                }
                k += 1;
            }
            proof {
                assert forall|sim: u64| #[trigger] self.simulator_state(sim) == match old(self).registration(
                    scene as int,
                    sim,
                ) {
                    Some((_, rc)) => unregister_each(
                        edges,
                        old(self).simulator_state(sim),
                        removed@.take(j + 1),
                        rc,
                    ),
                    None => old(self).simulator_state(sim),
                } by {
                    if old(self).registration(scene as int, sim) is Some {
                        assert(exists|i: int| 0 <= i < regs.len() && regs[i].0 == sim);
                    }
                }
            }
            j += 1;
        }
        proof {
            assert(removed@.take(removed@.len() as int) =~= removed@);
            assert forall|x: int| 0 <= x < n implies #[trigger] self.static_meshes(x) == old(self).static_meshes(x)
                && self.instanced_meshes(x) == old(self).instanced_meshes(x) by {
                assert(self.static_meshes(x) == mid.static_meshes(x));
            }
            assert forall|x: int| 0 <= x < n && x != scene implies #[trigger] self.pending_static(x) == old(self).pending_static(x)
                && self.pending_instanced(x) == old(self).pending_instanced(x) by {
                assert(self.static_meshes(x) == mid.static_meshes(x));
            }
            assert(self.static_meshes(scene as int) == mid.static_meshes(scene as int));
        }
    }
}

/// Every element is smaller than the next.
pub open spec fn strictly_increasing(s: Seq<u64>) -> bool {
    forall|i: int, j: int| 0 <= i < j < s.len() ==> #[trigger] s[i] < #[trigger] s[j]
}

/// Inserts `x` into a strictly increasing list, keeping it so; nothing changes when `x`
/// is already there.
fn insert_sorted(v: &mut Vec<u64>, x: u64)
    requires
        strictly_increasing(old(v)@),
    ensures
        strictly_increasing(final(v)@),
        forall|y: u64| #[trigger] final(v)@.contains(y) <==> (old(v)@.contains(y) || y == x),
{
    let mut i: usize = 0;
    while i < v.len() && v[i] < x
        invariant
            0 <= i <= v@.len(),
            v@ == old(v)@,
            forall|k: int| 0 <= k < i ==> #[trigger] v@[k] < x,
        decreases v@.len() - i,
    {
        i += 1;
    }
    if i < v.len() && v[i] == x {
        proof {
            assert(v@[i as int] == x);
        }
        return;
    }
    let ghost old_v = v@;
    v.insert(i, x);
    proof {
        assert forall|a: int, b: int| 0 <= a < b < v@.len() implies #[trigger] v@[a] < #[trigger] v@[b] by {
            if b < i {
            } else if b == i {
            } else if a < i {
                assert(old_v[b - 1] >= old_v[i as int] || b - 1 == i);
            } else if a == i {
                assert(old_v[i as int] > x);
                if b - 1 > i {
                    assert(old_v[i as int] < old_v[b - 1]);
                }
            } else {
                assert(old_v[a - 1] < old_v[b - 1]);
            }
        }
        assert forall|y: u64| #[trigger] v@.contains(y) <==> (old_v.contains(y) || y == x) by {
            if old_v.contains(y) {
                let k = choose|k: int| 0 <= k < old_v.len() && old_v[k] == y;
                if k < i {
                    assert(v@[k] == y);
                } else {
                    assert(v@[k + 1] == y);
                }
            }
            if y == x {
                assert(v@[i as int] == x);
            }
            if v@.contains(y) {
                let k = choose|k: int| 0 <= k < v@.len() && v@[k] == y;
                if k < i {
                    assert(old_v[k] == y);
                } else if k > i {
                    assert(old_v[k - 1] == y);
                }
            }
        }
    }
}

/// Returns a copy of a list of identifiers.
fn copy_ids(locks: &Vec<u64>) -> (r: Vec<u64>)
    ensures
        r@ == locks@,
{
    let mut r: Vec<u64> = Vec::new();
    let mut i: usize = 0;
    while i < locks.len()
        invariant
            0 <= i <= locks@.len(),
            r@ == locks@.take(i as int),
        decreases locks@.len() - i,
    {
        r.push(locks[i]);
        i += 1;
        proof {
            assert(r@ =~= locks@.take(i as int));
        }
    }
    assert(locks@.take(locks@.len() as int) =~= locks@);
    r
}

} // verus!
