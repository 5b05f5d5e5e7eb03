//! The activation order: every interface gets the number of controllers
//! above it as its rank, so that a controller comes up before its members.

use crate::model::iface::IfaceView;
use crate::model::ifaces::keys_of;
use crate::plan::merge::{applied, duplicate_opt, slot_views, Slot, SlotView};
use crate::plan::nesting::{
    depth_of, lemma_level_fuel, level, parent_index, too_deep, well_nested, MAX_DEPTH,
};
use vstd::prelude::*;

verus! {

/// The rank of the interface at `i`: the number of controllers above it,
/// or 0 where more than `MAX_DEPTH` are stacked there.
pub open spec fn rank_of(r: Seq<IfaceView>, i: int) -> u32 {
    match level(r, i, (MAX_DEPTH + 1) as nat) {
        Some(l) => l as u32,
        None => 0,
    }
}

/// The working record with the given rank.
pub open spec fn ranked_one(s: SlotView, rank: u32) -> SlotView {
    SlotView { merged: IfaceView { up_priority: rank, ..s.merged }, ..s }
}

/// The working set with every record ranked.
pub open spec fn ranked(w: Seq<SlotView>) -> Seq<SlotView> {
    Seq::new(w.len(), |i: int| ranked_one(w[i], rank_of(applied(w), i)))
}

/// Whether every interface bears its rank: 0 where no controller holds
/// it, one more than its controller's rank where one does.
pub open spec fn ranks_follow_controllers(r: Seq<IfaceView>) -> bool {
    forall|i: int|
        0 <= i < r.len() ==> match #[trigger] parent_index(r, i) {
            None => r[i].up_priority == 0,
            Some(k) => r[i].up_priority == r[k].up_priority + 1,
        }
}

/// Gives every record of the working set its rank.
pub fn assign_priorities(w: &Vec<Slot>) -> (r: Vec<Slot>)
    ensures
        slot_views(r@) == ranked(slot_views(w@)),
{
    let ghost wv = slot_views(w@);
    let mut r: Vec<Slot> = Vec::new();
    let mut i: usize = 0;
    while i < w.len()
        invariant
            i <= w.len(),
            wv == slot_views(w@),
            r.len() == i,
            forall|k: int|
                0 <= k < i ==> (#[trigger] r[k])@ == ranked_one(wv[k], rank_of(applied(wv), k)),
        decreases w.len() - i,
    {
        let rank: u32 = match depth_of(w, i, MAX_DEPTH) {
            Some(d) => d as u32,
            None => 0,
        };
        let mut merged = w[i].merged.duplicate();
        merged.base_iface_mut().up_priority = rank;
        let s = Slot {
            desired: duplicate_opt(&w[i].desired),
            current: duplicate_opt(&w[i].current),
            merged,
        };
        proof {
            assert(wv[i as int] == w[i as int]@);
            assert(s@ == ranked_one(wv[i as int], rank_of(applied(wv), i as int)));
        }
        r.push(s);
        i += 1;
    }
    proof {
        assert(slot_views(r@) =~= ranked(wv));
    }
    r
}

/// Ranking changes no key, no state and no controller, so the graph of
/// the ranked set is the graph of the set.
pub proof fn lemma_ranked_graph(w: Seq<SlotView>, i: int, fuel: nat)
    requires
        0 <= i < w.len(),
    ensures
        parent_index(applied(ranked(w)), i) == parent_index(applied(w), i),
        level(applied(ranked(w)), i, fuel) == level(applied(w), i, fuel),
        parent_index(applied(w), i) matches Some(k) ==> 0 <= k < w.len(),
    decreases fuel,
{
    let a = applied(w);
    let b = applied(ranked(w));
    assert(keys_of(b) =~= keys_of(a));
    crate::plan::nesting::lemma_parent_in_range(a, i);
    if fuel > 0 {
        match parent_index(a, i) {
            None => {},
            Some(k) => {
                lemma_ranked_graph(w, k, (fuel - 1) as nat);
            },
        }
    }
}

/// In a ranked set whose stacks are at most `MAX_DEPTH` deep, every
/// interface without a controller has rank 0, and every member has one
/// more than its controller.
pub proof fn lemma_ranked_follows(w: Seq<SlotView>)
    requires
        well_nested(applied(w)),
    ensures
        ranks_follow_controllers(applied(ranked(w))),
{
    let a = applied(w);
    let b = applied(ranked(w));
    assert forall|i: int| 0 <= i < b.len() implies match #[trigger] parent_index(b, i) {
        None => b[i].up_priority == 0,
        Some(k) => b[i].up_priority == b[k].up_priority + 1,
    } by {
        lemma_ranked_graph(w, i, 0);
        assert(!too_deep(a, i));
        match parent_index(a, i) {
            None => {},
            Some(k) => {
                assert(!too_deep(a, k));
                assert(level(a, k, MAX_DEPTH as nat) is Some);
                lemma_level_fuel(a, k, MAX_DEPTH as nat, (MAX_DEPTH + 1) as nat);
            },
        }
    }
}

} // verus!
