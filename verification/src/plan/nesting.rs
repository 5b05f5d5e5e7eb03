//! The controller graph: which interface holds which, how deep an
//! interface lies below the top of its stack, and the check that refuses
//! circles and stacks of more than four controllers.

use crate::model::error::Failure;
use crate::model::iface::IfaceView;
use crate::model::ifaces::{as_index, keys_of};
use crate::model::key::{find_controller, lemma_find_controller_in_range};
use crate::plan::merge::{applied, find_controller_among, slot_views, Slot};
use vstd::prelude::*;

verus! {

/// The number of controllers that may be stacked above an interface.
pub const MAX_DEPTH: usize = 4;

/// The place of the controller that holds the interface at `i`. An
/// interface that is being removed, or of a user-space kind, is held by
/// none; neither is one whose controller is not in the collection or
/// cannot hold members.
pub open spec fn parent_index(r: Seq<IfaceView>, i: int) -> Option<int> {
    if r[i].is_absent() || r[i].iface_type.is_userspace() {
        None
    } else {
        match r[i].controller_name() {
            Some(x) => match find_controller(keys_of(r), x, r[i].controller_type) {
                Some(k) => if r[k].holds_members() {
                    Some(k)
                } else {
                    None
                },
                None => None,
            },
            None => None,
        }
    }
}

/// The number of controllers above the interface at `i`, where fewer
/// than `fuel` of them are stacked there.
pub open spec fn level(r: Seq<IfaceView>, i: int, fuel: nat) -> Option<nat>
    decreases fuel,
{
    if fuel == 0 {
        None
    } else {
        match parent_index(r, i) {
            None => Some(0),
            Some(k) => match level(r, k, (fuel - 1) as nat) {
                Some(l) => Some(l + 1),
                None => None,
            },
        }
    }
}

/// A number of controllers that no chain without a circle exceeds: the
/// size of the collection, or `MAX_DEPTH` where that is more.
pub open spec fn chain_bound(r: Seq<IfaceView>) -> nat {
    if r.len() < MAX_DEPTH {
        MAX_DEPTH as nat
    } else {
        r.len()
    }
}

/// Whether the chain of controllers above the interface at `i` never
/// ends: it is longer than the collection, so it runs in a circle.
pub open spec fn endless(r: Seq<IfaceView>, i: int) -> bool {
    level(r, i, chain_bound(r) + 1) is None
}

/// Whether more than `MAX_DEPTH` controllers are stacked above the
/// interface at `i`.
pub open spec fn too_deep(r: Seq<IfaceView>, i: int) -> bool {
    level(r, i, (MAX_DEPTH + 1) as nat) is None
}

/// Whether at most `MAX_DEPTH` controllers are stacked above every
/// interface; then no chain of controllers runs in a circle either.
pub open spec fn well_nested(r: Seq<IfaceView>) -> bool {
    forall|i: int| 0 <= i < r.len() ==> !#[trigger] too_deep(r, i)
}

/// What the check of the controller graph finds.
pub open spec fn nesting_verdict(r: Seq<IfaceView>) -> Result<(), Failure> {
    if exists|i: int| 0 <= i < r.len() && endless(r, i) {
        Err(Failure::ControllerCycle)
    } else if exists|i: int| 0 <= i < r.len() && too_deep(r, i) {
        Err(Failure::NestingTooDeep)
    } else {
        Ok(())
    }
}

/// The controller of an interface has a place in the collection.
pub proof fn lemma_parent_in_range(r: Seq<IfaceView>, i: int)
    requires
        0 <= i < r.len(),
    ensures
        parent_index(r, i) matches Some(k) ==> 0 <= k < r.len(),
{
    if let Some(x) = r[i].controller_name() {
        lemma_find_controller_in_range(keys_of(r), x, r[i].controller_type);
    }
}

/// A level that is found with some fuel is found with any fuel above it.
pub proof fn lemma_level_fuel(r: Seq<IfaceView>, i: int, fuel: nat, more: nat)
    requires
        level(r, i, fuel) is Some,
        fuel <= more,
    ensures
        level(r, i, more) == level(r, i, fuel),
        level(r, i, fuel)->0 < fuel,
    decreases fuel,
{
    if fuel > 0 {
        match parent_index(r, i) {
            None => {},
            Some(k) => {
                lemma_level_fuel(r, k, (fuel - 1) as nat, (more - 1) as nat);
            },
        }
    }
}

/// The check passes on exactly the graphs in which at most `MAX_DEPTH`
/// controllers are stacked above every interface. Stacks of more are
/// refused as too deep, or as a circle where the chain never ends.
pub proof fn lemma_verdict_is_well_nested(r: Seq<IfaceView>)
    ensures
        nesting_verdict(r) is Ok <==> well_nested(r),
        nesting_verdict(r) matches Err(f) ==> f == Failure::ControllerCycle || f
            == Failure::NestingTooDeep,
{
    if well_nested(r) {
        assert forall|i: int| 0 <= i < r.len() implies !endless(r, i) by {
            assert(!too_deep(r, i));
            lemma_level_fuel(r, i, (MAX_DEPTH + 1) as nat, chain_bound(r) + 1);
        }
    } else {
        let i = choose|i: int| 0 <= i < r.len() && #[trigger] too_deep(r, i);
        assert(0 <= i < r.len() && too_deep(r, i));
    }
}

/// A level is found with one more unit of fuel than its number.
pub proof fn lemma_level_exact(r: Seq<IfaceView>, i: int, fuel: nat)
    requires
        level(r, i, fuel) is Some,
    ensures
        level(r, i, level(r, i, fuel)->0 + 1) == level(r, i, fuel),
    decreases fuel,
{
    if fuel > 0 {
        match parent_index(r, i) {
            None => {},
            Some(k) => {
                lemma_level_exact(r, k, (fuel - 1) as nat);
            },
        }
    }
}

/// The place that is reached from the interface at `i` by climbing `n`
/// times to the controller.
pub open spec fn ancestor(r: Seq<IfaceView>, i: int, n: nat) -> Option<int>
    decreases n,
{
    if n == 0 {
        Some(i)
    } else {
        match parent_index(r, i) {
            Some(k) => ancestor(r, k, (n - 1) as nat),
            None => None,
        }
    }
}

/// An interface that lies `n` controllers above another has `n` fewer
/// controllers above it.
pub proof fn lemma_ancestor_level(r: Seq<IfaceView>, i: int, n: nat, fuel: nat)
    requires
        level(r, i, fuel) is Some,
        ancestor(r, i, n) is Some,
    ensures
        n <= level(r, i, fuel)->0,
        level(r, ancestor(r, i, n)->0, fuel) == Some((level(r, i, fuel)->0 - n) as nat),
    decreases n,
{
    if n > 0 {
        let k = parent_index(r, i)->0;
        lemma_level_fuel(r, k, (fuel - 1) as nat, fuel);
        lemma_ancestor_level(r, k, (n - 1) as nat, fuel);
    }
}

/// Where at most `MAX_DEPTH` controllers are stacked above every
/// interface, no interface lies above itself: the controller graph has
/// no circle.
pub proof fn law_no_circle(r: Seq<IfaceView>, i: int, n: nat)
    requires
        well_nested(r),
        0 <= i < r.len(),
        n > 0,
    ensures
        ancestor(r, i, n) != Some(i),
{
    assert(!too_deep(r, i));
    if ancestor(r, i, n) == Some(i) {
        lemma_ancestor_level(r, i, n, (MAX_DEPTH + 1) as nat);
    }
}

/// With some level shifted by a number of steps already taken.
pub open spec fn raised(o: Option<nat>, steps: nat) -> Option<nat> {
    match o {
        Some(l) => Some(l + steps),
        None => None,
    }
}

/// The place of the controller that holds the record at `i`.
pub fn parent_of(w: &Vec<Slot>, i: usize) -> (r: Option<usize>)
    requires
        i < w.len(),
    ensures
        as_index(r) == parent_index(applied(slot_views(w@)), i as int),
        r matches Some(k) ==> k < w.len(),
{
    let m = &w[i].merged;
    proof {
        assert(applied(slot_views(w@))[i as int] == m@);
    }
    if m.is_absent() || m.iface_type().is_userspace() {
        return None;
    }
    let base = m.base_iface();
    match &base.controller {
        Some(x) => {
            if x.as_str().is_empty() {
                return None;
            }
            match find_controller_among(w, x, base.controller_type) {
                Some(k) => {
                    proof {
                        assert(applied(slot_views(w@))[k as int] == w[k as int].merged@);
                    }
                    if w[k].merged.holds_members() {
                        Some(k)
                    } else {
                        None
                    }
                },
                None => None,
            }
        },
        None => None,
    }
}

/// The number of controllers above the record at `i`, where at most
/// `limit` of them are stacked there.
pub fn depth_of(w: &Vec<Slot>, i: usize, limit: usize) -> (r: Option<usize>)
    requires
        i < w.len(),
    ensures
        match level(applied(slot_views(w@)), i as int, (limit + 1) as nat) {
            Some(l) => r == Some(l as usize) && l <= limit,
            None => r is None,
        },
{
    let ghost g = applied(slot_views(w@));
    let mut at: usize = i;
    let mut steps: usize = 0;
    loop
        invariant
            at < w.len(),
            steps <= limit,
            g == applied(slot_views(w@)),
            level(g, i as int, (limit + 1) as nat) == raised(
                level(g, at as int, (limit + 1 - steps) as nat),
                steps as nat,
            ),
        decreases limit - steps,
    {
        match parent_of(w, at) {
            None => {
                return Some(steps);
            },
            Some(k) => {
                if steps == limit {
                    proof {
                        assert(level(g, k as int, 0) is None);
                    }
                    return None;
                }
                at = k;
                steps += 1;
            },
        }
    }
}

/// Checks the controller graph: no chain of controllers runs in a
/// circle, and none is longer than `MAX_DEPTH`.
pub fn check_nesting(w: &Vec<Slot>) -> (res: Result<(), Failure>)
    ensures
        res == nesting_verdict(applied(slot_views(w@))),
{
    let ghost g = applied(slot_views(w@));
    let n = w.len();
    let bound = if n < MAX_DEPTH {
        MAX_DEPTH
    } else {
        n
    };
    let mut i: usize = 0;
    while i < n
        invariant
            i <= n,
            n == w.len(),
            bound == chain_bound(g),
            g == applied(slot_views(w@)),
            forall|j: int| 0 <= j < i ==> !endless(g, j),
        decreases n - i,
    {
        if depth_of(w, i, bound).is_none() {
            assert(endless(g, i as int));
            return Err(Failure::ControllerCycle);
        }
        i += 1;
    }
    let mut i: usize = 0;
    while i < n
        invariant
            i <= n,
            n == w.len(),
            g == applied(slot_views(w@)),
            forall|j: int| 0 <= j < n ==> !endless(g, j),
            forall|j: int| 0 <= j < i ==> !too_deep(g, j),
        decreases n - i,
    {
        if depth_of(w, i, MAX_DEPTH).is_none() {
            assert(too_deep(g, i as int));
            return Err(Failure::NestingTooDeep);
        }
        i += 1;
    }
    Ok(())
}

} // verus!
