//! What resolving membership achieves: in the resolved working set every
//! member names the controller that holds it, every controller lists the
//! members it holds, and nothing refers to a controller that is not there.

use crate::model::iface::IfaceView;
use crate::model::key::{lemma_find_controller_in_range, lemma_find_own_slot};
use crate::model::text::lemma_first_true_sound;
use crate::plan::claims::{can_hold, is_member, listed_by};
use crate::plan::merge::{applied, slot_keys, SlotView};
use crate::plan::nesting::parent_index;
use crate::plan::resolve::{
    controller_index, current_lister_flags, first_lister, is_orphan, lister_flags, members_upto,
    resolved, resolved_view, states_controller,
};
use crate::proofs::sound::{coherent_slot, sound};

use vstd::prelude::*;

verus! {

/// Whether members and controllers agree. Every interface that names a
/// controller is held by it; every interface is on the list of the
/// controller that holds it; and every name on the list of a controller
/// that can hold members is an interface that it holds.
pub open spec fn members_agree(r: Seq<IfaceView>) -> bool {
    &&& forall|i: int|
        0 <= i < r.len() && !r[i].is_absent() && r[i].controller_name() is Some
            ==> #[trigger] parent_index(r, i) is Some
    &&& forall|i: int|
        0 <= i < r.len() ==> (#[trigger] parent_index(r, i) matches Some(k) ==> r[k].ports
            matches Some(l) && l.contains(r[i].name))
    &&& forall|k: int| 0 <= k < r.len() && r[k].holds_members() ==> (#[trigger] r[k]).ports is Some
    &&& forall|k: int, p: int|
        0 <= k < r.len() && r[k].holds_members() && 0 <= p < r[k].ports->0.len()
            ==> #[trigger] holds(r, k, r[k].ports->0[p])
}

/// Whether the controller at `k` holds an interface of the given name.
pub open spec fn holds(r: Seq<IfaceView>, k: int, name: Seq<char>) -> bool {
    exists|i: int| 0 <= i < r.len() && r[i].name == name && parent_index(r, i) == Some(k)
}

/// The controller that holds an interface in the plan has a place in the
/// working set and can hold members.
pub proof fn lemma_controller_valid(w: Seq<SlotView>, i: int)
    requires
        sound(w),
        0 <= i < w.len(),
    ensures
        controller_index(w, i) matches Some(k) ==> 0 <= k < w.len() && can_hold(w[k].merged),
{
    if is_member(w, i) {
        let name = w[i].merged.name;
        lemma_first_true_sound(lister_flags(w, name));
        match first_lister(w, name) {
            Some(j) => {
                assert(lister_flags(w, name)[j]);
                assert(listed_by(w, j, name));
                assert(coherent_slot(w[j]));
            },
            None => {
                if states_controller(w, i) {
                    let d = w[i].desired->0;
                    if let Some(x) = d.controller_name() {
                        lemma_find_controller_in_range(slot_keys(w), x, d.controller_type);
                    }
                } else {
                    if let Some(c) = w[i].current {
                        if c.controller is Some {
                            if let Some(y) = c.controller_name() {
                                lemma_find_controller_in_range(
                                    slot_keys(w),
                                    y,
                                    c.controller_type,
                                );
                            }
                        } else {
                            lemma_first_true_sound(current_lister_flags(w, c.name));
                        }
                    }
                }
            },
        }
    }
}

/// Resolving changes no name, no kind and no desired or current record.
pub proof fn lemma_resolved_keeps(w: Seq<SlotView>)
    ensures
        resolved(w).len() == w.len(),
        slot_keys(resolved(w)) == slot_keys(w),
        forall|i: int|
            0 <= i < w.len() ==> (#[trigger] resolved(w)[i]).desired == w[i].desired && resolved(
                w,
            )[i].current == w[i].current,
{
    assert(slot_keys(resolved(w)) =~= slot_keys(w));
}

/// In the resolved working set the controller that an interface names is
/// the controller that holds it in the plan.
pub proof fn lemma_resolved_graph(w: Seq<SlotView>, i: int)
    requires
        sound(w),
        0 <= i < w.len(),
    ensures
        parent_index(applied(resolved(w)), i) == controller_index(w, i),
{
    let r = applied(resolved(w));
    lemma_resolved_keeps(w);
    lemma_controller_valid(w, i);
    assert(r[i] == resolved_view(w, i));
    let v = w[i].merged;
    if !v.is_absent() && !is_orphan(w, i) {
        match controller_index(w, i) {
            Some(k) => {
                assert(slot_keys(w)[k] == w[k].merged.key());
                lemma_find_own_slot(slot_keys(w), k);
                assert(r[k] == resolved_view(w, k));
                assert(!is_orphan(w, k));
            },
            None => {},
        }
    }
}

/// The members that `members_upto` names are the records among the first
/// `n` that the controller holds.
pub proof fn lemma_members_upto(w: Seq<SlotView>, k: int, n: nat)
    requires
        n <= w.len(),
    ensures
        forall|x: Seq<char>|
            members_upto(w, k, n).contains(x) <==> exists|m: int|
                0 <= m < n && controller_index(w, m) == Some(k) && w[m].merged.name == x,
    decreases n,
{
    if n > 0 {
        let rest = members_upto(w, k, (n - 1) as nat);
        let full = members_upto(w, k, n);
        lemma_members_upto(w, k, (n - 1) as nat);
        assert forall|x: Seq<char>| full.contains(x) <==> exists|m: int|
            0 <= m < n && controller_index(w, m) == Some(k) && w[m].merged.name == x by {
            if full.contains(x) {
                let a = choose|a: int| 0 <= a < full.len() && full[a] == x;
                if a < rest.len() {
                    assert(rest[a] == x);
                    assert(rest.contains(x));
                    let m = choose|m: int|
                        0 <= m < n - 1 && controller_index(w, m) == Some(k) && w[m].merged.name
                            == x;
                    assert(0 <= m < n && controller_index(w, m) == Some(k) && w[m].merged.name
                        == x);
                } else {
                    let m = n - 1;
                    assert(0 <= m < n && controller_index(w, m) == Some(k) && w[m].merged.name
                        == x);
                }
            }
            if exists|m: int|
                0 <= m < n && controller_index(w, m) == Some(k) && w[m].merged.name == x {
                let m = choose|m: int|
                    0 <= m < n && controller_index(w, m) == Some(k) && w[m].merged.name == x;
                if m < n - 1 {
                    assert(rest.contains(x));
                    let a = choose|a: int| 0 <= a < rest.len() && rest[a] == x;
                    assert(full[a] == x);
                } else {
                    assert(full[full.len() - 1] == x);
                }
            }
        }
    }
}

/// In the resolved working set members and controllers agree.
pub proof fn lemma_resolved_agrees(w: Seq<SlotView>)
    requires
        sound(w),
    ensures
        members_agree(applied(resolved(w))),
{
    let r = applied(resolved(w));
    lemma_resolved_keeps(w);
    assert forall|i: int|
        0 <= i < r.len() && !r[i].is_absent() && r[i].controller_name()
            is Some implies #[trigger] parent_index(r, i) is Some by {
        lemma_resolved_graph(w, i);
        assert(r[i] == resolved_view(w, i));
    }
    assert forall|i: int| 0 <= i < r.len() implies (#[trigger] parent_index(r, i) matches Some(
        k,
    ) ==> r[k].ports matches Some(l) && l.contains(r[i].name)) by {
        lemma_resolved_graph(w, i);
        lemma_controller_valid(w, i);
        if let Some(k) = controller_index(w, i) {
            assert(r[k] == resolved_view(w, k));
            assert(r[i] == resolved_view(w, i));
            assert(!is_orphan(w, k));
            lemma_members_upto(w, k, w.len());
            assert(r[k].ports == Some(members_upto(w, k, w.len())));
        }
    }
    assert forall|k: int| 0 <= k < r.len() && r[k].holds_members() implies (#[trigger] r[k]).ports
        is Some by {
        assert(r[k] == resolved_view(w, k));
        assert(!is_orphan(w, k));
    }
    assert forall|k: int, p: int|
        0 <= k < r.len() && r[k].holds_members() && 0 <= p
            < r[k].ports->0.len() implies #[trigger] holds(r, k, r[k].ports->0[p]) by {
        assert(r[k] == resolved_view(w, k));
        assert(!is_orphan(w, k));
        let l = members_upto(w, k, w.len());
        assert(r[k].ports == Some(l));
        lemma_members_upto(w, k, w.len());
        assert(l.contains(l[p]));
        let m = choose|m: int|
            0 <= m < w.len() && controller_index(w, m) == Some(k) && w[m].merged.name == l[p];
        lemma_resolved_graph(w, m);
        assert(r[m] == resolved_view(w, m));
        assert(0 <= m < r.len() && r[m].name == l[p] && parent_index(r, m) == Some(k));
    }
}

} // verus!
