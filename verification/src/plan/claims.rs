//! The claims that the desired state makes on members, and the check that
//! refuses a desired state whose claims contradict each other. Only the
//! desired state is held to this: a member that the current state puts
//! under one controller and the desired state under another has moved.

use crate::model::error::Failure;
use crate::model::iface::IfaceView;
use crate::model::ifaces::as_index;
use crate::model::key::find_controller;
use crate::model::text::names;
use crate::plan::enroll::{stated_ports, stated_ports_of};
use crate::plan::merge::{find_controller_among, slot_keys, slot_views, Slot, SlotView};
use vstd::prelude::*;

verus! {

/// Whether the record at `j` is a desired controller that can hold
/// members and states `name` as one of them.
pub open spec fn listed_by(w: Seq<SlotView>, j: int, name: Seq<char>) -> bool {
    w[j].desired matches Some(d) && d.lists(name)
}

/// Whether the record at `i` can be a member: it is a kernel interface
/// that is not being removed. Nothing blocks a removal.
pub open spec fn is_member(w: Seq<SlotView>, i: int) -> bool {
    !w[i].merged.is_absent() && !w[i].merged.iface_type.is_userspace()
}

/// Whether an interface can hold members.
pub open spec fn can_hold(v: IfaceView) -> bool {
    v.holds_members()
}

/// The name of the controller that the desired record at `i` asks for.
pub open spec fn asked_controller(w: Seq<SlotView>, i: int) -> Option<Seq<char>> {
    match w[i].desired {
        Some(d) => d.controller_name(),
        None => None,
    }
}

/// Whether the desired record at `i` asks to be detached.
pub open spec fn asks_detach(w: Seq<SlotView>, i: int) -> bool {
    w[i].desired matches Some(d) && d.asks_detach()
}

/// The place of the controller that the desired record at `i` asks for.
pub open spec fn asked_index(w: Seq<SlotView>, i: int) -> Option<int> {
    match w[i].desired {
        Some(d) => match d.controller_name() {
            Some(x) => find_controller(slot_keys(w), x, d.controller_type),
            None => None,
        },
        None => None,
    }
}

/// The member at `i` asks for one controller, and the controller at `j`,
/// of another name, lists it.
pub open spec fn controller_conflict(w: Seq<SlotView>, i: int, j: int) -> bool {
    &&& is_member(w, i)
    &&& listed_by(w, j, w[i].merged.name)
    &&& asked_controller(w, i) matches Some(x)
    &&& x != w[j].merged.name
}

/// The member at `i` asks to be detached, and the controller at `j`
/// lists it.
pub open spec fn detach_conflict(w: Seq<SlotView>, i: int, j: int) -> bool {
    &&& is_member(w, i)
    &&& listed_by(w, j, w[i].merged.name)
    &&& asks_detach(w, i)
}

/// The member at `i` asks for a controller whose desired record states
/// a member list without it.
pub open spec fn not_in_port_list(w: Seq<SlotView>, i: int) -> bool {
    &&& is_member(w, i)
    &&& asked_index(w, i) matches Some(k)
    &&& stated_ports(w[k]) matches Some(l)
    &&& !l.contains(w[i].merged.name)
}

/// The member at `i` asks for a controller that is not in the working
/// set, is being removed, or is of a kind that holds no members.
pub open spec fn missing_controller(w: Seq<SlotView>, i: int) -> bool {
    &&& is_member(w, i)
    &&& asked_controller(w, i) is Some
    &&& !(asked_index(w, i) matches Some(k) && can_hold(w[k].merged))
}

/// The controller at `j1` states a member as the `p`-th of its list, and
/// the controller at `j2`, another one, lists it too.
pub open spec fn overbooked(w: Seq<SlotView>, j1: int, p: int, j2: int) -> bool {
    &&& j1 != j2
    &&& stated_ports(w[j1]) matches Some(l)
    &&& 0 <= p < l.len()
    &&& listed_by(w, j2, l[p])
}

pub open spec fn has_controller_conflict(w: Seq<SlotView>) -> bool {
    exists|i: int, j: int| 0 <= i < w.len() && 0 <= j < w.len() && controller_conflict(w, i, j)
}

pub open spec fn has_detach_conflict(w: Seq<SlotView>) -> bool {
    exists|i: int, j: int| 0 <= i < w.len() && 0 <= j < w.len() && detach_conflict(w, i, j)
}

pub open spec fn has_unlisted_member(w: Seq<SlotView>) -> bool {
    exists|i: int| 0 <= i < w.len() && not_in_port_list(w, i)
}

pub open spec fn has_missing_controller(w: Seq<SlotView>) -> bool {
    exists|i: int| 0 <= i < w.len() && missing_controller(w, i)
}

pub open spec fn has_overbooked_port(w: Seq<SlotView>) -> bool {
    exists|j1: int, p: int, j2: int|
        0 <= j1 < w.len() && 0 <= j2 < w.len() && overbooked(w, j1, p, j2)
}

/// What the check of the desired claims finds. Where several faults are
/// there, the one that comes first in this order is reported.
pub open spec fn membership_verdict(w: Seq<SlotView>) -> Result<(), Failure> {
    if has_controller_conflict(w) {
        Err(Failure::ControllerConflict)
    } else if has_detach_conflict(w) {
        Err(Failure::DetachConflict)
    } else if has_unlisted_member(w) {
        Err(Failure::NotInPortList)
    } else if has_missing_controller(w) {
        Err(Failure::MissingController)
    } else if has_overbooked_port(w) {
        Err(Failure::OverbookedPort)
    } else {
        Ok(())
    }
}

pub fn listed_at(w: &Vec<Slot>, j: usize, name: &String) -> (r: bool)
    requires
        j < w.len(),
    ensures
        r == listed_by(slot_views(w@), j as int, name@),
{
    proof {
        assert(slot_views(w@)[j as int] == w[j as int]@);
    }
    match &w[j].desired {
        Some(d) => d.lists(name),
        None => false,
    }
}

pub fn is_member_at(w: &Vec<Slot>, i: usize) -> (r: bool)
    requires
        i < w.len(),
    ensures
        r == is_member(slot_views(w@), i as int),
{
    proof {
        assert(slot_views(w@)[i as int] == w[i as int]@);
    }
    !w[i].merged.is_absent() && !w[i].merged.iface_type().is_userspace()
}

pub fn can_hold_at(w: &Vec<Slot>, k: usize) -> (r: bool)
    requires
        k < w.len(),
    ensures
        r == can_hold(slot_views(w@)[k as int].merged),
{
    proof {
        assert(slot_views(w@)[k as int] == w[k as int]@);
    }
    w[k].merged.holds_members()
}

/// The place of the controller that the desired record at `i` asks for.
pub fn asked_index_at(w: &Vec<Slot>, i: usize) -> (r: Option<usize>)
    requires
        i < w.len(),
    ensures
        as_index(r) == asked_index(slot_views(w@), i as int),
        r matches Some(k) ==> k < w.len(),
{
    proof {
        assert(slot_views(w@)[i as int] == w[i as int]@);
    }
    match &w[i].desired {
        Some(d) => {
            let base = d.base_iface();
            match &base.controller {
                Some(x) => {
                    if x.as_str().is_empty() {
                        None
                    } else {
                        find_controller_among(w, x, base.controller_type)
                    }
                },
                None => None,
            }
        },
        None => None,
    }
}

/// Whether the desired record at `i` asks for a controller.
pub fn asks_controller_at(w: &Vec<Slot>, i: usize) -> (r: bool)
    requires
        i < w.len(),
    ensures
        r == (asked_controller(slot_views(w@), i as int) is Some),
{
    proof {
        assert(slot_views(w@)[i as int] == w[i as int]@);
    }
    match &w[i].desired {
        Some(d) => match &d.base_iface().controller {
            Some(x) => !x.as_str().is_empty(),
            None => false,
        },
        None => false,
    }
}

/// Whether the desired record at `i` asks to be detached.
pub fn asks_detach_at(w: &Vec<Slot>, i: usize) -> (r: bool)
    requires
        i < w.len(),
    ensures
        r == asks_detach(slot_views(w@), i as int),
{
    proof {
        assert(slot_views(w@)[i as int] == w[i as int]@);
    }
    match &w[i].desired {
        Some(d) => match &d.base_iface().controller {
            Some(x) => x.as_str().is_empty(),
            None => false,
        },
        None => false,
    }
}

/// Whether the member at `i` is listed by a controller of another name
/// than the one it asks for.
fn conflicts_at(w: &Vec<Slot>, i: usize) -> (r: bool)
    requires
        i < w.len(),
    ensures
        r == exists|j: int| 0 <= j < w.len() && controller_conflict(slot_views(w@), i as int, j),
{
    let ghost wv = slot_views(w@);
    proof {
        assert(wv[i as int] == w[i as int]@);
    }
    if !is_member_at(w, i) || !asks_controller_at(w, i) {
        return false;
    }
    let name = w[i].merged.name();
    match &w[i].desired {
        Some(d) => match &d.base_iface().controller {
            Some(x) => {
                let mut j: usize = 0;
                while j < w.len()
                    invariant
                        j <= w.len(),
                        i < w.len(),
                        wv == slot_views(w@),
                        name@ == wv[i as int].merged.name,
                        asked_controller(wv, i as int) == Some(x@),
                        is_member(wv, i as int),
                        forall|k: int| 0 <= k < j ==> !controller_conflict(wv, i as int, k),
                    decreases w.len() - j,
                {
                    proof {
                        assert(wv[j as int] == w[j as int]@);
                    }
                    if listed_at(w, j, name) && !(*x == *w[j].merged.name()) {
                        assert(controller_conflict(wv, i as int, j as int));
                        return true;
                    }
                    j += 1;
                }
                false
            },
            None => false,
        },
        None => false,
    }
}

/// Whether the member at `i` asks to be detached and is listed by a
/// controller.
fn detach_conflicts_at(w: &Vec<Slot>, i: usize) -> (r: bool)
    requires
        i < w.len(),
    ensures
        r == exists|j: int| 0 <= j < w.len() && detach_conflict(slot_views(w@), i as int, j),
{
    let ghost wv = slot_views(w@);
    proof {
        assert(wv[i as int] == w[i as int]@);
    }
    if !is_member_at(w, i) || !asks_detach_at(w, i) {
        return false;
    }
    let name = w[i].merged.name();
    let mut j: usize = 0;
    while j < w.len()
        invariant
            j <= w.len(),
            i < w.len(),
            wv == slot_views(w@),
            name@ == wv[i as int].merged.name,
            asks_detach(wv, i as int),
            is_member(wv, i as int),
            forall|k: int| 0 <= k < j ==> !detach_conflict(wv, i as int, k),
        decreases w.len() - j,
    {
        if listed_at(w, j, name) {
            assert(detach_conflict(wv, i as int, j as int));
            return true;
        }
        j += 1;
    }
    false
}

fn unlisted_at(w: &Vec<Slot>, i: usize) -> (r: bool)
    requires
        i < w.len(),
    ensures
        r == not_in_port_list(slot_views(w@), i as int),
{
    let ghost wv = slot_views(w@);
    proof {
        assert(wv[i as int] == w[i as int]@);
    }
    if !is_member_at(w, i) {
        return false;
    }
    match asked_index_at(w, i) {
        Some(k) => {
            proof {
                assert(wv[k as int] == w[k as int]@);
            }
            match &w[k].desired {
                Some(dk) => {
                    if dk.holds_members() && dk.states_ports() {
                        !dk.lists(w[i].merged.name())
                    } else {
                        false
                    }
                },
                None => false,
            }
        },
        None => false,
    }
}

fn missing_at(w: &Vec<Slot>, i: usize) -> (r: bool)
    requires
        i < w.len(),
    ensures
        r == missing_controller(slot_views(w@), i as int),
{
    if !is_member_at(w, i) || !asks_controller_at(w, i) {
        return false;
    }
    match asked_index_at(w, i) {
        Some(k) => !can_hold_at(w, k),
        None => true,
    }
}

/// Whether a member that the controller at `j1` states is listed by
/// another controller too.
fn overbooks_at(w: &Vec<Slot>, j1: usize) -> (r: bool)
    requires
        j1 < w.len(),
    ensures
        r == exists|p: int, j2: int|
            0 <= j2 < w.len() && overbooked(slot_views(w@), j1 as int, p, j2),
{
    let ghost wv = slot_views(w@);
    proof {
        assert(wv[j1 as int] == w[j1 as int]@);
    }
    match stated_ports_of(&w[j1]) {
        Some(l) => {
            let ghost lv = names(l@);
            let mut p: usize = 0;
            while p < l.len()
                invariant
                    p <= l.len(),
                    j1 < w.len(),
                    wv == slot_views(w@),
                    lv == names(l@),
                    stated_ports(wv[j1 as int]) == Some(lv),
                    forall|q: int, j2: int|
                        0 <= q < p && 0 <= j2 < w.len() ==> !overbooked(wv, j1 as int, q, j2),
                decreases l.len() - p,
            {
                let mut j2: usize = 0;
                while j2 < w.len()
                    invariant
                        j2 <= w.len(),
                        p < l.len(),
                        j1 < w.len(),
                        wv == slot_views(w@),
                        lv == names(l@),
                        stated_ports(wv[j1 as int]) == Some(lv),
                        forall|k: int| 0 <= k < j2 ==> !overbooked(wv, j1 as int, p as int, k),
                    decreases w.len() - j2,
                {
                    proof {
                        assert(lv[p as int] == l[p as int]@);
                    }
                    if j2 != j1 && listed_at(w, j2, &l[p]) {
                        assert(overbooked(wv, j1 as int, p as int, j2 as int));
                        return true;
                    }
                    j2 += 1;
                }
                p += 1;
            }
            false
        },
        None => false,
    }
}

/// Checks the claims that the desired state makes on members.
pub fn check_membership(w: &Vec<Slot>) -> (res: Result<(), Failure>)
    ensures
        res == membership_verdict(slot_views(w@)),
{
    let ghost wv = slot_views(w@);
    let n = w.len();
    let mut i: usize = 0;
    while i < n
        invariant
            i <= n,
            n == w.len(),
            wv == slot_views(w@),
            forall|a: int, b: int| 0 <= a < i && 0 <= b < n ==> !controller_conflict(wv, a, b),
        decreases n - i,
    {
        if conflicts_at(w, i) {
            return Err(Failure::ControllerConflict);
        }
        i += 1;
    }
    let mut i: usize = 0;
    while i < n
        invariant
            i <= n,
            n == w.len(),
            wv == slot_views(w@),
            !has_controller_conflict(wv),
            forall|a: int, b: int| 0 <= a < i && 0 <= b < n ==> !detach_conflict(wv, a, b),
        decreases n - i,
    {
        if detach_conflicts_at(w, i) {
            return Err(Failure::DetachConflict);
        }
        i += 1;
    }
    let mut i: usize = 0;
    while i < n
        invariant
            i <= n,
            n == w.len(),
            wv == slot_views(w@),
            !has_controller_conflict(wv),
            !has_detach_conflict(wv),
            forall|a: int| 0 <= a < i ==> !not_in_port_list(wv, a),
        decreases n - i,
    {
        if unlisted_at(w, i) {
            return Err(Failure::NotInPortList);
        }
        i += 1;
    }
    let mut i: usize = 0;
    while i < n
        invariant
            i <= n,
            n == w.len(),
            wv == slot_views(w@),
            !has_controller_conflict(wv),
            !has_detach_conflict(wv),
            !has_unlisted_member(wv),
            forall|a: int| 0 <= a < i ==> !missing_controller(wv, a),
        decreases n - i,
    {
        if missing_at(w, i) {
            return Err(Failure::MissingController);
        }
        i += 1;
    }
    let mut i: usize = 0;
    while i < n
        invariant
            i <= n,
            n == w.len(),
            wv == slot_views(w@),
            !has_controller_conflict(wv),
            !has_detach_conflict(wv),
            !has_unlisted_member(wv),
            !has_missing_controller(wv),
            forall|a: int, p: int, b: int|
                0 <= a < i && 0 <= b < n ==> !overbooked(wv, a, p, b),
        decreases n - i,
    {
        if overbooks_at(w, i) {
            return Err(Failure::OverbookedPort);
        }
        i += 1;
    }
    Ok(())
}

} // verus!
