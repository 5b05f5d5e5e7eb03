//! Resolving membership. Controllers name their members and members name
//! their controller; here the two are brought into one relation, and every
//! record is rewritten to state it from its own end.

use crate::model::iface::{BaseInterface, IfaceView, Interface, InterfaceState};
use crate::model::ifaces::as_index;
use crate::model::key::find_controller;
use crate::model::text::{
    first_true, is_first_true, lemma_first_true_is, lemma_first_true_sound, names, sole_true,
};
use crate::plan::claims::{
    asked_index, asked_index_at, can_hold, can_hold_at, is_member, is_member_at, listed_at,
    listed_by,
};
use crate::plan::enroll::stated_ports;
use crate::plan::merge::{
    duplicate_opt, find_controller_among, slot_keys, slot_views, Slot, SlotView,
};
use vstd::prelude::*;

verus! {

/// For each record, whether it is a desired controller that lists `name`.
pub open spec fn lister_flags(w: Seq<SlotView>, name: Seq<char>) -> Seq<bool> {
    Seq::new(w.len(), |j: int| listed_by(w, j, name))
}

/// The first desired controller that lists `name`.
pub open spec fn first_lister(w: Seq<SlotView>, name: Seq<char>) -> Option<int> {
    first_true(lister_flags(w, name))
}

/// Whether the current record at `j` is a controller that lists `name`.
pub open spec fn current_lists(w: Seq<SlotView>, j: int, name: Seq<char>) -> bool {
    w[j].current matches Some(c) && c.lists(name)
}

/// For each record, whether its current record lists `name`.
pub open spec fn current_lister_flags(w: Seq<SlotView>, name: Seq<char>) -> Seq<bool> {
    Seq::new(w.len(), |j: int| current_lists(w, j, name))
}

/// The controller that holds the interface at `i` in the current state.
/// What the interface's own record says counts; where it says nothing,
/// the current controller that lists the interface holds it, if exactly
/// one does.
pub open spec fn current_controller(w: Seq<SlotView>, i: int) -> Option<int> {
    match w[i].current {
        Some(c) => if c.controller is Some {
            match c.controller_name() {
                Some(y) => find_controller(slot_keys(w), y, c.controller_type),
                None => None,
            }
        } else {
            sole_true(current_lister_flags(w, c.name))
        },
        None => None,
    }
}

/// The current controller of the interface at `i`, where it keeps the
/// interface: it can hold members, and no desired member list of it is
/// stated, which would have to name the interface.
pub open spec fn retained(w: Seq<SlotView>, i: int) -> Option<int> {
    match current_controller(w, i) {
        Some(k) => if can_hold(w[k].merged) && stated_ports(w[k]) is None {
            Some(k)
        } else {
            None
        },
        None => None,
    }
}

/// Whether the desired record at `i` says anything of its controller.
pub open spec fn states_controller(w: Seq<SlotView>, i: int) -> bool {
    w[i].desired matches Some(d) && d.controller is Some
}

/// The place of the controller that holds the interface at `i` in the
/// plan. A desired controller that lists the interface holds it. Else
/// the controller that the desired record asks for holds it, and none
/// where it asks to be detached. Where the desired state says nothing,
/// the current controller keeps it. An interface that is being removed,
/// or of a user-space kind, is held by none.
pub open spec fn controller_index(w: Seq<SlotView>, i: int) -> Option<int> {
    if !is_member(w, i) {
        None
    } else {
        match first_lister(w, w[i].merged.name) {
            Some(j) => Some(j),
            None => if states_controller(w, i) {
                match asked_index(w, i) {
                    Some(k) => if can_hold(w[k].merged) {
                        Some(k)
                    } else {
                        None
                    },
                    None => None,
                }
            } else {
                retained(w, i)
            },
        }
    }
}

/// Whether the interface at `i` goes away because it cannot exist
/// outside a controller and none holds it.
pub open spec fn is_orphan(w: Seq<SlotView>, i: int) -> bool {
    &&& w[i].merged.iface_type.needs_controller()
    &&& !w[i].merged.is_absent()
    &&& controller_index(w, i) is None
}

/// The names of the interfaces among the first `n` that the controller
/// at `k` holds, in their order.
pub open spec fn members_upto(w: Seq<SlotView>, k: int, n: nat) -> Seq<Seq<char>>
    decreases n,
{
    if n == 0 {
        Seq::empty()
    } else {
        let rest = members_upto(w, k, (n - 1) as nat);
        if controller_index(w, n - 1) == Some(k) {
            rest.push(w[n - 1].merged.name)
        } else {
            rest
        }
    }
}

/// The resulting record of the interface at `i` once membership is
/// resolved. A record that is being removed stays as it is. An orphan is
/// removed. Any other record names the controller that holds it, with
/// its kind, or none; and a controller states the members it holds.
pub open spec fn resolved_view(w: Seq<SlotView>, i: int) -> IfaceView {
    let v = w[i].merged;
    if v.is_absent() {
        v
    } else if is_orphan(w, i) {
        IfaceView { state: InterfaceState::Absent, ..v }
    } else {
        IfaceView {
            controller: match controller_index(w, i) {
                Some(k) => Some(w[k].merged.name),
                None => None,
            },
            controller_type: match controller_index(w, i) {
                Some(k) => Some(w[k].merged.iface_type),
                None => None,
            },
            ports: if v.iface_type.is_controller() {
                Some(members_upto(w, i, w.len()))
            } else {
                v.ports
            },
            ..v
        }
    }
}

/// The working set with membership resolved.
pub open spec fn resolved(w: Seq<SlotView>) -> Seq<SlotView> {
    Seq::new(w.len(), |i: int| SlotView { merged: resolved_view(w, i), ..w[i] })
}

/// The first desired controller that lists `name`.
pub fn first_lister_among(w: &Vec<Slot>, name: &String) -> (r: Option<usize>)
    ensures
        as_index(r) == first_lister(slot_views(w@), name@),
        r matches Some(j) ==> j < w.len(),
{
    let ghost wv = slot_views(w@);
    let ghost flags = lister_flags(wv, name@);
    let mut j: usize = 0;
    while j < w.len()
        invariant
            j <= w.len(),
            wv == slot_views(w@),
            flags == lister_flags(wv, name@),
            forall|k: int| 0 <= k < j ==> !flags[k],
        decreases w.len() - j,
    {
        if listed_at(w, j, name) {
            proof {
                assert(is_first_true(flags, j as int));
                lemma_first_true_is(flags, j as int);
            }
            return Some(j);
        }
        j += 1;
    }
    proof {
        lemma_first_true_sound(flags);
    }
    None
}

/// The one record whose current record is a controller that lists
/// `name`, where exactly one does.
pub fn sole_current_lister_among(w: &Vec<Slot>, name: &String) -> (r: Option<usize>)
    ensures
        as_index(r) == sole_true(current_lister_flags(slot_views(w@), name@)),
        r matches Some(j) ==> j < w.len(),
{
    let ghost wv = slot_views(w@);
    let ghost flags = current_lister_flags(wv, name@);
    let mut found: Option<usize> = None;
    let mut j: usize = 0;
    while j < w.len()
        invariant
            j <= w.len(),
            wv == slot_views(w@),
            flags == current_lister_flags(wv, name@),
            match found {
                Some(f) => f < j && is_first_true(flags, f as int) && forall|k: int|
                    f < k < j ==> !flags[k],
                None => forall|k: int| 0 <= k < j ==> !flags[k],
            },
        decreases w.len() - j,
    {
        proof {
            assert(wv[j as int] == w[j as int]@);
        }
        let hit = match &w[j].current {
            Some(c) => c.lists(name),
            None => false,
        };
        if hit {
            match found {
                Some(f) => {
                    proof {
                        lemma_first_true_is(flags, f as int);
                        assert(flags[j as int]);
                    }
                    return None;
                },
                None => {
                    found = Some(j);
                },
            }
        }
        j += 1;
    }
    proof {
        match found {
            Some(f) => {
                lemma_first_true_is(flags, f as int);
            },
            None => {
                lemma_first_true_sound(flags);
            },
        }
    }
    found
}

/// The current controller of the record at `i`, where it keeps it.
pub fn retained_at(w: &Vec<Slot>, i: usize) -> (r: Option<usize>)
    requires
        i < w.len(),
    ensures
        as_index(r) == retained(slot_views(w@), i as int),
        r matches Some(k) ==> k < w.len(),
{
    let ghost wv = slot_views(w@);
    proof {
        assert(wv[i as int] == w[i as int]@);
    }
    let found = match &w[i].current {
        Some(c) => {
            let base = c.base_iface();
            match &base.controller {
                Some(y) => {
                    if y.as_str().is_empty() {
                        None
                    } else {
                        find_controller_among(w, y, base.controller_type)
                    }
                },
                None => sole_current_lister_among(w, c.name()),
            }
        },
        None => None,
    };
    match found {
        Some(k) => {
            proof {
                assert(wv[k as int] == w[k as int]@);
            }
            let stated = match &w[k].desired {
                Some(d) => d.holds_members() && d.states_ports(),
                None => false,
            };
            if can_hold_at(w, k) && !stated {
                Some(k)
            } else {
                None
            }
        },
        None => None,
    }
}

/// The place of the controller that holds the record at `i` in the plan.
pub fn controller_at(w: &Vec<Slot>, i: usize) -> (r: Option<usize>)
    requires
        i < w.len(),
    ensures
        as_index(r) == controller_index(slot_views(w@), i as int),
        r matches Some(k) ==> k < w.len(),
{
    let ghost wv = slot_views(w@);
    proof {
        assert(wv[i as int] == w[i as int]@);
    }
    if !is_member_at(w, i) {
        return None;
    }
    match first_lister_among(w, w[i].merged.name()) {
        Some(j) => Some(j),
        None => {
            let states = match &w[i].desired {
                Some(d) => d.base_iface().controller.is_some(),
                None => false,
            };
            if states {
                match asked_index_at(w, i) {
                    Some(k) => if can_hold_at(w, k) {
                        Some(k)
                    } else {
                        None
                    },
                    None => None,
                }
            } else {
                retained_at(w, i)
            }
        },
    }
}

/// The controllers that hold the records of `w`, place by place.
pub fn controllers_of(w: &Vec<Slot>) -> (r: Vec<Option<usize>>)
    ensures
        r.len() == w.len(),
        forall|i: int|
            0 <= i < w.len() ==> as_index(#[trigger] r[i]) == controller_index(slot_views(w@), i),
        forall|i: int| 0 <= i < w.len() ==> (#[trigger] r[i] matches Some(k) ==> k < w.len()),
{
    let mut r: Vec<Option<usize>> = Vec::new();
    let mut i: usize = 0;
    while i < w.len()
        invariant
            i <= w.len(),
            r.len() == i,
            forall|a: int|
                0 <= a < i ==> as_index(#[trigger] r[a]) == controller_index(slot_views(w@), a),
            forall|a: int| 0 <= a < i ==> (#[trigger] r[a] matches Some(k) ==> k < w.len()),
        decreases w.len() - i,
    {
        r.push(controller_at(w, i));
        i += 1;
    }
    r
}

/// The names of the records that the controller at `k` holds.
pub fn members_of(w: &Vec<Slot>, ctrl: &Vec<Option<usize>>, k: usize) -> (r: Vec<String>)
    requires
        ctrl.len() == w.len(),
        forall|i: int|
            0 <= i < w.len() ==> as_index(#[trigger] ctrl[i]) == controller_index(
                slot_views(w@),
                i,
            ),
    ensures
        names(r@) == members_upto(slot_views(w@), k as int, w.len() as nat),
{
    let ghost wv = slot_views(w@);
    let mut r: Vec<String> = Vec::new();
    let mut m: usize = 0;
    while m < w.len()
        invariant
            m <= w.len(),
            ctrl.len() == w.len(),
            wv == slot_views(w@),
            forall|i: int|
                0 <= i < w.len() ==> as_index(#[trigger] ctrl[i]) == controller_index(wv, i),
            names(r@) == members_upto(wv, k as int, m as nat),
        decreases w.len() - m,
    {
        proof {
            assert(wv[m as int] == w[m as int]@);
        }
        let held = match ctrl[m] {
            Some(c) => c == k,
            None => false,
        };
        let ghost before = names(r@);
        if held {
            r.push(w[m].merged.name().clone());
            proof {
                assert(names(r@) =~= before.push(wv[m as int].merged.name));
            }
        }
        m += 1;
    }
    r
}

/// Rewrites every record of the working set to state the resolved
/// membership.
pub fn resolve_members(w: &Vec<Slot>) -> (r: Vec<Slot>)
    ensures
        slot_views(r@) == resolved(slot_views(w@)),
{
    let ghost wv = slot_views(w@);
    let ctrl = controllers_of(w);
    let mut r: Vec<Slot> = Vec::new();
    let mut i: usize = 0;
    while i < w.len()
        invariant
            i <= w.len(),
            r.len() == i,
            ctrl.len() == w.len(),
            wv == slot_views(w@),
            forall|a: int|
                0 <= a < w.len() ==> as_index(#[trigger] ctrl[a]) == controller_index(wv, a),
            forall|a: int|
                0 <= a < w.len() ==> (#[trigger] ctrl[a] matches Some(k) ==> k < w.len()),
            forall|a: int|
                0 <= a < i ==> (#[trigger] r[a])@ == (SlotView {
                    merged: resolved_view(wv, a),
                    ..wv[a]
                }),
        decreases w.len() - i,
    {
        proof {
            assert(wv[i as int] == w[i as int]@);
        }
        let old = &w[i].merged;
        let held = ctrl[i];
        let merged = if old.is_absent() {
            old.duplicate()
        } else if old.iface_type().needs_controller() && held.is_none() {
            let mut gone = old.duplicate();
            gone.base_iface_mut().state = InterfaceState::Absent;
            gone
        } else {
            let ob = old.base_iface();
            let (controller, controller_type) = match held {
                Some(k) => {
                    proof {
                        assert(wv[k as int] == w[k as int]@);
                    }
                    (Some(w[k].merged.name().clone()), Some(w[k].merged.iface_type()))
                },
                None => (None, None),
            };
            let base = BaseInterface {
                name: ob.name.clone(),
                state: ob.state,
                controller,
                controller_type,
                up_priority: ob.up_priority,
                ipv4: ob.ipv4,
                ipv6: ob.ipv6,
            };
            let ports = if old.iface_type().is_controller() {
                Some(members_of(w, &ctrl, i))
            } else {
                None
            };
            Interface::from_parts(old.iface_type(), base, ports, old.parent())
        };
        proof {
            assert(merged@ == resolved_view(wv, i as int));
        }
        let s = Slot {
            desired: duplicate_opt(&w[i].desired),
            current: duplicate_opt(&w[i].current),
            merged,
        };
        r.push(s);
        i += 1;
    }
    proof {
        assert(slot_views(r@) =~= resolved(wv));
    }
    r
}

} // verus!
