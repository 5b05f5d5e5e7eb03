//! Members that a controller names and that no interface bears yet are
//! created, so that every name in a stated member list has a record.

use crate::model::iface::{BaseInterface, IfaceView, Interface, InterfaceState, InterfaceType};
use crate::model::key::{find_slot, kernel_key};
use crate::model::text::names;
use crate::plan::merge::{find_slot_among, slot_keys, slot_views, Slot, SlotView};
use vstd::prelude::*;

verus! {

/// The member list that the working record states as a desired
/// controller that can hold members.
pub open spec fn stated_ports(s: SlotView) -> Option<Seq<Seq<char>>> {
    match s.desired {
        Some(d) => if d.holds_members() {
            d.ports
        } else {
            None
        },
        None => None,
    }
}

/// The record of a member created for the controller of the given name
/// and kind: up, held by that controller, of the kind that the controller
/// holds, with nothing else stated.
pub open spec fn created_member(
    name: Seq<char>,
    ctrl_name: Seq<char>,
    ctrl_type: InterfaceType,
) -> SlotView {
    SlotView {
        desired: None,
        current: None,
        merged: IfaceView {
            controller: Some(ctrl_name),
            controller_type: Some(ctrl_type),
            ..IfaceView::fresh(name, ctrl_type.member_type())
        },
    }
}

/// The working set after the first `k` names of the list `l` of one
/// controller were looked at: each name that no kernel interface bore
/// has got a record at the end.
pub open spec fn enroll_ports(
    acc: Seq<SlotView>,
    ctrl_name: Seq<char>,
    ctrl_type: InterfaceType,
    l: Seq<Seq<char>>,
    k: nat,
) -> Seq<SlotView>
    decreases k,
{
    if k == 0 {
        acc
    } else {
        let a = enroll_ports(acc, ctrl_name, ctrl_type, l, (k - 1) as nat);
        if find_slot(slot_keys(a), kernel_key(l[k - 1])) is None {
            a.push(created_member(l[k - 1], ctrl_name, ctrl_type))
        } else {
            a
        }
    }
}

/// The working set after the member lists of the first `j` records of
/// `w` were looked at.
pub open spec fn enroll_upto(w: Seq<SlotView>, j: nat) -> Seq<SlotView>
    decreases j,
{
    if j == 0 {
        w
    } else {
        let a = enroll_upto(w, (j - 1) as nat);
        match stated_ports(w[j - 1]) {
            Some(l) => enroll_ports(
                a,
                w[j - 1].merged.name,
                w[j - 1].merged.iface_type,
                l,
                l.len(),
            ),
            None => a,
        }
    }
}

/// The working set with a record for every member that a desired
/// controller names.
pub open spec fn auto_enroll(w: Seq<SlotView>) -> Seq<SlotView> {
    enroll_upto(w, w.len())
}

/// Looking at member lists only adds records at the end.
pub proof fn lemma_enroll_ports_extends(
    acc: Seq<SlotView>,
    ctrl_name: Seq<char>,
    ctrl_type: InterfaceType,
    l: Seq<Seq<char>>,
    k: nat,
)
    ensures
        acc.len() <= enroll_ports(acc, ctrl_name, ctrl_type, l, k).len(),
        forall|i: int|
            0 <= i < acc.len() ==> #[trigger] enroll_ports(acc, ctrl_name, ctrl_type, l, k)[i]
                == acc[i],
    decreases k,
{
    if k > 0 {
        lemma_enroll_ports_extends(acc, ctrl_name, ctrl_type, l, (k - 1) as nat);
    }
}

/// Looking at member lists only adds records at the end.
pub proof fn lemma_enroll_upto_extends(w: Seq<SlotView>, j: nat)
    requires
        j <= w.len(),
    ensures
        w.len() <= enroll_upto(w, j).len(),
        forall|i: int| 0 <= i < w.len() ==> #[trigger] enroll_upto(w, j)[i] == w[i],
    decreases j,
{
    if j > 0 {
        lemma_enroll_upto_extends(w, (j - 1) as nat);
        let a = enroll_upto(w, (j - 1) as nat);
        match stated_ports(w[j - 1]) {
            Some(l) => {
                lemma_enroll_ports_extends(
                    a,
                    w[j - 1].merged.name,
                    w[j - 1].merged.iface_type,
                    l,
                    l.len(),
                );
            },
            None => {},
        }
    }
}

/// The member list that a working record states as a desired controller
/// that can hold members.
pub fn stated_ports_of(s: &Slot) -> (r: Option<Vec<String>>)
    ensures
        crate::model::text::opt_names(r) == stated_ports(s@),
{
    match &s.desired {
        Some(d) => {
            if d.holds_members() {
                d.ports()
            } else {
                None
            }
        },
        None => None,
    }
}

/// Creates the record of a member for a controller.
pub fn create_member(name: &String, ctrl_name: &String, ctrl_type: InterfaceType) -> (r: Slot)
    ensures
        r@ == created_member(name@, ctrl_name@, ctrl_type),
{
    let base = BaseInterface {
        name: name.clone(),
        state: InterfaceState::Up,
        controller: Some(ctrl_name.clone()),
        controller_type: Some(ctrl_type),
        up_priority: 0,
        ipv4: None,
        ipv6: None,
    };
    Slot {
        desired: None,
        current: None,
        merged: Interface::from_parts(ctrl_type.member_type(), base, None, None),
    }
}

/// Gives every member that a desired controller names a record.
pub fn enroll_members(w: Vec<Slot>) -> (r: Vec<Slot>)
    ensures
        slot_views(r@) == auto_enroll(slot_views(w@)),
{
    let ghost w0 = slot_views(w@);
    let n = w.len();
    let mut w = w;
    let mut j: usize = 0;
    while j < n
        invariant
            j <= n,
            n == w0.len(),
            n <= w.len(),
            slot_views(w@) == enroll_upto(w0, j as nat),
        decreases n - j,
    {
        proof {
            lemma_enroll_upto_extends(w0, j as nat);
            assert(slot_views(w@)[j as int] == w[j as int]@);
        }
        let ports = stated_ports_of(&w[j]);
        match ports {
            Some(l) => {
                let ctrl_name = w[j].merged.name().clone();
                let ctrl_type = w[j].merged.iface_type();
                let ghost acc = slot_views(w@);
                let ghost lv = names(l@);
                let mut k: usize = 0;
                while k < l.len()
                    invariant
                        k <= l.len(),
                        n <= w.len(),
                        lv == names(l@),
                        slot_views(w@) == enroll_ports(acc, ctrl_name@, ctrl_type, lv, k as nat),
                    decreases l.len() - k,
                {
                    let ghost a = slot_views(w@);
                    proof {
                        assert(lv[k as int] == l[k as int]@);
                    }
                    if find_slot_among(&w, &l[k], InterfaceType::Ethernet).is_none() {
                        let s = create_member(&l[k], &ctrl_name, ctrl_type);
                        let ghost sv = s@;
                        w.push(s);
                        proof {
                            assert(slot_views(w@) =~= a.push(sv));
                        }
                    }
                    k += 1;
                }
            },
            None => {},
        }
        j += 1;
    }
    w
}

} // verus!
