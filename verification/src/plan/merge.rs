//! Merging per key: the desired and the current record of one identity are
//! combined into the working record that the later passes resolve.

use crate::model::iface::{BaseInterface, IfaceView, Interface, InterfaceType};
use crate::model::ifaces::{as_index, find_slot_in, keys_of, slot_matches, views};
use crate::model::key::{
    find_controller, find_key, find_slot, is_first_slot, lemma_find_slot_is, lemma_find_slot_sound,
    lemma_same_slot_equivalence, same_slot, slot_free, unique_slots, Key,
};
use crate::model::text::clone_opt_name;
use vstd::prelude::*;

verus! {

/// The working record of one identity: what was asked for, what is
/// there, and the record that results.
#[derive(Clone, Debug)]
pub struct Slot {
    pub desired: Option<Interface>,
    pub current: Option<Interface>,
    pub merged: Interface,
}

/// A working record as contracts see it.
pub struct SlotView {
    pub desired: Option<IfaceView>,
    pub current: Option<IfaceView>,
    pub merged: IfaceView,
}

/// The view of an optional interface.
pub open spec fn opt_view(o: Option<Interface>) -> Option<IfaceView> {
    match o {
        Some(i) => Some(i@),
        None => None,
    }
}

impl View for Slot {
    type V = SlotView;

    open spec fn view(&self) -> SlotView {
        SlotView {
            desired: opt_view(self.desired),
            current: opt_view(self.current),
            merged: self.merged@,
        }
    }
}

/// The views of a list of working records.
pub open spec fn slot_views(v: Seq<Slot>) -> Seq<SlotView> {
    Seq::new(v.len(), |i: int| v[i]@)
}

/// The resulting records of a list of working records.
pub open spec fn applied(w: Seq<SlotView>) -> Seq<IfaceView> {
    Seq::new(w.len(), |i: int| w[i].merged)
}

/// The keys of a list of working records.
pub open spec fn slot_keys(w: Seq<SlotView>) -> Seq<Key> {
    keys_of(applied(w))
}

/// A copy of an optional interface.
pub fn duplicate_opt(o: &Option<Interface>) -> (r: Option<Interface>)
    ensures
        opt_view(r) == opt_view(*o),
{
    match o {
        Some(i) => Some(i.duplicate()),
        None => None,
    }
}

/// The first place of `w` whose record competes with the given key.
pub fn find_slot_among(w: &Vec<Slot>, name: &String, iface_type: InterfaceType) -> (r: Option<
    usize,
>)
    ensures
        as_index(r) == find_slot(slot_keys(slot_views(w@)), Key { name: name@, iface_type }),
        r matches Some(i) ==> i < w.len(),
{
    let ghost keys = slot_keys(slot_views(w@));
    let ghost k = Key { name: name@, iface_type };
    let mut i: usize = 0;
    while i < w.len()
        invariant
            i <= w.len(),
            keys == slot_keys(slot_views(w@)),
            k == (Key { name: name@, iface_type }),
            forall|j: int| 0 <= j < i ==> !same_slot(#[trigger] keys[j], k),
        decreases w.len() - i,
    {
        proof {
            assert(keys[i as int] == w[i as int].merged@.key());
        }
        if slot_matches(w[i].merged.name(), w[i].merged.iface_type(), name, iface_type) {
            proof {
                assert(is_first_slot(keys, k, i as int));
                lemma_find_slot_is(keys, k, i as int);
            }
            return Some(i);
        }
        i += 1;
    }
    proof {
        assert(slot_free(keys, k));
        lemma_find_slot_sound(keys, k);
    }
    None
}

/// The place of the record of `w` that has the given name and kind.
pub fn find_key_among(w: &Vec<Slot>, name: &String, iface_type: InterfaceType) -> (r: Option<
    usize,
>)
    ensures
        as_index(r) == find_key(slot_keys(slot_views(w@)), Key { name: name@, iface_type }),
        r matches Some(i) ==> i < w.len(),
{
    match find_slot_among(w, name, iface_type) {
        Some(i) => {
            proof {
                lemma_find_slot_sound(
                    slot_keys(slot_views(w@)),
                    Key { name: name@, iface_type },
                );
                assert(slot_keys(slot_views(w@))[i as int] == w[i as int].merged@.key());
            }
            if w[i].merged.iface_type() == iface_type {
                Some(i)
            } else {
                None
            }
        },
        None => None,
    }
}

/// The place of the controller that a member names, as `find_controller`
/// states it.
pub fn find_controller_among(
    w: &Vec<Slot>,
    name: &String,
    iface_type: Option<InterfaceType>,
) -> (r: Option<usize>)
    ensures
        as_index(r) == find_controller(slot_keys(slot_views(w@)), name@, iface_type),
        r matches Some(i) ==> i < w.len(),
{
    match iface_type {
        Some(t) => find_key_among(w, name, t),
        None => match find_key_among(w, name, InterfaceType::OvsBridge) {
            Some(i) => Some(i),
            None => find_slot_among(w, name, InterfaceType::Ethernet),
        },
    }
}

/// The record that starts from `v` alone: a copy with no rank yet.
pub open spec fn adopt(v: IfaceView) -> IfaceView {
    IfaceView { up_priority: 0, ..v }
}

/// The record that results from a desired and a current record of one
/// identity. What the desired record states wins, field by field; what it
/// leaves open comes from the current record. A controller is stated
/// together with its kind. A member list counts for controllers only, a
/// lower interface for VLANs only.
pub open spec fn merge_views(d: IfaceView, c: IfaceView) -> IfaceView {
    IfaceView {
        name: d.name,
        iface_type: d.iface_type,
        state: d.state,
        controller: if d.controller is Some {
            d.controller
        } else {
            c.controller
        },
        controller_type: if d.controller is Some {
            d.controller_type
        } else {
            c.controller_type
        },
        up_priority: 0,
        ipv4: if d.ipv4 is Some {
            d.ipv4
        } else {
            c.ipv4
        },
        ipv6: if d.ipv6 is Some {
            d.ipv6
        } else {
            c.ipv6
        },
        ports: if !d.iface_type.is_controller() {
            None
        } else if d.ports is Some {
            d.ports
        } else {
            c.ports
        },
        parent: if !(d.iface_type is Vlan) {
            None
        } else if d.parent is Some {
            d.parent
        } else {
            c.parent
        },
    }
}

/// The working record of a desired interface: paired with the current
/// interface that competes with it, where there is one.
pub open spec fn paired(d: IfaceView, cur: Seq<IfaceView>) -> SlotView {
    match find_slot(keys_of(cur), d.key()) {
        Some(j) => SlotView {
            desired: Some(d),
            current: Some(cur[j]),
            merged: merge_views(d, cur[j]),
        },
        None => SlotView { desired: Some(d), current: None, merged: adopt(d) },
    }
}

/// The working record of a current interface that nothing is asked of.
pub open spec fn kept(c: IfaceView) -> SlotView {
    SlotView { desired: None, current: Some(c), merged: adopt(c) }
}

/// The working records of the first `n` current interfaces that compete
/// with no desired one, in their order.
pub open spec fn current_only(des: Seq<IfaceView>, cur: Seq<IfaceView>, n: nat) -> Seq<SlotView>
    decreases n,
{
    if n == 0 {
        Seq::empty()
    } else {
        let rest = current_only(des, cur, (n - 1) as nat);
        if slot_free(keys_of(des), cur[n - 1].key()) {
            rest.push(kept(cur[n - 1]))
        } else {
            rest
        }
    }
}

/// The working set of a desired and a current collection: one record for
/// each desired interface, in order, then one for each current interface
/// that nothing is asked of.
pub open spec fn merge_seq(des: Seq<IfaceView>, cur: Seq<IfaceView>) -> Seq<SlotView> {
    Seq::new(des.len(), |i: int| paired(des[i], cur)) + current_only(des, cur, cur.len() as nat)
}

/// A copy of an interface with no rank yet.
pub fn adopt_iface(v: &Interface) -> (r: Interface)
    ensures
        r@ == adopt(v@),
{
    let mut r = v.duplicate();
    r.base_iface_mut().up_priority = 0;
    r
}

/// Merges the desired and the current record of one identity.
pub fn merge_pair(d: &Interface, c: &Interface) -> (r: Interface)
    ensures
        r@ == merge_views(d@, c@),
{
    let db = d.base_iface();
    let cb = c.base_iface();
    let stated = db.controller.is_some();
    let base = BaseInterface {
        name: db.name.clone(),
        state: db.state,
        controller: if stated {
            clone_opt_name(&db.controller)
        } else {
            clone_opt_name(&cb.controller)
        },
        controller_type: if stated {
            db.controller_type
        } else {
            cb.controller_type
        },
        up_priority: 0,
        ipv4: if db.ipv4.is_some() {
            db.ipv4
        } else {
            cb.ipv4
        },
        ipv6: if db.ipv6.is_some() {
            db.ipv6
        } else {
            cb.ipv6
        },
    };
    let dp = d.ports();
    let ports = if dp.is_some() {
        dp
    } else {
        c.ports()
    };
    let dl = d.parent();
    let parent = if dl.is_some() {
        dl
    } else {
        c.parent()
    };
    Interface::from_parts(d.iface_type(), base, ports, parent)
}

/// The working record of one desired interface.
pub fn pair_desired(d: &Interface, cur: &Vec<Interface>) -> (r: Slot)
    ensures
        r@ == paired(d@, views(cur@)),
{
    match find_slot_in(cur, d.name(), d.iface_type()) {
        Some(j) => Slot {
            desired: Some(d.duplicate()),
            current: Some(cur[j].duplicate()),
            merged: merge_pair(d, &cur[j]),
        },
        None => Slot { desired: Some(d.duplicate()), current: None, merged: adopt_iface(d) },
    }
}

/// Builds the working set of a desired and a current collection.
pub fn merge_all(des: &Vec<Interface>, cur: &Vec<Interface>) -> (r: Vec<Slot>)
    ensures
        slot_views(r@) == merge_seq(views(des@), views(cur@)),
{
    let ghost dv = views(des@);
    let ghost cv = views(cur@);
    let mut r: Vec<Slot> = Vec::new();
    let mut i: usize = 0;
    while i < des.len()
        invariant
            i <= des.len(),
            dv == views(des@),
            cv == views(cur@),
            slot_views(r@) == Seq::new(i as nat, |k: int| paired(dv[k], cv)),
        decreases des.len() - i,
    {
        let s = pair_desired(&des[i], cur);
        let ghost prev = slot_views(r@);
        let ghost sv = s@;
        r.push(s);
        proof {
            assert(dv[i as int] == des[i as int]@);
            assert(slot_views(r@) =~= prev.push(sv));
            assert(slot_views(r@) =~= Seq::new((i + 1) as nat, |k: int| paired(dv[k], cv)));
        }
        i += 1;
    }
    let ghost head = slot_views(r@);
    let mut j: usize = 0;
    while j < cur.len()
        invariant
            j <= cur.len(),
            dv == views(des@),
            cv == views(cur@),
            slot_views(r@) == head + current_only(dv, cv, j as nat),
        decreases cur.len() - j,
    {
        let hit = find_slot_in(des, cur[j].name(), cur[j].iface_type());
        proof {
            lemma_find_slot_sound(keys_of(dv), cv[j as int].key());
        }
        let ghost prev = slot_views(r@);
        proof {
            assert(cv[j as int] == cur[j as int]@);
        }
        if hit.is_none() {
            let s = Slot {
                desired: None,
                current: Some(cur[j].duplicate()),
                merged: adopt_iface(&cur[j]),
            };
            let ghost sv = s@;
            r.push(s);
            proof {
                assert(sv == kept(cv[j as int]));
                assert(slot_views(r@) =~= prev.push(sv));
            }
        }
        proof {
            assert(slot_views(r@) =~= head + current_only(dv, cv, (j + 1) as nat));
        }
        j += 1;
    }
    r
}

/// The places in `cur` of the interfaces that `current_only` keeps.
pub open spec fn current_only_src(des: Seq<IfaceView>, cur: Seq<IfaceView>, n: nat) -> Seq<int>
    decreases n,
{
    if n == 0 {
        Seq::empty()
    } else {
        let rest = current_only_src(des, cur, (n - 1) as nat);
        if slot_free(keys_of(des), cur[n - 1].key()) {
            rest.push(n - 1)
        } else {
            rest
        }
    }
}

/// What `current_only` holds: each record stands for a current interface
/// that competes with no desired one, and later records stand for later
/// interfaces.
pub proof fn lemma_current_only(des: Seq<IfaceView>, cur: Seq<IfaceView>, n: nat)
    requires
        n <= cur.len(),
    ensures
        current_only(des, cur, n).len() == current_only_src(des, cur, n).len(),
        forall|a: int|
            0 <= a < current_only_src(des, cur, n).len() ==> {
                let j = #[trigger] current_only_src(des, cur, n)[a];
                &&& 0 <= j < n
                &&& current_only(des, cur, n)[a] == kept(cur[j])
                &&& slot_free(keys_of(des), cur[j].key())
            },
        forall|a: int, b: int|
            0 <= a < b < current_only_src(des, cur, n).len() ==> #[trigger] current_only_src(
                des,
                cur,
                n,
            )[a] < #[trigger] current_only_src(des, cur, n)[b],
    decreases n,
{
    if n > 0 {
        lemma_current_only(des, cur, (n - 1) as nat);
    }
}

/// Merging two collections without competing keys gives a working set
/// without competing keys.
pub proof fn lemma_merge_unique(des: Seq<IfaceView>, cur: Seq<IfaceView>)
    requires
        unique_slots(keys_of(des)),
        unique_slots(keys_of(cur)),
    ensures
        unique_slots(slot_keys(merge_seq(des, cur))),
{
    let w = merge_seq(des, cur);
    let keys = slot_keys(w);
    let tail = current_only(des, cur, cur.len() as nat);
    let src = current_only_src(des, cur, cur.len() as nat);
    lemma_current_only(des, cur, cur.len() as nat);
    assert forall|a: int, b: int| 0 <= a < b < keys.len() implies !same_slot(
        #[trigger] keys[a],
        #[trigger] keys[b],
    ) by {
        let n = des.len() as int;
        if a < n {
            lemma_find_slot_sound(keys_of(cur), des[a].key());
            assert(keys[a] == des[a].key());
            assert(keys_of(des)[a] == des[a].key());
            if b < n {
                lemma_find_slot_sound(keys_of(cur), des[b].key());
                assert(keys[b] == des[b].key());
                assert(keys_of(des)[b] == des[b].key());
            } else {
                let j = src[b - n];
                assert(tail[b - n] == kept(cur[j]));
                assert(keys[b] == cur[j].key());
                lemma_same_slot_equivalence(keys[a], keys[b], keys[a]);
            }
        } else {
            let j = src[a - n];
            let k = src[b - n];
            assert(j < k);
            assert(keys[a] == cur[j].key());
            assert(keys[b] == cur[k].key());
            assert(keys_of(cur)[j] == cur[j].key());
            assert(keys_of(cur)[k] == cur[k].key());
        }
    }
}

} // verus!
