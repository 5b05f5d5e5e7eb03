//! The plan does not depend on the order in which the two collections
//! hold their interfaces: collections of the same records give plans of
//! the same records, up to the order of a controller's member list.

use crate::model::error::Failure;
use crate::model::iface::{IfaceView, InterfaceType};
use crate::model::ifaces::keys_of;
use crate::model::key::{
    find_controller, find_key, find_slot, kernel_key, lemma_find_slot_sound,
    lemma_find_slot_unique, same_slot, slot_free, unique_slots, Key,
};
use crate::model::text::{is_sole_true, lemma_first_true_sound, lemma_sole_true, sole_true};
use crate::plan::claims::{
    controller_conflict, detach_conflict, has_controller_conflict, has_detach_conflict,
    has_missing_controller, has_overbooked_port, has_unlisted_member, is_member, listed_by,
    membership_verdict, missing_controller, not_in_port_list, overbooked,
};
use crate::plan::enroll::{auto_enroll, enroll_ports, enroll_upto, stated_ports};
use crate::plan::merge::{
    applied, current_only, current_only_src, kept, lemma_current_only, merge_seq, paired,
    slot_keys, SlotView,
};
use crate::plan::merged::{plan_for, working_set};
use crate::plan::nesting::{lemma_verdict_is_well_nested, too_deep, MAX_DEPTH};
use crate::plan::order::ranked;
use crate::plan::resolve::{
    controller_index, current_lister_flags, first_lister, lister_flags, members_upto, resolved,
    resolved_view, states_controller,
};
use crate::proofs::agreement::{lemma_members_upto, lemma_resolved_keeps};
use crate::proofs::creation::{lemma_enroll_upto_creates, listed_before, made_for};
use crate::proofs::same_graph::{
    has_node, law_rank_ignores_order, lemma_same_graph_level, same_node,
};
use crate::proofs::sound::{lemma_enroll_sound, lemma_merge_sound, sound};
use vstd::prelude::*;

verus! {

/// Whether two lists hold the same records, in whatever order.
pub open spec fn same_records<T>(a: Seq<T>, b: Seq<T>) -> bool {
    &&& forall|i: int| 0 <= i < a.len() ==> b.contains(#[trigger] a[i])
    &&& forall|j: int| 0 <= j < b.len() ==> a.contains(#[trigger] b[j])
}

/// In two keyed collections of the same interfaces a key is found in
/// both or in neither, and what is found is one interface.
pub proof fn lemma_same_lookup(a: Seq<IfaceView>, b: Seq<IfaceView>, q: Key)
    requires
        unique_slots(keys_of(a)),
        unique_slots(keys_of(b)),
        same_records(a, b),
    ensures
        match find_slot(keys_of(a), q) {
            Some(k) => {
                &&& 0 <= k < a.len()
                &&& find_slot(keys_of(b), q) is Some
                &&& 0 <= find_slot(keys_of(b), q)->0 < b.len()
                &&& b[find_slot(keys_of(b), q)->0] == a[k]
            },
            None => find_slot(keys_of(b), q) is None,
        },
{
    let ka = keys_of(a);
    let kb = keys_of(b);
    lemma_find_slot_sound(ka, q);
    lemma_find_slot_sound(kb, q);
    match find_slot(ka, q) {
        Some(k) => {
            assert(b.contains(a[k]));
            let j = choose|j: int| 0 <= j < b.len() && b[j] == a[k];
            assert(ka[k] == a[k].key());
            assert(kb[j] == b[j].key());
            lemma_find_slot_unique(kb, q, j);
        },
        None => {
            if let Some(j) = find_slot(kb, q) {
                assert(a.contains(b[j]));
                let k = choose|k: int| 0 <= k < a.len() && a[k] == b[j];
                assert(ka[k] == a[k].key());
                assert(kb[j] == b[j].key());
                assert(same_slot(ka[k], q));
            }
        },
    }
}

/// Every current interface that competes with no desired one has its
/// record among those that `current_only` keeps.
pub proof fn lemma_current_only_has(des: Seq<IfaceView>, cur: Seq<IfaceView>, n: nat, j: int)
    requires
        0 <= j < n <= cur.len(),
        slot_free(keys_of(des), cur[j].key()),
    ensures
        current_only(des, cur, n).contains(kept(cur[j])),
    decreases n,
{
    let full = current_only(des, cur, n);
    if j == n - 1 {
        assert(full[full.len() - 1] == kept(cur[j]));
    } else {
        lemma_current_only_has(des, cur, (n - 1) as nat, j);
        let rest = current_only(des, cur, (n - 1) as nat);
        let a = choose|a: int| 0 <= a < rest.len() && rest[a] == kept(cur[j]);
        assert(full[a] == kept(cur[j]));
    }
}

/// Every record of the working set of two collections is a record of the
/// working set of two collections of the same interfaces.
pub proof fn lemma_merge_included(
    d1: Seq<IfaceView>,
    c1: Seq<IfaceView>,
    d2: Seq<IfaceView>,
    c2: Seq<IfaceView>,
    i: int,
)
    requires
        unique_slots(keys_of(d1)),
        unique_slots(keys_of(c1)),
        unique_slots(keys_of(d2)),
        unique_slots(keys_of(c2)),
        same_records(d1, d2),
        same_records(c1, c2),
        0 <= i < merge_seq(d1, c1).len(),
    ensures
        merge_seq(d2, c2).contains(merge_seq(d1, c1)[i]),
{
    let w1 = merge_seq(d1, c1);
    let w2 = merge_seq(d2, c2);
    if i < d1.len() {
        let d = d1[i];
        assert(w1[i] == paired(d, c1));
        assert(d2.contains(d));
        let j = choose|j: int| 0 <= j < d2.len() && d2[j] == d;
        lemma_same_lookup(c1, c2, d.key());
        assert(w2[j] == paired(d, c2));
        assert(paired(d, c1) == paired(d, c2));
    } else {
        lemma_current_only(d1, c1, c1.len() as nat);
        let src = current_only_src(d1, c1, c1.len() as nat);
        let tail = current_only(d1, c1, c1.len() as nat);
        let a = i - d1.len();
        let j = src[a];
        let c = c1[j];
        assert(tail[a] == kept(c));
        assert(w1[i] == kept(c));
        assert(c2.contains(c));
        let j2 = choose|j2: int| 0 <= j2 < c2.len() && c2[j2] == c;
        lemma_same_lookup(d1, d2, c.key());
        lemma_find_slot_sound(keys_of(d1), c.key());
        lemma_find_slot_sound(keys_of(d2), c.key());
        lemma_current_only_has(d2, c2, c2.len() as nat, j2);
        let tail2 = current_only(d2, c2, c2.len() as nat);
        let b = choose|b: int| 0 <= b < tail2.len() && tail2[b] == kept(c);
        assert(w2[d2.len() + b] == kept(c));
    }
}

/// Two pairs of collections of the same interfaces merge into working
/// sets of the same records.
pub proof fn lemma_merge_same(
    d1: Seq<IfaceView>,
    c1: Seq<IfaceView>,
    d2: Seq<IfaceView>,
    c2: Seq<IfaceView>,
)
    requires
        unique_slots(keys_of(d1)),
        unique_slots(keys_of(c1)),
        unique_slots(keys_of(d2)),
        unique_slots(keys_of(c2)),
        same_records(d1, d2),
        same_records(c1, c2),
    ensures
        same_records(merge_seq(d1, c1), merge_seq(d2, c2)),
{
    let w1 = merge_seq(d1, c1);
    let w2 = merge_seq(d2, c2);
    assert forall|i: int| 0 <= i < w1.len() implies w2.contains(#[trigger] w1[i]) by {
        lemma_merge_included(d1, c1, d2, c2, i);
    }
    assert forall|j: int| 0 <= j < w2.len() implies w1.contains(#[trigger] w2[j]) by {
        lemma_merge_included(d2, c2, d1, c1, j);
    }
}

/// In two working sets of the same records a key is found in both or in
/// neither, and what is found is one record.
pub proof fn lemma_same_slot_lookup(a: Seq<SlotView>, b: Seq<SlotView>, q: Key)
    requires
        unique_slots(slot_keys(a)),
        unique_slots(slot_keys(b)),
        same_records(a, b),
    ensures
        match find_slot(slot_keys(a), q) {
            Some(k) => {
                &&& 0 <= k < a.len()
                &&& find_slot(slot_keys(b), q) is Some
                &&& 0 <= find_slot(slot_keys(b), q)->0 < b.len()
                &&& b[find_slot(slot_keys(b), q)->0] == a[k]
            },
            None => find_slot(slot_keys(b), q) is None,
        },
        match find_key(slot_keys(a), q) {
            Some(k) => {
                &&& 0 <= k < a.len()
                &&& find_key(slot_keys(b), q) is Some
                &&& 0 <= find_key(slot_keys(b), q)->0 < b.len()
                &&& b[find_key(slot_keys(b), q)->0] == a[k]
            },
            None => find_key(slot_keys(b), q) is None,
        },
{
    let ka = slot_keys(a);
    let kb = slot_keys(b);
    lemma_find_slot_sound(ka, q);
    lemma_find_slot_sound(kb, q);
    match find_slot(ka, q) {
        Some(k) => {
            assert(b.contains(a[k]));
            let j = choose|j: int| 0 <= j < b.len() && b[j] == a[k];
            assert(ka[k] == a[k].merged.key());
            assert(kb[j] == b[j].merged.key());
            lemma_find_slot_unique(kb, q, j);
        },
        None => {
            if let Some(j) = find_slot(kb, q) {
                assert(a.contains(b[j]));
                let k = choose|k: int| 0 <= k < a.len() && a[k] == b[j];
                assert(ka[k] == a[k].merged.key());
                assert(kb[j] == b[j].merged.key());
                assert(same_slot(ka[k], q));
            }
        },
    }
}

/// In two working sets of the same records a controller is found in
/// both or in neither, and what is found is one record.
pub proof fn lemma_same_controller_lookup(
    a: Seq<SlotView>,
    b: Seq<SlotView>,
    name: Seq<char>,
    t: Option<InterfaceType>,
)
    requires
        unique_slots(slot_keys(a)),
        unique_slots(slot_keys(b)),
        same_records(a, b),
    ensures
        match find_controller(slot_keys(a), name, t) {
            Some(k) => {
                &&& 0 <= k < a.len()
                &&& find_controller(slot_keys(b), name, t) is Some
                &&& 0 <= find_controller(slot_keys(b), name, t)->0 < b.len()
                &&& b[find_controller(slot_keys(b), name, t)->0] == a[k]
            },
            None => find_controller(slot_keys(b), name, t) is None,
        },
{
    match t {
        Some(tt) => {
            lemma_same_slot_lookup(a, b, Key { name, iface_type: tt });
        },
        None => {
            lemma_same_slot_lookup(a, b, Key { name, iface_type: InterfaceType::OvsBridge });
            lemma_same_slot_lookup(a, b, kernel_key(name));
        },
    }
}

/// Whether the record at `k` of `acc` was created for a member that a
/// controller of `w` lists and that no kernel interface of `w` bears.
pub open spec fn made_in(acc: Seq<SlotView>, k: int, w: Seq<SlotView>) -> bool {
    exists|j: int, name: Seq<char>|
        made_for(acc, k, w, j, name) && slot_free(slot_keys(w), kernel_key(name))
}

/// Whether `acc` is `w` with created members behind it.
pub open spec fn enrolled_ok(acc: Seq<SlotView>, w: Seq<SlotView>) -> bool {
    &&& w.len() <= acc.len()
    &&& forall|k: int| 0 <= k < w.len() ==> #[trigger] acc[k] == w[k]
    &&& forall|k: int| w.len() <= k < acc.len() ==> #[trigger] made_in(acc, k, w)
}

proof fn lemma_enroll_ports_ok(
    acc: Seq<SlotView>,
    w: Seq<SlotView>,
    c: int,
    l: Seq<Seq<char>>,
    k: nat,
)
    requires
        enrolled_ok(acc, w),
        0 <= c < w.len(),
        stated_ports(w[c]) == Some(l),
        k <= l.len(),
    ensures
        enrolled_ok(enroll_ports(acc, w[c].merged.name, w[c].merged.iface_type, l, k), w),
    decreases k,
{
    if k > 0 {
        let cn = w[c].merged.name;
        let ct = w[c].merged.iface_type;
        lemma_enroll_ports_ok(acc, w, c, l, (k - 1) as nat);
        let a = enroll_ports(acc, cn, ct, l, (k - 1) as nat);
        let b = enroll_ports(acc, cn, ct, l, k);
        let name = l[k - 1];
        if find_slot(slot_keys(a), kernel_key(name)) is None {
            lemma_find_slot_sound(slot_keys(a), kernel_key(name));
            assert forall|x: int| 0 <= x < w.len() implies !same_slot(
                #[trigger] slot_keys(w)[x],
                kernel_key(name),
            ) by {
                assert(a[x] == w[x]);
                assert(slot_keys(a)[x] == slot_keys(w)[x]);
            }
            assert forall|x: int| w.len() <= x < b.len() implies #[trigger] made_in(b, x, w) by {
                if x < a.len() {
                    assert(made_in(a, x, w));
                    let (j, n) = choose|j: int, n: Seq<char>|
                        made_for(a, x, w, j, n) && slot_free(slot_keys(w), kernel_key(n));
                    assert(b[x] == a[x]);
                    assert(made_for(b, x, w, j, n));
                } else {
                    assert(l.contains(name));
                    assert(listed_by(w, c, name));
                    assert(made_for(b, x, w, c, name));
                }
            }
            assert forall|x: int| 0 <= x < w.len() implies #[trigger] b[x] == w[x] by {
                assert(a[x] == w[x]);
            }
        }
    }
}

/// What the creation of members gives is the working set with created
/// members behind it.
pub proof fn lemma_enroll_upto_ok(w: Seq<SlotView>, j: nat)
    requires
        j <= w.len(),
    ensures
        enrolled_ok(enroll_upto(w, j), w),
    decreases j,
{
    if j > 0 {
        lemma_enroll_upto_ok(w, (j - 1) as nat);
        match stated_ports(w[j - 1]) {
            Some(l) => {
                lemma_enroll_ports_ok(enroll_upto(w, (j - 1) as nat), w, j - 1, l, l.len());
            },
            None => {},
        }
    }
}

/// A record that a desired controller of the enrolled set is made from
/// is a record of the working set itself: created members have no
/// desired record.
pub proof fn lemma_desired_in_head(w: Seq<SlotView>, k: int)
    requires
        0 <= k < auto_enroll(w).len(),
        auto_enroll(w)[k].desired is Some,
    ensures
        k < w.len(),
        auto_enroll(w)[k] == w[k],
{
    lemma_enroll_upto_ok(w, w.len());
    let e = auto_enroll(w);
    if k >= w.len() {
        assert(made_in(e, k, w));
        let (j, n) = choose|j: int, n: Seq<char>|
            made_for(e, k, w, j, n) && slot_free(slot_keys(w), kernel_key(n));
        assert(made_for(e, k, w, j, n));
    }
}

/// In a sound working set a record has one place.
pub proof fn lemma_one_place(w: Seq<SlotView>, a: int, b: int)
    requires
        unique_slots(slot_keys(w)),
        0 <= a < w.len(),
        0 <= b < w.len(),
        w[a] == w[b],
    ensures
        a == b,
{
    assert(slot_keys(w)[a] == w[a].merged.key());
    assert(slot_keys(w)[b] == w[b].merged.key());
}

/// A port that is overbooked in one enrolled set is overbooked in every
/// enrolled set of the same records.
pub proof fn lemma_overbooked_included(w1: Seq<SlotView>, w2: Seq<SlotView>)
    requires
        sound(w1),
        sound(w2),
        same_records(w1, w2),
        has_overbooked_port(auto_enroll(w2)),
    ensures
        has_overbooked_port(auto_enroll(w1)),
{
    let e1 = auto_enroll(w1);
    let e2 = auto_enroll(w2);
    let (a, p, b) = choose|a: int, p: int, b: int|
        0 <= a < e2.len() && 0 <= b < e2.len() && overbooked(e2, a, p, b);
    lemma_desired_in_head(w2, a);
    lemma_desired_in_head(w2, b);
    lemma_enroll_upto_ok(w1, w1.len());
    assert(w1.contains(w2[a]));
    assert(w1.contains(w2[b]));
    let a1 = choose|a1: int| 0 <= a1 < w1.len() && w1[a1] == w2[a];
    let b1 = choose|b1: int| 0 <= b1 < w1.len() && w1[b1] == w2[b];
    if a1 == b1 {
        lemma_one_place(w2, a, b);
    }
    assert(e1[a1] == w1[a1]);
    assert(e1[b1] == w1[b1]);
    assert(overbooked(e1, a1, p, b1));
}

/// Every record of one enrolled set is a record of every enrolled set
/// of the same records in which no port is overbooked.
pub proof fn lemma_enroll_included(w1: Seq<SlotView>, w2: Seq<SlotView>, i: int)
    requires
        sound(w1),
        sound(w2),
        same_records(w1, w2),
        !has_overbooked_port(auto_enroll(w2)),
        0 <= i < auto_enroll(w1).len(),
    ensures
        auto_enroll(w2).contains(auto_enroll(w1)[i]),
{
    let e1 = auto_enroll(w1);
    let e2 = auto_enroll(w2);
    lemma_enroll_upto_ok(w1, w1.len());
    lemma_enroll_upto_ok(w2, w2.len());
    if i < w1.len() {
        assert(e1[i] == w1[i]);
        assert(w2.contains(w1[i]));
        let j = choose|j: int| 0 <= j < w2.len() && w2[j] == w1[i];
        assert(e2[j] == w2[j]);
    } else {
        assert(made_in(e1, i, w1));
        let (j, name) = choose|j: int, name: Seq<char>|
            made_for(e1, i, w1, j, name) && slot_free(slot_keys(w1), kernel_key(name));
        assert(made_for(e1, i, w1, j, name));
        assert(w2.contains(w1[j]));
        let j2 = choose|j2: int| 0 <= j2 < w2.len() && w2[j2] == w1[j];
        assert(listed_by(w2, j2, name));
        lemma_same_slot_lookup(w1, w2, kernel_key(name));
        lemma_find_slot_sound(slot_keys(w1), kernel_key(name));
        lemma_find_slot_sound(slot_keys(w2), kernel_key(name));
        assert(listed_before(w2, w2.len(), name));
        lemma_enroll_upto_creates(w2, w2.len(), name);
        let (k, jj) = choose|k: int, jj: int| made_for(e2, k, w2, jj, name);
        assert(made_for(e2, k, w2, jj, name));
        if jj != j2 {
            assert(e2[jj] == w2[jj]);
            assert(e2[j2] == w2[j2]);
            let l = stated_ports(w2[jj])->0;
            let p = choose|p: int| 0 <= p < l.len() && l[p] == name;
            assert(overbooked(e2, jj, p, j2));
            assert(false);
        }
        assert(e2[k] == e1[i]);
    }
}

/// Working sets of the same records in which no port is overbooked are
/// enrolled into sets of the same records.
pub proof fn lemma_enroll_same(w1: Seq<SlotView>, w2: Seq<SlotView>)
    requires
        sound(w1),
        sound(w2),
        same_records(w1, w2),
        !has_overbooked_port(auto_enroll(w1)),
    ensures
        !has_overbooked_port(auto_enroll(w2)),
        same_records(auto_enroll(w1), auto_enroll(w2)),
{
    let e1 = auto_enroll(w1);
    let e2 = auto_enroll(w2);
    if has_overbooked_port(e2) {
        lemma_overbooked_included(w1, w2);
    }
    assert forall|i: int| 0 <= i < e1.len() implies e2.contains(#[trigger] e1[i]) by {
        lemma_enroll_included(w1, w2, i);
    }
    assert forall|j: int| 0 <= j < e2.len() implies e1.contains(#[trigger] e2[j]) by {
        lemma_enroll_included(w2, w1, j);
    }
}

/// A place of `a` that holds the record at `j` of `b`.
pub open spec fn place_of(a: Seq<SlotView>, b: Seq<SlotView>, j: int) -> int {
    choose|i: int| 0 <= i < a.len() && a[i] == b[j]
}

/// In sets of the same records every record of one has a place in the
/// other.
pub proof fn lemma_place_of(a: Seq<SlotView>, b: Seq<SlotView>, j: int)
    requires
        same_records(a, b),
        0 <= j < b.len(),
    ensures
        0 <= place_of(a, b, j) < a.len(),
        a[place_of(a, b, j)] == b[j],
{
    assert(a.contains(b[j]));
}

/// Claims that contradict each other in one working set contradict each
/// other in every working set of the same records.
pub proof fn lemma_faults_included(a: Seq<SlotView>, b: Seq<SlotView>)
    requires
        sound(a),
        sound(b),
        same_records(a, b),
        membership_verdict(a) is Ok,
    ensures
        membership_verdict(b) is Ok,
{
    if has_controller_conflict(b) {
        let (i, j) = choose|i: int, j: int|
            0 <= i < b.len() && 0 <= j < b.len() && controller_conflict(b, i, j);
        lemma_place_of(a, b, i);
        lemma_place_of(a, b, j);
        assert(controller_conflict(a, place_of(a, b, i), place_of(a, b, j)));
    }
    if has_detach_conflict(b) {
        let (i, j) = choose|i: int, j: int|
            0 <= i < b.len() && 0 <= j < b.len() && detach_conflict(b, i, j);
        lemma_place_of(a, b, i);
        lemma_place_of(a, b, j);
        assert(detach_conflict(a, place_of(a, b, i), place_of(a, b, j)));
    }
    if has_unlisted_member(b) {
        let i = choose|i: int| 0 <= i < b.len() && not_in_port_list(b, i);
        lemma_place_of(a, b, i);
        let d = b[i].desired->0;
        let x = d.controller_name()->0;
        lemma_same_controller_lookup(b, a, x, d.controller_type);
        assert(not_in_port_list(a, place_of(a, b, i)));
    }
    if has_missing_controller(b) {
        let i = choose|i: int| 0 <= i < b.len() && missing_controller(b, i);
        lemma_place_of(a, b, i);
        let d = b[i].desired->0;
        let x = d.controller_name()->0;
        lemma_same_controller_lookup(a, b, x, d.controller_type);
        assert(missing_controller(a, place_of(a, b, i)));
    }
    if has_overbooked_port(b) {
        let (j1, p, j2) = choose|j1: int, p: int, j2: int|
            0 <= j1 < b.len() && 0 <= j2 < b.len() && overbooked(b, j1, p, j2);
        lemma_place_of(a, b, j1);
        lemma_place_of(a, b, j2);
        if place_of(a, b, j1) == place_of(a, b, j2) {
            lemma_one_place(b, j1, j2);
        }
        assert(overbooked(a, place_of(a, b, j1), p, place_of(a, b, j2)));
    }
}

/// Whether the controller that holds the record at `i` of `a` and the
/// one that holds the record at `i2` of `b` are one record, or neither
/// record is held.
pub open spec fn held_alike(a: Seq<SlotView>, i: int, b: Seq<SlotView>, i2: int) -> bool {
    match controller_index(a, i) {
        Some(k) => {
            &&& 0 <= k < a.len()
            &&& controller_index(b, i2) is Some
            &&& 0 <= controller_index(b, i2)->0 < b.len()
            &&& b[controller_index(b, i2)->0] == a[k]
        },
        None => controller_index(b, i2) is None,
    }
}

/// The desired controller that lists a name is one record in working
/// sets of the same records in which no port is overbooked.
proof fn lemma_first_lister_same(a: Seq<SlotView>, b: Seq<SlotView>, name: Seq<char>)
    requires
        sound(a),
        sound(b),
        same_records(a, b),
        !has_overbooked_port(b),
    ensures
        match first_lister(a, name) {
            Some(j) => {
                &&& 0 <= j < a.len()
                &&& first_lister(b, name) is Some
                &&& 0 <= first_lister(b, name)->0 < b.len()
                &&& b[first_lister(b, name)->0] == a[j]
            },
            None => first_lister(b, name) is None,
        },
{
    let fa = lister_flags(a, name);
    let fb = lister_flags(b, name);
    lemma_first_true_sound(fa);
    lemma_first_true_sound(fb);
    match first_lister(a, name) {
        Some(j) => {
            assert(fa[j]);
            lemma_place_of(b, a, j);
            let j2 = place_of(b, a, j);
            assert(fb[j2]);
            let f2 = first_lister(b, name)->0;
            assert(fb[f2]);
            if f2 != j2 {
                let l = stated_ports(b[f2])->0;
                let p = choose|p: int| 0 <= p < l.len() && l[p] == name;
                assert(overbooked(b, f2, p, j2));
                assert(false);
            }
        },
        None => {
            if let Some(f2) = first_lister(b, name) {
                assert(fb[f2]);
                lemma_place_of(a, b, f2);
                assert(fa[place_of(a, b, f2)]);
            }
        },
    }
}

/// The current controller that alone lists a name is one record in
/// working sets of the same records.
proof fn lemma_sole_lister_same(a: Seq<SlotView>, b: Seq<SlotView>, name: Seq<char>)
    requires
        sound(a),
        sound(b),
        same_records(a, b),
    ensures
        match sole_true(current_lister_flags(a, name)) {
            Some(j) => {
                &&& 0 <= j < a.len()
                &&& sole_true(current_lister_flags(b, name)) is Some
                &&& 0 <= sole_true(current_lister_flags(b, name))->0 < b.len()
                &&& b[sole_true(current_lister_flags(b, name))->0] == a[j]
            },
            None => sole_true(current_lister_flags(b, name)) is None,
        },
{
    let fa = current_lister_flags(a, name);
    let fb = current_lister_flags(b, name);
    lemma_sole_true(fa);
    lemma_sole_true(fb);
    match sole_true(fa) {
        Some(j) => {
            lemma_place_of(b, a, j);
            let j2 = place_of(b, a, j);
            assert(fb[j2]);
            assert forall|m: int| 0 <= m < fb.len() && m != j2 implies !fb[m] by {
                if fb[m] {
                    lemma_place_of(a, b, m);
                    let m1 = place_of(a, b, m);
                    assert(fa[m1]);
                    assert(m1 == j);
                    lemma_one_place(b, m, j2);
                }
            }
            assert(is_sole_true(fb, j2));
        },
        None => {
            if let Some(j2) = sole_true(fb) {
                lemma_place_of(a, b, j2);
                let j = place_of(a, b, j2);
                assert(fa[j]);
                assert forall|m: int| 0 <= m < fa.len() && m != j implies !fa[m] by {
                    if fa[m] {
                        lemma_place_of(b, a, m);
                        let m2 = place_of(b, a, m);
                        assert(fb[m2]);
                        assert(m2 == j2);
                        lemma_one_place(a, m, j);
                    }
                }
                assert(is_sole_true(fa, j));
            }
        },
    }
}

/// One record is held by one controller in working sets of the same
/// records in which no port is overbooked.
pub proof fn lemma_held_alike(a: Seq<SlotView>, b: Seq<SlotView>, i: int, i2: int)
    requires
        sound(a),
        sound(b),
        same_records(a, b),
        !has_overbooked_port(b),
        0 <= i < a.len(),
        0 <= i2 < b.len(),
        a[i] == b[i2],
    ensures
        held_alike(a, i, b, i2),
{
    if is_member(a, i) {
        let name = a[i].merged.name;
        lemma_first_lister_same(a, b, name);
        if first_lister(a, name) is None {
            if states_controller(a, i) {
                let d = a[i].desired->0;
                if let Some(x) = d.controller_name() {
                    lemma_same_controller_lookup(a, b, x, d.controller_type);
                }
            } else {
                if let Some(c) = a[i].current {
                    if c.controller is Some {
                        if let Some(y) = c.controller_name() {
                            lemma_same_controller_lookup(a, b, y, c.controller_type);
                        }
                    } else {
                        lemma_sole_lister_same(a, b, c.name);
                    }
                }
            }
        }
    }
}

/// Whether two member lists hold the same names, or neither is stated.
pub open spec fn same_members(x: Option<Seq<Seq<char>>>, y: Option<Seq<Seq<char>>>) -> bool {
    match (x, y) {
        (Some(l), Some(m)) => same_records(l, m),
        (None, None) => true,
        _ => false,
    }
}

/// Whether two working records are alike: made from the same desired
/// and current record, with the same resulting record but for the order
/// of the member list.
pub open spec fn alike(x: SlotView, y: SlotView) -> bool {
    &&& x.desired == y.desired
    &&& x.current == y.current
    &&& x.merged == (IfaceView { ports: x.merged.ports, ..y.merged })
    &&& same_members(x.merged.ports, y.merged.ports)
}

/// Whether `q` holds a record that is like the record at `i` of `p`.
pub open spec fn has_alike(p: Seq<SlotView>, i: int, q: Seq<SlotView>) -> bool {
    exists|j: int| 0 <= j < q.len() && alike(p[i], q[j])
}

/// Whether two plans hold the same records, in whatever order and with
/// the members of each controller in whatever order.
pub open spec fn same_plan(p: Seq<SlotView>, q: Seq<SlotView>) -> bool {
    &&& forall|i: int| 0 <= i < p.len() ==> #[trigger] has_alike(p, i, q)
    &&& forall|j: int| 0 <= j < q.len() ==> #[trigger] has_alike(q, j, p)
}

/// The members that a controller holds are the same in working sets of
/// the same records in which no port is overbooked.
proof fn lemma_members_same(a: Seq<SlotView>, b: Seq<SlotView>, k: int, k2: int)
    requires
        sound(a),
        sound(b),
        same_records(a, b),
        !has_overbooked_port(a),
        !has_overbooked_port(b),
        0 <= k < a.len(),
        0 <= k2 < b.len(),
        a[k] == b[k2],
    ensures
        same_records(members_upto(a, k, a.len()), members_upto(b, k2, b.len())),
{
    let la = members_upto(a, k, a.len());
    let lb = members_upto(b, k2, b.len());
    lemma_members_upto(a, k, a.len());
    lemma_members_upto(b, k2, b.len());
    assert forall|x: int| 0 <= x < la.len() implies lb.contains(#[trigger] la[x]) by {
        assert(la.contains(la[x]));
        let m = choose|m: int|
            0 <= m < a.len() && controller_index(a, m) == Some(k) && a[m].merged.name == la[x];
        lemma_place_of(b, a, m);
        let m2 = place_of(b, a, m);
        lemma_held_alike(a, b, m, m2);
        lemma_one_place(b, controller_index(b, m2)->0, k2);
        assert(0 <= m2 < b.len() && controller_index(b, m2) == Some(k2) && b[m2].merged.name
            == la[x]);
    }
    assert forall|y: int| 0 <= y < lb.len() implies la.contains(#[trigger] lb[y]) by {
        assert(lb.contains(lb[y]));
        let m = choose|m: int|
            0 <= m < b.len() && controller_index(b, m) == Some(k2) && b[m].merged.name == lb[y];
        lemma_place_of(a, b, m);
        let m1 = place_of(a, b, m);
        lemma_held_alike(b, a, m, m1);
        lemma_one_place(a, controller_index(a, m1)->0, k);
        assert(0 <= m1 < a.len() && controller_index(a, m1) == Some(k) && a[m1].merged.name
            == lb[y]);
    }
}

/// One record resolves alike in working sets of the same records in
/// which no port is overbooked.
proof fn lemma_resolved_alike(a: Seq<SlotView>, b: Seq<SlotView>, i: int, i2: int)
    requires
        sound(a),
        sound(b),
        same_records(a, b),
        !has_overbooked_port(a),
        !has_overbooked_port(b),
        0 <= i < a.len(),
        0 <= i2 < b.len(),
        a[i] == b[i2],
    ensures
        alike(resolved(a)[i], resolved(b)[i2]),
        same_node(resolved(a)[i].merged, resolved(b)[i2].merged),
{
    lemma_held_alike(a, b, i, i2);
    lemma_members_same(a, b, i, i2);
    assert(resolved(a)[i].merged == resolved_view(a, i));
    assert(resolved(b)[i2].merged == resolved_view(b, i2));
    let l = a[i].merged.ports;
    if let Some(p) = l {
        assert forall|x: int| 0 <= x < p.len() implies p.contains(#[trigger] p[x]) by {}
    }
}

/// Where there is a plan for two collections, there is one for every two
/// collections of the same interfaces, and it holds a record like each
/// record of the first.
proof fn lemma_plan_included(
    d1: Seq<IfaceView>,
    c1: Seq<IfaceView>,
    d2: Seq<IfaceView>,
    c2: Seq<IfaceView>,
)
    requires
        unique_slots(keys_of(d1)),
        unique_slots(keys_of(c1)),
        unique_slots(keys_of(d2)),
        unique_slots(keys_of(c2)),
        same_records(d1, d2),
        same_records(c1, c2),
        plan_for(d1, c1) is Ok,
    ensures
        plan_for(d2, c2) is Ok,
        forall|i: int|
            0 <= i < plan_for(d1, c1)->Ok_0.len() ==> #[trigger] has_alike(
                plan_for(d1, c1)->Ok_0,
                i,
                plan_for(d2, c2)->Ok_0,
            ),
{
    let w1 = merge_seq(d1, c1);
    let w2 = merge_seq(d2, c2);
    lemma_merge_sound(d1, c1);
    lemma_merge_sound(d2, c2);
    lemma_merge_same(d1, c1, d2, c2);
    let e1 = auto_enroll(w1);
    let e2 = auto_enroll(w2);
    assert(e1 == working_set(d1, c1));
    assert(e2 == working_set(d2, c2));
    lemma_enroll_sound(w1);
    lemma_enroll_sound(w2);
    lemma_enroll_same(w1, w2);
    lemma_faults_included(e1, e2);
    let r1 = resolved(e1);
    let r2 = resolved(e2);
    lemma_resolved_keeps(e1);
    lemma_resolved_keeps(e2);
    let g1 = applied(r1);
    let g2 = applied(r2);
    assert(keys_of(g1) == slot_keys(e1));
    assert(keys_of(g2) == slot_keys(e2));
    assert forall|i: int| 0 <= i < g1.len() implies #[trigger] has_node(g1, i, g2) by {
        lemma_place_of(e2, e1, i);
        let i2 = place_of(e2, e1, i);
        lemma_resolved_alike(e1, e2, i, i2);
        assert(0 <= i2 < g2.len() && same_node(g1[i], g2[i2]));
    }
    assert forall|j: int| 0 <= j < g2.len() implies #[trigger] has_node(g2, j, g1) by {
        lemma_place_of(e1, e2, j);
        let j1 = place_of(e1, e2, j);
        lemma_resolved_alike(e2, e1, j, j1);
        assert(0 <= j1 < g1.len() && same_node(g2[j], g1[j1]));
    }
    lemma_verdict_is_well_nested(g1);
    lemma_verdict_is_well_nested(g2);
    assert forall|j: int| 0 <= j < g2.len() implies !#[trigger] too_deep(g2, j) by {
        lemma_place_of(e1, e2, j);
        let j1 = place_of(e1, e2, j);
        lemma_resolved_alike(e2, e1, j, j1);
        lemma_same_graph_level(g2, g1, j, j1, (MAX_DEPTH + 1) as nat);
        assert(!too_deep(g1, j1));
    }
    let p1 = ranked(r1);
    let p2 = ranked(r2);
    assert(plan_for(d1, c1) == Ok::<Seq<SlotView>, Failure>(p1));
    assert(plan_for(d2, c2) == Ok::<Seq<SlotView>, Failure>(p2));
    assert forall|i: int| 0 <= i < p1.len() implies #[trigger] has_alike(p1, i, p2) by {
        lemma_place_of(e2, e1, i);
        let i2 = place_of(e2, e1, i);
        lemma_resolved_alike(e1, e2, i, i2);
        law_rank_ignores_order(g1, g2, i, i2);
        assert(0 <= i2 < p2.len() && alike(p1[i], p2[i2]));
    }
}

/// The plan does not depend on the order of the interfaces. For two
/// pairs of collections that hold the same interfaces there is a plan
/// for both or for neither, and the two plans hold the same records:
/// each interface has the same state, the same controller and the same
/// rank in both.
pub proof fn law_plan_ignores_order(
    d1: Seq<IfaceView>,
    c1: Seq<IfaceView>,
    d2: Seq<IfaceView>,
    c2: Seq<IfaceView>,
)
    requires
        unique_slots(keys_of(d1)),
        unique_slots(keys_of(c1)),
        unique_slots(keys_of(d2)),
        unique_slots(keys_of(c2)),
        same_records(d1, d2),
        same_records(c1, c2),
    ensures
        plan_for(d1, c1) is Ok <==> plan_for(d2, c2) is Ok,
        plan_for(d1, c1) is Ok ==> same_plan(plan_for(d1, c1)->Ok_0, plan_for(d2, c2)->Ok_0),
{
    if plan_for(d1, c1) is Ok {
        lemma_plan_included(d1, c1, d2, c2);
    }
    if plan_for(d2, c2) is Ok {
        lemma_plan_included(d2, c2, d1, c1);
    }
}

} // verus!
