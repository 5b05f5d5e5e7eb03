//! Preparing the two collections does not depend on the order in which
//! they hold their interfaces, and so neither does the plan.

use crate::model::iface::{IfaceView, InterfaceType};
use crate::model::ifaces::keys_of;
use crate::model::key::{
    find_slot, kernel_key, lemma_find_slot_sound, same_slot, slot_free, unique_slots, Key,
};
use crate::plan::merged::plan;
use crate::plan::prepare::{
    any_kernel_ignored, effective_current, effective_desired, is_ignored, kernel_ignored, kind_in,
    known, known_upto, manage_ports, manage_upto, managed, manages, retyped, stripped,
    unignored_names, without_ignored, without_ignored_upto,
};
use crate::proofs::creation::named_before;
use crate::proofs::preparation::{
    kept_places, lemma_effective_unique, lemma_manage_upto_unique, lemma_without_ignored,
};
use crate::proofs::reorder::{law_plan_ignores_order, lemma_same_lookup, same_plan, same_records};
use vstd::prelude::*;

verus! {

/// The desired interfaces with their kinds made known, one by one.
pub open spec fn retyped_all(des: Seq<IfaceView>, cur: Seq<IfaceView>) -> Seq<IfaceView> {
    Seq::new(des.len(), |i: int| retyped(des[i], cur))
}

/// In a keyed collection an interface has one place.
pub proof fn lemma_one_index(a: Seq<IfaceView>, i: int, j: int)
    requires
        unique_slots(keys_of(a)),
        0 <= i < a.len(),
        0 <= j < a.len(),
        a[i] == a[j],
    ensures
        i == j,
{
    assert(keys_of(a)[i] == a[i].key());
    assert(keys_of(a)[j] == a[j].key());
}

/// The kind that a name has in a collection does not depend on the
/// order of the collection.
pub proof fn lemma_kind_in_same(c1: Seq<IfaceView>, c2: Seq<IfaceView>, name: Seq<char>)
    requires
        unique_slots(keys_of(c1)),
        unique_slots(keys_of(c2)),
        same_records(c1, c2),
    ensures
        kind_in(c1, name) == kind_in(c2, name),
{
    let q = Key { name, iface_type: InterfaceType::OvsBridge };
    lemma_same_lookup(c1, c2, kernel_key(name));
    lemma_same_lookup(c1, c2, q);
    lemma_find_slot_sound(keys_of(c1), q);
    lemma_find_slot_sound(keys_of(c2), q);
    if let Some(k) = find_slot(keys_of(c1), q) {
        let k2 = find_slot(keys_of(c2), q)->0;
        assert(keys_of(c1)[k] == c1[k].key());
        assert(keys_of(c2)[k2] == c2[k2].key());
    }
}

/// Where no two desired interfaces compete once their kinds are known,
/// making the kinds known changes each interface in its place.
pub proof fn lemma_known_is_retyped(des: Seq<IfaceView>, cur: Seq<IfaceView>, n: nat)
    requires
        unique_slots(keys_of(retyped_all(des, cur))),
        n <= des.len(),
    ensures
        known_upto(des, cur, n) == retyped_all(des, cur).take(n as int),
    decreases n,
{
    let all = retyped_all(des, cur);
    if n == 0 {
        assert(all.take(0) =~= Seq::<IfaceView>::empty());
    } else {
        lemma_known_is_retyped(des, cur, (n - 1) as nat);
        let a = all.take(n - 1);
        let x = all[n - 1];
        assert(x == retyped(des[n - 1], cur));
        assert forall|i: int| 0 <= i < a.len() implies !same_slot(
            #[trigger] keys_of(a)[i],
            x.key(),
        ) by {
            assert(keys_of(a)[i] == keys_of(all)[i]);
            assert(x.key() == keys_of(all)[n - 1]);
        }
        lemma_find_slot_sound(keys_of(a), x.key());
        assert(a.push(x) =~= all.take(n as int));
    }
}

/// Collections of the same desired interfaces have the same interfaces
/// once their kinds are known, and if no two compete in one, no two
/// compete in the other.
pub proof fn lemma_retyped_same(
    d1: Seq<IfaceView>,
    c1: Seq<IfaceView>,
    d2: Seq<IfaceView>,
    c2: Seq<IfaceView>,
)
    requires
        unique_slots(keys_of(d2)),
        unique_slots(keys_of(c1)),
        unique_slots(keys_of(c2)),
        same_records(d1, d2),
        same_records(c1, c2),
        unique_slots(keys_of(retyped_all(d1, c1))),
    ensures
        same_records(retyped_all(d1, c1), retyped_all(d2, c2)),
        unique_slots(keys_of(retyped_all(d2, c2))),
{
    let r1 = retyped_all(d1, c1);
    let r2 = retyped_all(d2, c2);
    assert forall|i: int| 0 <= i < r1.len() implies r2.contains(#[trigger] r1[i]) by {
        assert(d2.contains(d1[i]));
        let j = choose|j: int| 0 <= j < d2.len() && d2[j] == d1[i];
        lemma_kind_in_same(c1, c2, d1[i].name);
        assert(r2[j] == r1[i]);
    }
    assert forall|j: int| 0 <= j < r2.len() implies r1.contains(#[trigger] r2[j]) by {
        assert(d1.contains(d2[j]));
        let i = choose|i: int| 0 <= i < d1.len() && d1[i] == d2[j];
        lemma_kind_in_same(c1, c2, d2[j].name);
        assert(r1[i] == r2[j]);
    }
    let k1 = keys_of(r1);
    let k2 = keys_of(r2);
    assert forall|a: int, b: int| 0 <= a < b < k2.len() implies !same_slot(
        #[trigger] k2[a],
        #[trigger] k2[b],
    ) by {
        assert(d1.contains(d2[a]));
        assert(d1.contains(d2[b]));
        let a1 = choose|a1: int| 0 <= a1 < d1.len() && d1[a1] == d2[a];
        let b1 = choose|b1: int| 0 <= b1 < d1.len() && d1[b1] == d2[b];
        lemma_kind_in_same(c1, c2, d2[a].name);
        lemma_kind_in_same(c1, c2, d2[b].name);
        if a1 == b1 {
            lemma_one_index(d2, a, b);
        }
        assert(k2[a] == r2[a].key());
        assert(k2[b] == r2[b].key());
        assert(k1[a1] == r1[a1].key());
        assert(k1[b1] == r1[b1].key());
        assert(r1[a1] == r2[a]);
        assert(r1[b1] == r2[b]);
        if a1 < b1 {
            assert(!same_slot(k1[a1], k1[b1]));
        } else {
            assert(!same_slot(k1[b1], k1[a1]));
        }
    }
}

/// The desired record that an interface gets which the host leaves alone
/// and a desired controller takes: up, of the kind that the interface
/// has, with nothing else stated.
pub open spec fn taken(cur: Seq<IfaceView>, name: Seq<char>) -> IfaceView {
    IfaceView::fresh(name, cur[find_slot(keys_of(cur), kernel_key(name))->0].iface_type)
}

/// Whether the desired controller at `j` takes the interface of the
/// given name through its member list.
pub open spec fn takes(des: Seq<IfaceView>, cur: Seq<IfaceView>, j: int, name: Seq<char>) -> bool {
    match manages(des, cur, j) {
        Some(l) => l.contains(name),
        None => false,
    }
}

/// Whether a controller of `des` takes the interface of the given name,
/// which the host leaves alone and no desired kernel interface bears.
pub open spec fn is_taken(des: Seq<IfaceView>, cur: Seq<IfaceView>, name: Seq<char>) -> bool {
    &&& exists|j: int| 0 <= j < des.len() && takes(des, cur, j, name)
    &&& slot_free(keys_of(des), kernel_key(name))
    &&& kernel_ignored(cur, name)
}

/// Whether the record at `k` of `acc` is that of an interface that a
/// controller of `des` takes.
pub open spec fn taken_in(
    acc: Seq<IfaceView>,
    k: int,
    des: Seq<IfaceView>,
    cur: Seq<IfaceView>,
) -> bool {
    exists|name: Seq<char>| is_taken(des, cur, name) && acc[k] == taken(cur, name)
}

/// Whether `acc` is `des` with the records of taken interfaces behind
/// it.
pub open spec fn managed_ok(acc: Seq<IfaceView>, des: Seq<IfaceView>, cur: Seq<IfaceView>) -> bool {
    &&& des.len() <= acc.len()
    &&& forall|k: int| 0 <= k < des.len() ==> #[trigger] acc[k] == des[k]
    &&& forall|k: int| des.len() <= k < acc.len() ==> #[trigger] taken_in(acc, k, des, cur)
}

proof fn lemma_manage_ports_ok(
    acc: Seq<IfaceView>,
    des: Seq<IfaceView>,
    cur: Seq<IfaceView>,
    j: int,
    l: Seq<Seq<char>>,
    k: nat,
)
    requires
        managed_ok(acc, des, cur),
        0 <= j < des.len(),
        manages(des, cur, j) == Some(l),
        k <= l.len(),
    ensures
        managed_ok(manage_ports(acc, cur, l, k), des, cur),
    decreases k,
{
    if k > 0 {
        lemma_manage_ports_ok(acc, des, cur, j, l, (k - 1) as nat);
        let a = manage_ports(acc, cur, l, (k - 1) as nat);
        let b = manage_ports(acc, cur, l, k);
        let name = l[k - 1];
        if find_slot(keys_of(a), kernel_key(name)) is None && kernel_ignored(cur, name) {
            lemma_find_slot_sound(keys_of(a), kernel_key(name));
            assert forall|x: int| 0 <= x < des.len() implies !same_slot(
                #[trigger] keys_of(des)[x],
                kernel_key(name),
            ) by {
                assert(a[x] == des[x]);
                assert(keys_of(a)[x] == keys_of(des)[x]);
            }
            assert(l.contains(name));
            assert(takes(des, cur, j, name));
            assert(is_taken(des, cur, name));
            assert forall|x: int| des.len() <= x < b.len() implies #[trigger] taken_in(
                b,
                x,
                des,
                cur,
            ) by {
                if x < a.len() {
                    assert(taken_in(a, x, des, cur));
                    let n = choose|n: Seq<char>| is_taken(des, cur, n) && a[x] == taken(cur, n);
                    assert(b[x] == a[x]);
                    assert(is_taken(des, cur, n) && b[x] == taken(cur, n));
                } else {
                    assert(b[x] == taken(cur, name));
                }
            }
            assert forall|x: int| 0 <= x < des.len() implies #[trigger] b[x] == des[x] by {
                assert(a[x] == des[x]);
            }
        }
    }
}

/// What taking members gives is the desired collection with the
/// records of taken interfaces behind it.
pub proof fn lemma_manage_upto_ok(des: Seq<IfaceView>, cur: Seq<IfaceView>, j: nat)
    requires
        j <= des.len(),
    ensures
        managed_ok(manage_upto(des, cur, j), des, cur),
    decreases j,
{
    if j > 0 {
        lemma_manage_upto_ok(des, cur, (j - 1) as nat);
        match manages(des, cur, j - 1) {
            Some(l) => {
                lemma_manage_ports_ok(
                    manage_upto(des, cur, (j - 1) as nat),
                    des,
                    cur,
                    j - 1,
                    l,
                    l.len(),
                );
            },
            None => {},
        }
    }
}

/// Looking at one member list only adds records.
proof fn lemma_manage_ports_extends(
    acc: Seq<IfaceView>,
    cur: Seq<IfaceView>,
    l: Seq<Seq<char>>,
    k: nat,
)
    ensures
        acc.len() <= manage_ports(acc, cur, l, k).len(),
        forall|i: int| 0 <= i < acc.len() ==> #[trigger] manage_ports(acc, cur, l, k)[i] == acc[i],
    decreases k,
{
    if k > 0 {
        lemma_manage_ports_extends(acc, cur, l, (k - 1) as nat);
    }
}

/// Looking at one member list gives an interface that the host leaves
/// alone its record, if the list holds its name, and leaves the name
/// free if it does not.
proof fn lemma_manage_ports_takes(
    acc: Seq<IfaceView>,
    cur: Seq<IfaceView>,
    l: Seq<Seq<char>>,
    k: nat,
    name: Seq<char>,
)
    requires
        k <= l.len(),
        slot_free(keys_of(acc), kernel_key(name)),
        kernel_ignored(cur, name),
    ensures
        !named_before(l, k, name) ==> slot_free(
            keys_of(manage_ports(acc, cur, l, k)),
            kernel_key(name),
        ),
        named_before(l, k, name) ==> manage_ports(acc, cur, l, k).contains(taken(cur, name)),
    decreases k,
{
    if k > 0 {
        let a = manage_ports(acc, cur, l, (k - 1) as nat);
        let b = manage_ports(acc, cur, l, k);
        lemma_manage_ports_takes(acc, cur, l, (k - 1) as nat, name);
        lemma_find_slot_sound(keys_of(a), kernel_key(l[k - 1]));
        if named_before(l, (k - 1) as nat, name) {
            let idx = choose|idx: int| 0 <= idx < a.len() && a[idx] == taken(cur, name);
            assert(b[idx] == a[idx]);
            let q = choose|q: int| 0 <= q < k - 1 && l[q] == name;
            assert(0 <= q < k && l[q] == name);
        } else if l[k - 1] == name {
            assert(0 <= k - 1 < k && l[k - 1] == name);
            assert(b[a.len() as int] == taken(cur, name));
        } else {
            assert(!named_before(l, k, name)) by {
                if named_before(l, k, name) {
                    let q = choose|q: int| 0 <= q < k && l[q] == name;
                    assert(0 <= q < k - 1 && l[q] == name);
                }
            }
            let kb = keys_of(b);
            let ka = keys_of(a);
            assert forall|x: int| 0 <= x < kb.len() implies !same_slot(
                #[trigger] kb[x],
                kernel_key(name),
            ) by {
                if x < ka.len() {
                    assert(kb[x] == ka[x]);
                } else {
                    assert(kb[x].name == l[k - 1]);
                }
            }
        }
    }
}

/// Whether one of the first `j` controllers of `des` takes the name.
pub open spec fn taken_before(
    des: Seq<IfaceView>,
    cur: Seq<IfaceView>,
    j: nat,
    name: Seq<char>,
) -> bool {
    exists|c: int| 0 <= c < j && takes(des, cur, c, name)
}

/// Taking members gives an interface that the host leaves alone its
/// record, if a controller takes it, and leaves the name free if none
/// does.
proof fn lemma_manage_upto_takes(des: Seq<IfaceView>, cur: Seq<IfaceView>, j: nat, name: Seq<char>)
    requires
        j <= des.len(),
        slot_free(keys_of(des), kernel_key(name)),
        kernel_ignored(cur, name),
    ensures
        !taken_before(des, cur, j, name) ==> slot_free(
            keys_of(manage_upto(des, cur, j)),
            kernel_key(name),
        ),
        taken_before(des, cur, j, name) ==> manage_upto(des, cur, j).contains(taken(cur, name)),
    decreases j,
{
    if j > 0 {
        let a = manage_upto(des, cur, (j - 1) as nat);
        let b = manage_upto(des, cur, j);
        lemma_manage_upto_takes(des, cur, (j - 1) as nat, name);
        let c = j - 1;
        if taken_before(des, cur, (j - 1) as nat, name) {
            let c0 = choose|c0: int| 0 <= c0 < j - 1 && takes(des, cur, c0, name);
            assert(0 <= c0 < j && takes(des, cur, c0, name));
            let idx = choose|idx: int| 0 <= idx < a.len() && a[idx] == taken(cur, name);
            match manages(des, cur, c) {
                Some(l) => {
                    lemma_manage_ports_extends(a, cur, l, l.len());
                },
                None => {},
            }
            assert(b[idx] == taken(cur, name));
        } else {
            match manages(des, cur, c) {
                Some(l) => {
                    lemma_manage_ports_takes(a, cur, l, l.len(), name);
                    if l.contains(name) {
                        let q = choose|q: int| 0 <= q < l.len() && l[q] == name;
                        assert(named_before(l, l.len(), name));
                        assert(0 <= c < j && takes(des, cur, c, name));
                    } else {
                        assert(!named_before(l, l.len(), name)) by {
                            if named_before(l, l.len(), name) {
                                let q = choose|q: int| 0 <= q < l.len() && l[q] == name;
                                assert(l.contains(name));
                            }
                        }
                        assert(!taken_before(des, cur, j, name)) by {
                            if taken_before(des, cur, j, name) {
                                let c0 = choose|c0: int|
                                    0 <= c0 < j && takes(des, cur, c0, name);
                                assert(0 <= c0 < j - 1 && takes(des, cur, c0, name));
                            }
                        }
                    }
                },
                None => {
                    assert(!taken_before(des, cur, j, name)) by {
                        if taken_before(des, cur, j, name) {
                            let c0 = choose|c0: int| 0 <= c0 < j && takes(des, cur, c0, name);
                            assert(0 <= c0 < j - 1 && takes(des, cur, c0, name));
                        }
                    }
                },
            }
        }
    }
}

/// Whether a kernel interface is left alone in a collection does not
/// depend on the order of the collection.
proof fn lemma_kernel_ignored_same(a: Seq<IfaceView>, b: Seq<IfaceView>, name: Seq<char>)
    requires
        unique_slots(keys_of(a)),
        unique_slots(keys_of(b)),
        same_records(a, b),
    ensures
        kernel_ignored(a, name) == kernel_ignored(b, name),
        kernel_ignored(a, name) ==> taken(a, name) == taken(b, name),
{
    lemma_same_lookup(a, b, kernel_key(name));
}

proof fn lemma_any_ignored_same(a: Seq<IfaceView>, b: Seq<IfaceView>, l: Seq<Seq<char>>)
    requires
        unique_slots(keys_of(a)),
        unique_slots(keys_of(b)),
        same_records(a, b),
    ensures
        any_kernel_ignored(a, l) == any_kernel_ignored(b, l),
{
    if any_kernel_ignored(a, l) {
        let p = choose|p: int| 0 <= p < l.len() && kernel_ignored(a, #[trigger] l[p]);
        lemma_kernel_ignored_same(a, b, l[p]);
        assert(0 <= p < l.len() && kernel_ignored(b, l[p]));
    }
    if any_kernel_ignored(b, l) {
        let p = choose|p: int| 0 <= p < l.len() && kernel_ignored(b, #[trigger] l[p]);
        lemma_kernel_ignored_same(a, b, l[p]);
        assert(0 <= p < l.len() && kernel_ignored(a, l[p]));
    }
}

/// What a desired controller takes does not depend on the order of the
/// collections.
proof fn lemma_manages_same(
    d1: Seq<IfaceView>,
    c1: Seq<IfaceView>,
    d2: Seq<IfaceView>,
    c2: Seq<IfaceView>,
    j: int,
    j2: int,
)
    requires
        unique_slots(keys_of(d1)),
        unique_slots(keys_of(c1)),
        unique_slots(keys_of(d2)),
        unique_slots(keys_of(c2)),
        same_records(d1, d2),
        same_records(c1, c2),
        0 <= j < d1.len(),
        0 <= j2 < d2.len(),
        d1[j] == d2[j2],
    ensures
        manages(d1, c1, j) == manages(d2, c2, j2),
{
    let d = d1[j];
    if let Some(l) = d.ports {
        lemma_any_ignored_same(d1, d2, l);
        lemma_same_lookup(c1, c2, d.key());
        if let Some(c) = find_slot(keys_of(c1), d.key()) {
            if let Some(lc) = c1[c].ports {
                lemma_any_ignored_same(c1, c2, lc);
            }
        }
    }
}

/// Every record of one desired collection with its taken members is a
/// record of every such collection of the same interfaces.
proof fn lemma_managed_included(
    d1: Seq<IfaceView>,
    c1: Seq<IfaceView>,
    d2: Seq<IfaceView>,
    c2: Seq<IfaceView>,
    i: int,
)
    requires
        unique_slots(keys_of(d1)),
        unique_slots(keys_of(c1)),
        unique_slots(keys_of(d2)),
        unique_slots(keys_of(c2)),
        same_records(d1, d2),
        same_records(c1, c2),
        0 <= i < managed(d1, c1).len(),
    ensures
        managed(d2, c2).contains(managed(d1, c1)[i]),
{
    let m1 = managed(d1, c1);
    let m2 = managed(d2, c2);
    lemma_manage_upto_ok(d1, c1, d1.len());
    lemma_manage_upto_ok(d2, c2, d2.len());
    if i < d1.len() {
        assert(m1[i] == d1[i]);
        assert(d2.contains(d1[i]));
        let j = choose|j: int| 0 <= j < d2.len() && d2[j] == d1[i];
        assert(m2[j] == d2[j]);
    } else {
        assert(taken_in(m1, i, d1, c1));
        let name = choose|name: Seq<char>| is_taken(d1, c1, name) && m1[i] == taken(c1, name);
        let j = choose|j: int| 0 <= j < d1.len() && takes(d1, c1, j, name);
        assert(d2.contains(d1[j]));
        let j2 = choose|j2: int| 0 <= j2 < d2.len() && d2[j2] == d1[j];
        lemma_manages_same(d1, c1, d2, c2, j, j2);
        assert(takes(d2, c2, j2, name));
        lemma_same_lookup(d1, d2, kernel_key(name));
        lemma_find_slot_sound(keys_of(d1), kernel_key(name));
        lemma_find_slot_sound(keys_of(d2), kernel_key(name));
        lemma_kernel_ignored_same(c1, c2, name);
        assert(taken_before(d2, c2, d2.len(), name));
        lemma_manage_upto_takes(d2, c2, d2.len(), name);
    }
}

/// Collections of the same desired interfaces take the same members.
pub proof fn lemma_managed_same(
    d1: Seq<IfaceView>,
    c1: Seq<IfaceView>,
    d2: Seq<IfaceView>,
    c2: Seq<IfaceView>,
)
    requires
        unique_slots(keys_of(d1)),
        unique_slots(keys_of(c1)),
        unique_slots(keys_of(d2)),
        unique_slots(keys_of(c2)),
        same_records(d1, d2),
        same_records(c1, c2),
    ensures
        same_records(managed(d1, c1), managed(d2, c2)),
{
    let m1 = managed(d1, c1);
    let m2 = managed(d2, c2);
    assert forall|i: int| 0 <= i < m1.len() implies m2.contains(#[trigger] m1[i]) by {
        lemma_managed_included(d1, c1, d2, c2, i);
    }
    assert forall|j: int| 0 <= j < m2.len() implies m1.contains(#[trigger] m2[j]) by {
        lemma_managed_included(d2, c2, d1, c1, j);
    }
}

/// Whether an interface is left alone does not depend on the order of
/// the collections.
proof fn lemma_is_ignored_same(
    d1: Seq<IfaceView>,
    c1: Seq<IfaceView>,
    d2: Seq<IfaceView>,
    c2: Seq<IfaceView>,
    k: Key,
)
    requires
        unique_slots(keys_of(d1)),
        unique_slots(keys_of(c1)),
        unique_slots(keys_of(d2)),
        unique_slots(keys_of(c2)),
        same_records(d1, d2),
        same_records(c1, c2),
    ensures
        is_ignored(d1, c1, k) == is_ignored(d2, c2, k),
{
    lemma_same_lookup(d1, d2, k);
    lemma_same_lookup(c1, c2, k);
}

proof fn lemma_unignored_same(
    l: Seq<Seq<char>>,
    d1: Seq<IfaceView>,
    c1: Seq<IfaceView>,
    d2: Seq<IfaceView>,
    c2: Seq<IfaceView>,
    n: nat,
)
    requires
        unique_slots(keys_of(d1)),
        unique_slots(keys_of(c1)),
        unique_slots(keys_of(d2)),
        unique_slots(keys_of(c2)),
        same_records(d1, d2),
        same_records(c1, c2),
        n <= l.len(),
    ensures
        unignored_names(l, d1, c1, n) == unignored_names(l, d2, c2, n),
    decreases n,
{
    if n > 0 {
        lemma_unignored_same(l, d1, c1, d2, c2, (n - 1) as nat);
        lemma_is_ignored_same(d1, c1, d2, c2, kernel_key(l[n - 1]));
    }
}

/// Every interface of `x` that is not left alone is kept, with its list
/// stripped.
proof fn lemma_without_ignored_has(
    x: Seq<IfaceView>,
    des: Seq<IfaceView>,
    cur: Seq<IfaceView>,
    n: nat,
    j: int,
)
    requires
        0 <= j < n <= x.len(),
        !is_ignored(des, cur, x[j].key()),
    ensures
        without_ignored_upto(x, des, cur, n).contains(stripped(x[j], des, cur)),
    decreases n,
{
    let full = without_ignored_upto(x, des, cur, n);
    if j == n - 1 {
        assert(full[full.len() - 1] == stripped(x[j], des, cur));
    } else {
        lemma_without_ignored_has(x, des, cur, (n - 1) as nat, j);
        let rest = without_ignored_upto(x, des, cur, (n - 1) as nat);
        let a = choose|a: int| 0 <= a < rest.len() && rest[a] == stripped(x[j], des, cur);
        assert(full[a] == stripped(x[j], des, cur));
    }
}

proof fn lemma_without_ignored_included(
    x1: Seq<IfaceView>,
    x2: Seq<IfaceView>,
    d1: Seq<IfaceView>,
    c1: Seq<IfaceView>,
    d2: Seq<IfaceView>,
    c2: Seq<IfaceView>,
    i: int,
)
    requires
        unique_slots(keys_of(d1)),
        unique_slots(keys_of(c1)),
        unique_slots(keys_of(d2)),
        unique_slots(keys_of(c2)),
        same_records(d1, d2),
        same_records(c1, c2),
        same_records(x1, x2),
        0 <= i < without_ignored(x1, d1, c1).len(),
    ensures
        without_ignored(x2, d2, c2).contains(without_ignored(x1, d1, c1)[i]),
{
    lemma_without_ignored(x1, d1, c1, x1.len());
    let src = kept_places(x1, d1, c1, x1.len());
    let j = src[i];
    let v = x1[j];
    assert(without_ignored(x1, d1, c1)[i] == stripped(v, d1, c1));
    assert(x2.contains(v));
    let j2 = choose|j2: int| 0 <= j2 < x2.len() && x2[j2] == v;
    lemma_is_ignored_same(d1, c1, d2, c2, v.key());
    if let Some(l) = v.ports {
        lemma_unignored_same(l, d1, c1, d2, c2, l.len());
    }
    assert(stripped(v, d1, c1) == stripped(v, d2, c2));
    lemma_without_ignored_has(x2, d2, c2, x2.len(), j2);
}

/// Dropping what is left alone from collections of the same interfaces
/// leaves collections of the same interfaces.
pub proof fn lemma_without_ignored_same(
    x1: Seq<IfaceView>,
    x2: Seq<IfaceView>,
    d1: Seq<IfaceView>,
    c1: Seq<IfaceView>,
    d2: Seq<IfaceView>,
    c2: Seq<IfaceView>,
)
    requires
        unique_slots(keys_of(d1)),
        unique_slots(keys_of(c1)),
        unique_slots(keys_of(d2)),
        unique_slots(keys_of(c2)),
        same_records(d1, d2),
        same_records(c1, c2),
        same_records(x1, x2),
    ensures
        same_records(without_ignored(x1, d1, c1), without_ignored(x2, d2, c2)),
{
    let y1 = without_ignored(x1, d1, c1);
    let y2 = without_ignored(x2, d2, c2);
    assert forall|i: int| 0 <= i < y1.len() implies y2.contains(#[trigger] y1[i]) by {
        lemma_without_ignored_included(x1, x2, d1, c1, d2, c2, i);
    }
    assert forall|j: int| 0 <= j < y2.len() implies y1.contains(#[trigger] y2[j]) by {
        lemma_without_ignored_included(x2, x1, d2, c2, d1, c1, j);
    }
}

/// Whether no two desired interfaces compete for a place once their
/// kinds are known.
pub open spec fn kinds_settle(des: Seq<IfaceView>, cur: Seq<IfaceView>) -> bool {
    unique_slots(keys_of(retyped_all(des, cur)))
}

/// Preparing two pairs of collections of the same interfaces gives
/// collections of the same interfaces.
pub proof fn lemma_effective_same(
    d1: Seq<IfaceView>,
    c1: Seq<IfaceView>,
    d2: Seq<IfaceView>,
    c2: Seq<IfaceView>,
)
    requires
        unique_slots(keys_of(d2)),
        unique_slots(keys_of(c1)),
        unique_slots(keys_of(c2)),
        same_records(d1, d2),
        same_records(c1, c2),
        kinds_settle(d1, c1),
    ensures
        kinds_settle(d2, c2),
        same_records(effective_desired(d1, c1), effective_desired(d2, c2)),
        same_records(effective_current(d1, c1), effective_current(d2, c2)),
{
    lemma_retyped_same(d1, c1, d2, c2);
    lemma_known_is_retyped(d1, c1, d1.len());
    lemma_known_is_retyped(d2, c2, d2.len());
    let k1 = known(d1, c1);
    let k2 = known(d2, c2);
    assert(retyped_all(d1, c1).take(d1.len() as int) =~= retyped_all(d1, c1));
    assert(retyped_all(d2, c2).take(d2.len() as int) =~= retyped_all(d2, c2));
    lemma_managed_same(k1, c1, k2, c2);
    let m1 = managed(k1, c1);
    let m2 = managed(k2, c2);
    lemma_manage_upto_unique(k1, c1, k1.len());
    lemma_manage_upto_unique(k2, c2, k2.len());
    lemma_without_ignored_same(m1, m2, m1, c1, m2, c2);
    lemma_without_ignored_same(c1, c2, m1, c1, m2, c2);
}

/// The plan does not depend on the order in which the two collections
/// hold their interfaces. For two pairs of collections of the same
/// interfaces there is a plan for both or for neither, and the two plans
/// hold the same records: each interface has the same state, the same
/// controller and the same rank in both. This is stated for desired
/// collections in which no two interfaces compete for a place once their
/// kinds are known.
pub proof fn law_planning_ignores_order(
    d1: Seq<IfaceView>,
    c1: Seq<IfaceView>,
    d2: Seq<IfaceView>,
    c2: Seq<IfaceView>,
)
    requires
        unique_slots(keys_of(d1)),
        unique_slots(keys_of(c1)),
        unique_slots(keys_of(d2)),
        unique_slots(keys_of(c2)),
        same_records(d1, d2),
        same_records(c1, c2),
        kinds_settle(d1, c1),
    ensures
        plan(d1, c1) is Ok <==> plan(d2, c2) is Ok,
        plan(d1, c1) is Ok ==> same_plan(plan(d1, c1)->Ok_0, plan(d2, c2)->Ok_0),
{
    lemma_effective_same(d1, c1, d2, c2);
    lemma_effective_unique(d1, c1);
    lemma_effective_unique(d2, c2);
    law_plan_ignores_order(
        effective_desired(d1, c1),
        effective_current(d1, c1),
        effective_desired(d2, c2),
        effective_current(d2, c2),
    );
}

} // verus!
