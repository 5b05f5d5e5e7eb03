//! Preparing two keyed collections for the merge gives keyed collections
//! again: no two interfaces compete for a place.

use crate::model::iface::IfaceView;
use crate::model::ifaces::{keys_of, lemma_push_view_unique};
use crate::model::key::{find_slot, kernel_key, lemma_find_slot_sound, same_slot, unique_slots};
use crate::plan::prepare::{
    effective_current, effective_desired, is_ignored, kernel_ignored, known, known_upto,
    manage_ports, manage_upto, managed, manages, retyped, stripped, without_ignored,
    without_ignored_upto,
};
use crate::proofs::sound::lemma_kernel_slot;
use vstd::prelude::*;

verus! {

pub proof fn lemma_known_unique(des: Seq<IfaceView>, cur: Seq<IfaceView>, n: nat)
    ensures
        unique_slots(keys_of(known_upto(des, cur, n))),
    decreases n,
{
    if n > 0 {
        lemma_known_unique(des, cur, (n - 1) as nat);
        lemma_push_view_unique(known_upto(des, cur, (n - 1) as nat), retyped(des[n - 1], cur));
    }
}

pub proof fn lemma_manage_ports_unique(
    acc: Seq<IfaceView>,
    cur: Seq<IfaceView>,
    l: Seq<Seq<char>>,
    k: nat,
)
    requires
        unique_slots(keys_of(acc)),
    ensures
        unique_slots(keys_of(manage_ports(acc, cur, l, k))),
    decreases k,
{
    if k > 0 {
        lemma_manage_ports_unique(acc, cur, l, (k - 1) as nat);
        let a = manage_ports(acc, cur, l, (k - 1) as nat);
        let name = l[k - 1];
        if find_slot(keys_of(a), kernel_key(name)) is None && kernel_ignored(cur, name) {
            lemma_find_slot_sound(keys_of(a), kernel_key(name));
            lemma_find_slot_sound(keys_of(cur), kernel_key(name));
            let c = find_slot(keys_of(cur), kernel_key(name))->0;
            assert(keys_of(cur)[c] == cur[c].key());
            let t = cur[c].iface_type;
            let x = IfaceView::fresh(name, t);
            let b = a.push(x);
            let ka = keys_of(a);
            let kb = keys_of(b);
            assert forall|i: int, j: int| 0 <= i < j < kb.len() implies !same_slot(
                #[trigger] kb[i],
                #[trigger] kb[j],
            ) by {
                assert(kb[i] == ka[i]);
                if j < ka.len() {
                    assert(kb[j] == ka[j]);
                } else {
                    assert(kb[j] == x.key());
                    lemma_kernel_slot(ka[i], name, t);
                }
            }
        }
    }
}

pub proof fn lemma_manage_upto_unique(des: Seq<IfaceView>, cur: Seq<IfaceView>, j: nat)
    requires
        unique_slots(keys_of(des)),
    ensures
        unique_slots(keys_of(manage_upto(des, cur, j))),
    decreases j,
{
    if j > 0 {
        lemma_manage_upto_unique(des, cur, (j - 1) as nat);
        match manages(des, cur, j - 1) {
            Some(l) => {
                lemma_manage_ports_unique(manage_upto(des, cur, (j - 1) as nat), cur, l, l.len());
            },
            None => {},
        }
    }
}

/// The places in `x` of the interfaces that `without_ignored_upto` keeps.
pub open spec fn kept_places(
    x: Seq<IfaceView>,
    des: Seq<IfaceView>,
    cur: Seq<IfaceView>,
    n: nat,
) -> Seq<int>
    decreases n,
{
    if n == 0 {
        Seq::empty()
    } else {
        let rest = kept_places(x, des, cur, (n - 1) as nat);
        if is_ignored(des, cur, x[n - 1].key()) {
            rest
        } else {
            rest.push(n - 1)
        }
    }
}

/// What is kept of a collection are interfaces of it, in their order,
/// none of them left alone, each with its list stripped.
pub proof fn lemma_without_ignored(
    x: Seq<IfaceView>,
    des: Seq<IfaceView>,
    cur: Seq<IfaceView>,
    n: nat,
)
    requires
        n <= x.len(),
    ensures
        without_ignored_upto(x, des, cur, n).len() == kept_places(x, des, cur, n).len(),
        forall|a: int|
            0 <= a < kept_places(x, des, cur, n).len() ==> {
                let j = #[trigger] kept_places(x, des, cur, n)[a];
                &&& 0 <= j < n
                &&& !is_ignored(des, cur, x[j].key())
                &&& without_ignored_upto(x, des, cur, n)[a] == stripped(x[j], des, cur)
            },
        forall|a: int, b: int|
            0 <= a < b < kept_places(x, des, cur, n).len() ==> #[trigger] kept_places(
                x,
                des,
                cur,
                n,
            )[a] < #[trigger] kept_places(x, des, cur, n)[b],
    decreases n,
{
    if n > 0 {
        lemma_without_ignored(x, des, cur, (n - 1) as nat);
    }
}

pub proof fn lemma_without_ignored_unique(
    x: Seq<IfaceView>,
    des: Seq<IfaceView>,
    cur: Seq<IfaceView>,
)
    requires
        unique_slots(keys_of(x)),
    ensures
        unique_slots(keys_of(without_ignored(x, des, cur))),
{
    let y = without_ignored(x, des, cur);
    let src = kept_places(x, des, cur, x.len());
    lemma_without_ignored(x, des, cur, x.len());
    let ky = keys_of(y);
    assert forall|a: int, b: int| 0 <= a < b < ky.len() implies !same_slot(
        #[trigger] ky[a],
        #[trigger] ky[b],
    ) by {
        let i = src[a];
        let j = src[b];
        assert(i < j);
        assert(ky[a] == x[i].key());
        assert(ky[b] == x[j].key());
        assert(keys_of(x)[i] == x[i].key());
        assert(keys_of(x)[j] == x[j].key());
    }
}

/// Preparing keyed collections gives keyed collections.
pub proof fn lemma_effective_unique(des: Seq<IfaceView>, cur: Seq<IfaceView>)
    requires
        unique_slots(keys_of(cur)),
    ensures
        unique_slots(keys_of(effective_desired(des, cur))),
        unique_slots(keys_of(effective_current(des, cur))),
{
    lemma_known_unique(des, cur, des.len());
    let d1 = known(des, cur);
    lemma_manage_upto_unique(d1, cur, d1.len());
    let d2 = managed(d1, cur);
    lemma_without_ignored_unique(d2, d2, cur);
    lemma_without_ignored_unique(cur, d2, cur);
}

/// Whether a collection holds nothing that is left alone.
pub open spec fn none_ignored(s: Seq<IfaceView>) -> bool {
    forall|i: int| 0 <= i < s.len() ==> !((#[trigger] s[i]).state is Ignore)
}

/// Whether every interface of a collection is of a known kind.
pub open spec fn all_known(s: Seq<IfaceView>) -> bool {
    forall|i: int| 0 <= i < s.len() ==> !((#[trigger] s[i]).iface_type is Unknown)
}

proof fn lemma_known_plain(des: Seq<IfaceView>, cur: Seq<IfaceView>, n: nat)
    requires
        unique_slots(keys_of(des)),
        all_known(des),
        n <= des.len(),
    ensures
        known_upto(des, cur, n) == des.take(n as int),
    decreases n,
{
    if n == 0 {
        assert(des.take(0) =~= Seq::<IfaceView>::empty());
    } else {
        lemma_known_plain(des, cur, (n - 1) as nat);
        let a = des.take(n - 1);
        let x = des[n - 1];
        assert(retyped(x, cur) == x);
        assert forall|i: int| 0 <= i < a.len() implies !same_slot(
            #[trigger] keys_of(a)[i],
            x.key(),
        ) by {
            assert(keys_of(a)[i] == keys_of(des)[i]);
            assert(x.key() == keys_of(des)[n - 1]);
        }
        lemma_find_slot_sound(keys_of(a), x.key());
        assert(a.push(x) =~= des.take(n as int));
    }
}

proof fn lemma_manage_ports_plain(
    acc: Seq<IfaceView>,
    cur: Seq<IfaceView>,
    l: Seq<Seq<char>>,
    k: nat,
)
    requires
        none_ignored(cur),
    ensures
        manage_ports(acc, cur, l, k) == acc,
    decreases k,
{
    if k > 0 {
        lemma_manage_ports_plain(acc, cur, l, (k - 1) as nat);
        lemma_find_slot_sound(keys_of(cur), kernel_key(l[k - 1]));
    }
}

proof fn lemma_manage_upto_plain(des: Seq<IfaceView>, cur: Seq<IfaceView>, j: nat)
    requires
        none_ignored(cur),
    ensures
        manage_upto(des, cur, j) == des,
    decreases j,
{
    if j > 0 {
        lemma_manage_upto_plain(des, cur, (j - 1) as nat);
        match manages(des, cur, j - 1) {
            Some(l) => {
                lemma_manage_ports_plain(des, cur, l, l.len());
            },
            None => {},
        }
    }
}

proof fn lemma_is_ignored_plain(des: Seq<IfaceView>, cur: Seq<IfaceView>, k: crate::model::key::Key)
    requires
        none_ignored(des),
        none_ignored(cur),
    ensures
        !is_ignored(des, cur, k),
{
    lemma_find_slot_sound(keys_of(des), k);
    lemma_find_slot_sound(keys_of(cur), k);
}

proof fn lemma_unignored_plain(
    l: Seq<Seq<char>>,
    des: Seq<IfaceView>,
    cur: Seq<IfaceView>,
    n: nat,
)
    requires
        none_ignored(des),
        none_ignored(cur),
        n <= l.len(),
    ensures
        crate::plan::prepare::unignored_names(l, des, cur, n) == l.take(n as int),
    decreases n,
{
    if n == 0 {
        assert(l.take(0) =~= Seq::<Seq<char>>::empty());
    } else {
        lemma_unignored_plain(l, des, cur, (n - 1) as nat);
        lemma_is_ignored_plain(des, cur, kernel_key(l[n - 1]));
        assert(l.take(n - 1).push(l[n - 1]) =~= l.take(n as int));
    }
}

proof fn lemma_without_ignored_plain(
    x: Seq<IfaceView>,
    des: Seq<IfaceView>,
    cur: Seq<IfaceView>,
    n: nat,
)
    requires
        none_ignored(des),
        none_ignored(cur),
        n <= x.len(),
    ensures
        without_ignored_upto(x, des, cur, n) == x.take(n as int),
    decreases n,
{
    if n == 0 {
        assert(x.take(0) =~= Seq::<IfaceView>::empty());
    } else {
        lemma_without_ignored_plain(x, des, cur, (n - 1) as nat);
        lemma_is_ignored_plain(des, cur, x[n - 1].key());
        let v = x[n - 1];
        if let Some(l) = v.ports {
            lemma_unignored_plain(l, des, cur, l.len());
            assert(l.take(l.len() as int) =~= l);
        }
        assert(stripped(v, des, cur) == v);
        assert(x.take(n - 1).push(v) =~= x.take(n as int));
    }
}

/// Where nothing is left alone and every desired kind is known, the
/// merge takes the two collections as they are.
pub proof fn law_plain_collections_merge_as_they_are(des: Seq<IfaceView>, cur: Seq<IfaceView>)
    requires
        unique_slots(keys_of(des)),
        all_known(des),
        none_ignored(des),
        none_ignored(cur),
    ensures
        effective_desired(des, cur) == des,
        effective_current(des, cur) == cur,
{
    lemma_known_plain(des, cur, des.len());
    assert(des.take(des.len() as int) =~= des);
    lemma_manage_upto_plain(des, cur, des.len());
    lemma_without_ignored_plain(des, des, cur, des.len());
    lemma_without_ignored_plain(cur, des, cur, cur.len());
    assert(cur.take(cur.len() as int) =~= cur);
}

} // verus!
