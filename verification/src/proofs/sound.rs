//! What holds of a working set through the passes: no two records compete
//! for a place, and each record agrees with the records it was made from.

use crate::model::iface::{IfaceView, InterfaceType};
use crate::model::ifaces::keys_of;
use crate::model::key::{
    find_slot, kernel_key, lemma_find_slot_sound, same_slot, unique_slots, Key,
};
use crate::plan::enroll::{auto_enroll, created_member, enroll_ports, enroll_upto, stated_ports};
use crate::plan::merge::{
    current_only, current_only_src, kept, lemma_current_only, lemma_merge_unique, merge_seq,
    paired, slot_keys, SlotView,
};
use vstd::prelude::*;

verus! {

/// Whether a working record agrees with the records it was made from: it
/// has the name, the kind and the state of its desired record, and the
/// name of its current record.
pub open spec fn coherent_slot(s: SlotView) -> bool {
    &&& s.desired matches Some(d) ==> s.merged.name == d.name && s.merged.iface_type
        == d.iface_type && s.merged.state == d.state
    &&& s.current matches Some(c) ==> s.merged.name == c.name
}

/// Whether no two records of a working set compete for a place and each
/// agrees with the records it was made from.
pub open spec fn sound(w: Seq<SlotView>) -> bool {
    &&& unique_slots(slot_keys(w))
    &&& forall|i: int| 0 <= i < w.len() ==> coherent_slot(#[trigger] w[i])
}

/// Merging two collections without competing keys gives a sound working
/// set.
pub proof fn lemma_merge_sound(des: Seq<IfaceView>, cur: Seq<IfaceView>)
    requires
        unique_slots(keys_of(des)),
        unique_slots(keys_of(cur)),
    ensures
        sound(merge_seq(des, cur)),
{
    lemma_merge_unique(des, cur);
    let w = merge_seq(des, cur);
    lemma_current_only(des, cur, cur.len() as nat);
    let src = current_only_src(des, cur, cur.len() as nat);
    let tail = current_only(des, cur, cur.len() as nat);
    assert forall|i: int| 0 <= i < w.len() implies coherent_slot(#[trigger] w[i]) by {
        if i < des.len() {
            assert(w[i] == paired(des[i], cur));
            lemma_find_slot_sound(keys_of(cur), des[i].key());
            match find_slot(keys_of(cur), des[i].key()) {
                Some(j) => {
                    assert(keys_of(cur)[j] == cur[j].key());
                },
                None => {},
            }
        } else {
            let a = i - des.len();
            let j = src[a];
            assert(tail[a] == kept(cur[j]));
            assert(w[i] == tail[a]);
        }
    }
}

/// A key of a kernel kind competes with exactly the keys that compete
/// with the kernel key of its name.
pub proof fn lemma_kernel_slot(k: Key, name: Seq<char>, t: InterfaceType)
    requires
        !t.is_userspace(),
    ensures
        same_slot(k, Key { name, iface_type: t }) == same_slot(k, kernel_key(name)),
{
}

pub proof fn lemma_enroll_ports_sound(
    acc: Seq<SlotView>,
    ctrl_name: Seq<char>,
    ctrl_type: InterfaceType,
    l: Seq<Seq<char>>,
    k: nat,
)
    requires
        sound(acc),
    ensures
        sound(enroll_ports(acc, ctrl_name, ctrl_type, l, k)),
    decreases k,
{
    if k > 0 {
        lemma_enroll_ports_sound(acc, ctrl_name, ctrl_type, l, (k - 1) as nat);
        let a = enroll_ports(acc, ctrl_name, ctrl_type, l, (k - 1) as nat);
        let name = l[k - 1];
        if find_slot(slot_keys(a), kernel_key(name)) is None {
            lemma_find_slot_sound(slot_keys(a), kernel_key(name));
            let c = created_member(name, ctrl_name, ctrl_type);
            let b = a.push(c);
            let ka = slot_keys(a);
            let kb = slot_keys(b);
            assert forall|x: int, y: int| 0 <= x < y < kb.len() implies !same_slot(
                #[trigger] kb[x],
                #[trigger] kb[y],
            ) by {
                assert(kb[x] == ka[x]);
                if y < ka.len() {
                    assert(kb[y] == ka[y]);
                } else {
                    assert(kb[y] == c.merged.key());
                    lemma_kernel_slot(ka[x], name, ctrl_type.member_type());
                }
            }
            assert forall|i: int| 0 <= i < b.len() implies coherent_slot(#[trigger] b[i]) by {
                if i < a.len() {
                    assert(b[i] == a[i]);
                }
            }
        }
    }
}

pub proof fn lemma_enroll_upto_sound(w: Seq<SlotView>, j: nat)
    requires
        sound(w),
        j <= w.len(),
    ensures
        sound(enroll_upto(w, j)),
    decreases j,
{
    if j > 0 {
        lemma_enroll_upto_sound(w, (j - 1) as nat);
        let a = enroll_upto(w, (j - 1) as nat);
        match stated_ports(w[j - 1]) {
            Some(l) => {
                lemma_enroll_ports_sound(
                    a,
                    w[j - 1].merged.name,
                    w[j - 1].merged.iface_type,
                    l,
                    l.len(),
                );
            },
            None => {},
        }
    }
}

/// Creating the members that controllers name keeps a working set sound.
pub proof fn lemma_enroll_sound(w: Seq<SlotView>)
    requires
        sound(w),
    ensures
        sound(auto_enroll(w)),
{
    lemma_enroll_upto_sound(w, w.len());
}

} // verus!
