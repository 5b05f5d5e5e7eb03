//! A member that a desired controller names and that neither collection
//! holds is created for that controller, and stays its member in the
//! plan.

use crate::model::iface::{IfaceView, InterfaceType};
use crate::model::ifaces::keys_of;
use crate::model::key::{kernel_key, lemma_find_slot_sound, same_slot, slot_free};
use crate::model::text::lemma_first_true_sound;
use crate::plan::claims::{has_overbooked_port, is_member, listed_by, overbooked};
use crate::plan::enroll::{
    created_member, enroll_ports, enroll_upto, lemma_enroll_ports_extends,
    lemma_enroll_upto_extends, stated_ports,
};
use crate::plan::merge::{
    current_only, current_only_src, kept, lemma_current_only, merge_seq, paired, slot_keys,
    SlotView,
};
use crate::plan::merged::{plan_for, working_set};
use crate::plan::order::ranked;
use crate::plan::resolve::{
    controller_index, first_lister, is_orphan, lister_flags, resolved, resolved_view,
};
use crate::proofs::laws::lemma_working_set_head;
use vstd::prelude::*;

verus! {

/// Whether `acc` holds the record of a member of the given name that was
/// created for a controller of `w` that lists it.
pub open spec fn created_for(acc: Seq<SlotView>, w: Seq<SlotView>, name: Seq<char>) -> bool {
    exists|k: int, j: int| made_for(acc, k, w, j, name)
}

/// Whether the record at `k` of `acc` is the member of the given name
/// created for the controller at `j` of `w`, which lists it.
pub open spec fn made_for(
    acc: Seq<SlotView>,
    k: int,
    w: Seq<SlotView>,
    j: int,
    name: Seq<char>,
) -> bool {
    &&& 0 <= k < acc.len()
    &&& 0 <= j < w.len()
    &&& acc[k] == created_member(name, w[j].merged.name, w[j].merged.iface_type)
    &&& listed_by(w, j, name)
}

/// Whether one of the first `k` names of `l` is `name`.
pub open spec fn named_before(l: Seq<Seq<char>>, k: nat, name: Seq<char>) -> bool {
    exists|q: int| 0 <= q < k && l[q] == name
}

/// Looking at the list of one controller creates the member of a name
/// that no kernel interface bears, if the list holds the name, and leaves
/// the name free if it does not.
pub proof fn lemma_enroll_ports_creates(
    acc: Seq<SlotView>,
    ctrl_name: Seq<char>,
    ctrl_type: InterfaceType,
    l: Seq<Seq<char>>,
    k: nat,
    name: Seq<char>,
)
    requires
        k <= l.len(),
        slot_free(slot_keys(acc), kernel_key(name)),
    ensures
        !named_before(l, k, name) ==> slot_free(
            slot_keys(enroll_ports(acc, ctrl_name, ctrl_type, l, k)),
            kernel_key(name),
        ),
        named_before(l, k, name) ==> exists|idx: int|
            0 <= idx < enroll_ports(acc, ctrl_name, ctrl_type, l, k).len() && #[trigger] enroll_ports(
                acc,
                ctrl_name,
                ctrl_type,
                l,
                k,
            )[idx] == created_member(name, ctrl_name, ctrl_type),
    decreases k,
{
    if k > 0 {
        let a = enroll_ports(acc, ctrl_name, ctrl_type, l, (k - 1) as nat);
        let b = enroll_ports(acc, ctrl_name, ctrl_type, l, k);
        lemma_enroll_ports_creates(acc, ctrl_name, ctrl_type, l, (k - 1) as nat, name);
        lemma_find_slot_sound(slot_keys(a), kernel_key(l[k - 1]));
        if named_before(l, (k - 1) as nat, name) {
            let idx = choose|idx: int|
                0 <= idx < a.len() && #[trigger] a[idx] == created_member(
                    name,
                    ctrl_name,
                    ctrl_type,
                );
            assert(b[idx] == a[idx]);
            let q = choose|q: int| 0 <= q < k - 1 && l[q] == name;
            assert(0 <= q < k && l[q] == name);
        } else if l[k - 1] == name {
            assert(0 <= k - 1 < k && l[k - 1] == name);
            let idx = a.len() as int;
            assert(b[idx] == created_member(name, ctrl_name, ctrl_type));
        } else {
            assert(!named_before(l, k, name)) by {
                if named_before(l, k, name) {
                    let q = choose|q: int| 0 <= q < k && l[q] == name;
                    assert(0 <= q < k - 1 && l[q] == name);
                }
            }
            let kb = slot_keys(b);
            let ka = slot_keys(a);
            assert forall|x: int| 0 <= x < kb.len() implies !same_slot(
                #[trigger] kb[x],
                kernel_key(name),
            ) by {
                if x < ka.len() {
                    assert(kb[x] == ka[x]);
                } else {
                    assert(kb[x].name == l[k - 1]);
                }
            }
        }
    }
}

/// Whether one of the first `j` records of `w` is a desired controller
/// that lists `name`.
pub open spec fn listed_before(w: Seq<SlotView>, j: nat, name: Seq<char>) -> bool {
    exists|c: int| 0 <= c < j && listed_by(w, c, name)
}

/// Looking at the lists of the controllers creates the member of a name
/// that no kernel interface bears, if a controller lists it, and leaves
/// the name free if none does.
pub proof fn lemma_enroll_upto_creates(w: Seq<SlotView>, j: nat, name: Seq<char>)
    requires
        j <= w.len(),
        slot_free(slot_keys(w), kernel_key(name)),
    ensures
        !listed_before(w, j, name) ==> slot_free(
            slot_keys(enroll_upto(w, j)),
            kernel_key(name),
        ),
        listed_before(w, j, name) ==> created_for(enroll_upto(w, j), w, name),
    decreases j,
{
    if j > 0 {
        let a = enroll_upto(w, (j - 1) as nat);
        let b = enroll_upto(w, j);
        lemma_enroll_upto_creates(w, (j - 1) as nat, name);
        let c = j - 1;
        if listed_before(w, (j - 1) as nat, name) {
            let c0 = choose|c0: int| 0 <= c0 < j - 1 && listed_by(w, c0, name);
            assert(0 <= c0 < j && listed_by(w, c0, name));
            let (k, jj) = choose|k: int, jj: int| made_for(a, k, w, jj, name);
            match stated_ports(w[c]) {
                Some(l) => {
                    lemma_enroll_ports_extends(
                        a,
                        w[c].merged.name,
                        w[c].merged.iface_type,
                        l,
                        l.len(),
                    );
                },
                None => {},
            }
            assert(b[k] == a[k]);
            assert(made_for(b, k, w, jj, name));
        } else {
            match stated_ports(w[c]) {
                Some(l) => {
                    lemma_enroll_ports_creates(
                        a,
                        w[c].merged.name,
                        w[c].merged.iface_type,
                        l,
                        l.len(),
                        name,
                    );
                    if l.contains(name) {
                        let q = choose|q: int| 0 <= q < l.len() && l[q] == name;
                        assert(named_before(l, l.len(), name));
                        assert(listed_by(w, c, name));
                        assert(0 <= c < j && listed_by(w, c, name));
                        let idx = choose|idx: int|
                            0 <= idx < b.len() && #[trigger] b[idx] == created_member(
                                name,
                                w[c].merged.name,
                                w[c].merged.iface_type,
                            );
                        assert(made_for(b, idx, w, c, name));
                    } else {
                        assert(!named_before(l, l.len(), name)) by {
                            if named_before(l, l.len(), name) {
                                let q = choose|q: int| 0 <= q < l.len() && l[q] == name;
                                assert(l.contains(name));
                            }
                        }
                        assert(!listed_by(w, c, name));
                        assert(!listed_before(w, j, name)) by {
                            if listed_before(w, j, name) {
                                let c0 = choose|c0: int| 0 <= c0 < j && listed_by(w, c0, name);
                                assert(0 <= c0 < j - 1 && listed_by(w, c0, name));
                            }
                        }
                    }
                },
                None => {
                    assert(!listed_by(w, c, name));
                    assert(!listed_before(w, j, name)) by {
                        if listed_before(w, j, name) {
                            let c0 = choose|c0: int| 0 <= c0 < j && listed_by(w, c0, name);
                            assert(0 <= c0 < j - 1 && listed_by(w, c0, name));
                        }
                    }
                },
            }
        }
    }
}

/// A name that no kernel interface of either collection bears is free in
/// the merged working set.
pub proof fn lemma_merge_leaves_free(des: Seq<IfaceView>, cur: Seq<IfaceView>, name: Seq<char>)
    requires
        slot_free(keys_of(des), kernel_key(name)),
        slot_free(keys_of(cur), kernel_key(name)),
    ensures
        slot_free(slot_keys(merge_seq(des, cur)), kernel_key(name)),
{
    let w = merge_seq(des, cur);
    let keys = slot_keys(w);
    lemma_current_only(des, cur, cur.len() as nat);
    let src = current_only_src(des, cur, cur.len() as nat);
    let tail = current_only(des, cur, cur.len() as nat);
    assert forall|i: int| 0 <= i < keys.len() implies !same_slot(
        #[trigger] keys[i],
        kernel_key(name),
    ) by {
        if i < des.len() {
            assert(w[i] == paired(des[i], cur));
            assert(keys[i] == des[i].key());
            assert(keys_of(des)[i] == des[i].key());
        } else {
            let a = i - des.len();
            let j = src[a];
            assert(tail[a] == kept(cur[j]));
            assert(keys[i] == cur[j].key());
            assert(keys_of(cur)[j] == cur[j].key());
        }
    }
}

/// Whether `m` is the record of a member of the given name created for
/// the controller `ctrl`: it has no desired and no current record, and it
/// is up, of the kind that the controller holds, held by the controller,
/// with nothing else stated but its rank.
pub open spec fn is_created_member(m: SlotView, name: Seq<char>, ctrl: IfaceView) -> bool {
    &&& m.desired is None
    &&& m.current is None
    &&& m.merged == (IfaceView {
        controller: Some(ctrl.name),
        controller_type: Some(ctrl.iface_type),
        up_priority: m.merged.up_priority,
        ..IfaceView::fresh(name, ctrl.iface_type.member_type())
    })
}

/// A member that a desired controller names, and that no kernel
/// interface of either collection bears, is in every plan: created for
/// that controller, up, of the kind that the controller holds, and held
/// by the controller.
pub proof fn law_named_member_created(
    des: Seq<IfaceView>,
    cur: Seq<IfaceView>,
    j: int,
    name: Seq<char>,
)
    requires
        0 <= j < des.len(),
        des[j].lists(name),
        slot_free(keys_of(des), kernel_key(name)),
        slot_free(keys_of(cur), kernel_key(name)),
        plan_for(des, cur) is Ok,
    ensures
        exists|k: int|
            0 <= k < plan_for(des, cur)->Ok_0.len() && is_created_member(
                #[trigger] plan_for(des, cur)->Ok_0[k],
                name,
                des[j],
            ),
{
    let w0 = merge_seq(des, cur);
    let w = working_set(des, cur);
    lemma_merge_leaves_free(des, cur, name);
    lemma_working_set_head(des, cur, j);
    lemma_enroll_upto_extends(w0, w0.len());
    assert(w0[j] == paired(des[j], cur));
    assert(w[j] == w0[j]);
    assert(listed_by(w0, j, name));
    assert(listed_before(w0, w0.len(), name));
    lemma_enroll_upto_creates(w0, w0.len(), name);
    let (k, jj) = choose|k: int, jj: int| made_for(w, k, w0, jj, name);
    assert(w[jj] == w0[jj]);
    assert(listed_by(w, jj, name));
    assert(listed_by(w, j, name));
    // No port is overbooked in a plan, so the two controllers are one.
    if jj != j {
        let l = stated_ports(w[jj])->0;
        let p = choose|p: int| 0 <= p < l.len() && l[p] == name;
        assert(overbooked(w, jj, p, j));
        assert(has_overbooked_port(w));
        assert(false);
    }
    let flags = lister_flags(w, name);
    lemma_first_true_sound(flags);
    assert(flags[j]);
    let f = first_lister(w, name)->0;
    assert(flags[f]);
    assert(listed_by(w, f, name));
    if f != j {
        let l = stated_ports(w[f])->0;
        let p = choose|p: int| 0 <= p < l.len() && l[p] == name;
        assert(overbooked(w, f, p, j));
        assert(has_overbooked_port(w));
        assert(false);
    }
    assert(is_member(w, k));
    assert(controller_index(w, k) == Some(j));
    assert(!is_orphan(w, k));
    let r = resolved(w);
    assert(r[k].merged == resolved_view(w, k));
    let p = ranked(r);
    assert(plan_for(des, cur) == Ok::<Seq<SlotView>, crate::model::error::Failure>(p));
    assert(is_created_member(p[k], name, des[j]));
    let q = plan_for(des, cur)->Ok_0;
    assert(q == p);
    assert(0 <= k < q.len() && is_created_member(q[k], name, des[j]));
}

} // verus!
