//! What holds of every plan, and on which inputs there is none.

use crate::model::error::Failure;
use crate::model::iface::IfaceView;
use crate::model::ifaces::keys_of;
use crate::model::key::{lemma_find_controller_names, unique_slots};
use crate::plan::claims::{
    controller_conflict, detach_conflict, has_controller_conflict, has_detach_conflict,
    has_missing_controller, has_overbooked_port, has_unlisted_member, membership_verdict,
    missing_controller, not_in_port_list, overbooked,
};
use crate::plan::enroll::lemma_enroll_upto_extends;
use crate::plan::merge::{
    applied, current_only, current_only_src, kept, lemma_current_only, merge_seq, paired,
    slot_keys, SlotView,
};
use crate::plan::merged::{plan, plan_for, working_set};
use crate::plan::nesting::{
    lemma_level_exact, lemma_level_fuel, lemma_parent_in_range, lemma_verdict_is_well_nested,
    level, parent_index, too_deep, well_nested, MAX_DEPTH,
};
use crate::plan::order::{
    lemma_ranked_follows, lemma_ranked_graph, rank_of, ranked, ranks_follow_controllers,
};
use crate::plan::prepare::{effective_current, effective_desired};
use crate::plan::resolve::{resolved, resolved_view};
use crate::proofs::agreement::{holds, lemma_resolved_agrees, lemma_resolved_keeps, members_agree};
use crate::proofs::preparation::{
    all_known, law_plain_collections_merge_as_they_are, lemma_effective_unique, none_ignored,
};
use crate::proofs::reorder::lemma_desired_in_head;
use crate::proofs::same_graph::{law_rank_ignores_order, same_graph, same_node};
use crate::proofs::sound::{coherent_slot, lemma_enroll_sound, lemma_merge_sound};
use vstd::prelude::*;

verus! {

/// Whether a record of a plan agrees with the records it was made from:
/// it has the name and the kind of its desired record, it is removed
/// where the desired record asks for removal, and it has the name of its
/// current record.
pub open spec fn settled_slot(s: SlotView) -> bool {
    &&& s.desired matches Some(d) ==> s.merged.name == d.name && s.merged.iface_type
        == d.iface_type && (d.is_absent() ==> s.merged.is_absent())
    &&& s.current matches Some(c) ==> s.merged.name == c.name
}

/// What holds of every plan. No two records compete for a place. Every
/// record agrees with the records it was made from; above all, what the
/// desired state removes is removed. Members and controllers agree, so
/// nothing refers to a controller that is not there. At most four
/// controllers are stacked above any interface, so no chain of
/// controllers runs in a circle. And every interface bears its rank: 0
/// without a controller, one more than its controller's with one.
pub open spec fn valid_plan(w: Seq<SlotView>) -> bool {
    &&& unique_slots(slot_keys(w))
    &&& forall|i: int| 0 <= i < w.len() ==> settled_slot(#[trigger] w[i])
    &&& members_agree(applied(w))
    &&& well_nested(applied(w))
    &&& ranks_follow_controllers(applied(w))
    &&& forall|i: int|
        0 <= i < w.len() ==> (#[trigger] w[i]).merged.up_priority == rank_of(applied(w), i)
}

/// Ranking keeps members and controllers in agreement.
pub proof fn lemma_ranked_agrees(w: Seq<SlotView>)
    requires
        members_agree(applied(w)),
    ensures
        members_agree(applied(ranked(w))),
{
    let a = applied(w);
    let b = applied(ranked(w));
    assert forall|i: int|
        0 <= i < b.len() && !b[i].is_absent() && b[i].controller_name()
            is Some implies #[trigger] parent_index(b, i) is Some by {
        lemma_ranked_graph(w, i, 0);
        assert(parent_index(a, i) is Some);
    }
    assert forall|i: int| 0 <= i < b.len() implies (#[trigger] parent_index(b, i) matches Some(
        k,
    ) ==> b[k].ports matches Some(l) && l.contains(b[i].name)) by {
        lemma_ranked_graph(w, i, 0);
        if let Some(k) = parent_index(a, i) {
            assert(b[k].ports == a[k].ports);
        }
    }
    assert forall|k: int| 0 <= k < b.len() && b[k].holds_members() implies (#[trigger] b[k]).ports
        is Some by {
        assert(a[k].holds_members());
    }
    assert forall|k: int, p: int|
        0 <= k < b.len() && b[k].holds_members() && 0 <= p
            < b[k].ports->0.len() implies #[trigger] holds(b, k, b[k].ports->0[p]) by {
        assert(a[k].holds_members());
        assert(holds(a, k, a[k].ports->0[p]));
        let i = choose|i: int|
            0 <= i < a.len() && a[i].name == a[k].ports->0[p] && parent_index(a, i) == Some(k);
        lemma_ranked_graph(w, i, 0);
        assert(0 <= i < b.len() && b[i].name == b[k].ports->0[p] && parent_index(b, i) == Some(
            k,
        ));
    }
}

/// Every plan for two keyed collections that are ready to be merged is
/// valid.
pub proof fn lemma_plan_for_valid(des: Seq<IfaceView>, cur: Seq<IfaceView>)
    requires
        unique_slots(keys_of(des)),
        unique_slots(keys_of(cur)),
    ensures
        plan_for(des, cur) matches Ok(w) ==> valid_plan(w),
{
    if let Ok(p) = plan_for(des, cur) {
        let w = working_set(des, cur);
        lemma_merge_sound(des, cur);
        lemma_enroll_sound(merge_seq(des, cur));
        let r = resolved(w);
        lemma_resolved_keeps(w);
        lemma_resolved_agrees(w);
        lemma_verdict_is_well_nested(applied(r));
        assert(p == ranked(r));
        lemma_ranked_follows(r);
        lemma_ranked_agrees(r);
        assert(slot_keys(p) =~= slot_keys(w));
        assert forall|i: int| 0 <= i < p.len() implies settled_slot(#[trigger] p[i]) by {
            assert(coherent_slot(w[i]));
            assert(r[i].merged == resolved_view(w, i));
        }
        assert forall|i: int| 0 <= i < p.len() implies !#[trigger] too_deep(applied(p), i) by {
            lemma_ranked_graph(r, i, 5);
            assert(!too_deep(applied(r), i));
        }
        assert forall|i: int| 0 <= i < p.len() implies (#[trigger] p[i]).merged.up_priority
            == rank_of(applied(p), i) by {
            lemma_ranked_graph(r, i, 5);
        }
    }
}

/// Every plan for two keyed collections is valid.
pub proof fn lemma_plan_valid(des: Seq<IfaceView>, cur: Seq<IfaceView>)
    requires
        unique_slots(keys_of(cur)),
    ensures
        plan(des, cur) matches Ok(w) ==> valid_plan(w),
{
    lemma_effective_unique(des, cur);
    lemma_plan_for_valid(effective_desired(des, cur), effective_current(des, cur));
}

/// The records of the desired interfaces head the working set, each
/// with its desired record, its name, its kind and its state.
pub proof fn lemma_working_set_head(des: Seq<IfaceView>, cur: Seq<IfaceView>, i: int)
    requires
        0 <= i < des.len(),
    ensures
        i < working_set(des, cur).len(),
        working_set(des, cur)[i].desired == Some(des[i]),
        working_set(des, cur)[i].merged.name == des[i].name,
        working_set(des, cur)[i].merged.iface_type == des[i].iface_type,
        working_set(des, cur)[i].merged.state == des[i].state,
{
    let w0 = merge_seq(des, cur);
    assert(w0[i] == paired(des[i], cur));
    lemma_enroll_upto_extends(w0, w0.len());
    assert(working_set(des, cur)[i] == w0[i]);
}

/// A port that two desired controllers list is overbooked: there is no
/// plan.
pub proof fn law_overbooked_port_fails(
    des: Seq<IfaceView>,
    cur: Seq<IfaceView>,
    j1: int,
    j2: int,
    name: Seq<char>,
)
    requires
        0 <= j1 < des.len(),
        0 <= j2 < des.len(),
        j1 != j2,
        des[j1].lists(name),
        des[j2].lists(name),
    ensures
        plan_for(des, cur) is Err,
{
    let w = working_set(des, cur);
    lemma_working_set_head(des, cur, j1);
    lemma_working_set_head(des, cur, j2);
    let l = des[j1].ports->0;
    let p = choose|p: int| 0 <= p < l.len() && l[p] == name;
    assert(overbooked(w, j1, p, j2));
    assert(has_overbooked_port(w));
}

/// A kernel interface that asks to be detached while a desired
/// controller lists it contradicts that controller: there is no plan.
pub proof fn law_detach_conflict_fails(
    des: Seq<IfaceView>,
    cur: Seq<IfaceView>,
    i: int,
    j: int,
)
    requires
        0 <= i < des.len(),
        0 <= j < des.len(),
        des[i].asks_detach(),
        !des[i].is_absent(),
        !des[i].iface_type.is_userspace(),
        des[j].lists(des[i].name),
    ensures
        plan_for(des, cur) is Err,
{
    let w = working_set(des, cur);
    lemma_working_set_head(des, cur, i);
    lemma_working_set_head(des, cur, j);
    assert(detach_conflict(w, i, j));
    assert(has_detach_conflict(w));
}

/// A kernel interface that names one controller while a desired
/// controller of another name lists it contradicts that controller:
/// there is no plan.
pub proof fn law_controller_conflict_fails(
    des: Seq<IfaceView>,
    cur: Seq<IfaceView>,
    i: int,
    j: int,
)
    requires
        0 <= i < des.len(),
        0 <= j < des.len(),
        des[i].controller_name() matches Some(x) && x != des[j].name,
        !des[i].is_absent(),
        !des[i].iface_type.is_userspace(),
        des[j].lists(des[i].name),
    ensures
        plan_for(des, cur) == Err::<Seq<SlotView>, Failure>(Failure::ControllerConflict),
{
    let w = working_set(des, cur);
    lemma_working_set_head(des, cur, i);
    lemma_working_set_head(des, cur, j);
    assert(controller_conflict(w, i, j));
    assert(has_controller_conflict(w));
}

/// Whether the merge takes two collections as they are: the desired one
/// is keyed, every desired kind is known, and nothing is left alone.
pub open spec fn plain(des: Seq<IfaceView>, cur: Seq<IfaceView>) -> bool {
    &&& unique_slots(keys_of(des))
    &&& all_known(des)
    &&& none_ignored(des)
    &&& none_ignored(cur)
}

/// For collections that the merge takes as they are, a port that two
/// desired controllers list is overbooked: no plan is built.
pub proof fn law_overbooked_port_is_refused(
    des: Seq<IfaceView>,
    cur: Seq<IfaceView>,
    j1: int,
    j2: int,
    name: Seq<char>,
)
    requires
        plain(des, cur),
        0 <= j1 < des.len(),
        0 <= j2 < des.len(),
        j1 != j2,
        des[j1].lists(name),
        des[j2].lists(name),
    ensures
        plan(des, cur) is Err,
{
    law_plain_collections_merge_as_they_are(des, cur);
    law_overbooked_port_fails(des, cur, j1, j2, name);
}

/// For collections that the merge takes as they are, a kernel interface
/// that asks to be detached while a desired controller lists it
/// contradicts that controller: no plan is built.
pub proof fn law_detach_while_listed_is_refused(
    des: Seq<IfaceView>,
    cur: Seq<IfaceView>,
    i: int,
    j: int,
)
    requires
        plain(des, cur),
        0 <= i < des.len(),
        0 <= j < des.len(),
        des[i].asks_detach(),
        !des[i].is_absent(),
        !des[i].iface_type.is_userspace(),
        des[j].lists(des[i].name),
    ensures
        plan(des, cur) is Err,
{
    law_plain_collections_merge_as_they_are(des, cur);
    law_detach_conflict_fails(des, cur, i, j);
}

/// Where the desired claims do not contradict each other, the depth of
/// the stacks decides: there is a plan exactly if at most `MAX_DEPTH`
/// controllers are stacked above every interface, and where there is
/// none the fault is a stack too deep or a circle.
pub proof fn law_nesting_decides(des: Seq<IfaceView>, cur: Seq<IfaceView>)
    requires
        membership_verdict(working_set(des, cur)) is Ok,
    ensures
        plan_for(des, cur) is Ok <==> well_nested(
            applied(resolved(working_set(des, cur))),
        ),
        plan_for(des, cur) matches Err(f) ==> f == Failure::ControllerCycle || f
            == Failure::NestingTooDeep,
{
    lemma_verdict_is_well_nested(applied(resolved(working_set(des, cur))));
}

/// An interface with a known number of controllers above it is too deep
/// exactly if that number exceeds `MAX_DEPTH`: four controllers pass,
/// five do not.
pub proof fn law_depth_bound(r: Seq<IfaceView>, i: int, fuel: nat)
    requires
        level(r, i, fuel) is Some,
    ensures
        too_deep(r, i) <==> level(r, i, fuel)->0 > MAX_DEPTH,
{
    let l = level(r, i, fuel)->0;
    lemma_level_fuel(r, i, fuel, fuel);
    lemma_level_exact(r, i, fuel);
    if l <= MAX_DEPTH {
        lemma_level_fuel(r, i, l + 1, (MAX_DEPTH + 1) as nat);
    } else if !too_deep(r, i) {
        lemma_level_fuel(r, i, (MAX_DEPTH + 1) as nat, l + 1);
    }
}

/// What the desired state removes is removed in the plan, whatever the
/// interface holds or is held by.
pub proof fn law_removal_kept(des: Seq<IfaceView>, cur: Seq<IfaceView>, i: int)
    requires
        0 <= i < des.len(),
        des[i].is_absent(),
        plan_for(des, cur) is Ok,
    ensures
        plan_for(des, cur)->Ok_0[i].desired == Some(des[i]),
        plan_for(des, cur)->Ok_0[i].merged.name == des[i].name,
        plan_for(des, cur)->Ok_0[i].merged.iface_type == des[i].iface_type,
        plan_for(des, cur)->Ok_0[i].merged.is_absent(),
{
    let w = working_set(des, cur);
    lemma_working_set_head(des, cur, i);
    let r = resolved(w);
    assert(r[i].merged == resolved_view(w, i));
}

/// Every desired record of the working set is the record of a desired
/// interface, at its place.
pub proof fn lemma_desired_records(des: Seq<IfaceView>, cur: Seq<IfaceView>, k: int)
    requires
        0 <= k < working_set(des, cur).len(),
        working_set(des, cur)[k].desired is Some,
    ensures
        k < des.len(),
        working_set(des, cur)[k].desired == Some(des[k]),
        working_set(des, cur)[k].merged.state == des[k].state,
{
    let w0 = merge_seq(des, cur);
    lemma_desired_in_head(w0, k);
    if k >= des.len() {
        lemma_current_only(des, cur, cur.len() as nat);
        let tail = current_only(des, cur, cur.len() as nat);
        let src = current_only_src(des, cur, cur.len() as nat);
        let a = k - des.len();
        assert(tail[a] == kept(cur[src[a]]));
        assert(w0[k] == tail[a]);
    } else {
        assert(w0[k] == paired(des[k], cur));
    }
}

/// Removal is never blocked: where the desired state only removes
/// interfaces, its claims do not contradict each other, whatever the
/// interfaces hold or are held by. Then only the controller graph that
/// is left decides whether there is a plan.
pub proof fn law_removals_raise_no_conflict(des: Seq<IfaceView>, cur: Seq<IfaceView>)
    requires
        forall|i: int| 0 <= i < des.len() ==> (#[trigger] des[i]).is_absent(),
    ensures
        membership_verdict(working_set(des, cur)) is Ok,
{
    let w = working_set(des, cur);
    assert forall|k: int|
        0 <= k < w.len() && (#[trigger] w[k]).desired is Some implies w[k].desired->0.is_absent()
        && w[k].merged.is_absent() by {
        lemma_desired_records(des, cur, k);
    }
    if has_controller_conflict(w) {
        let (i, j) = choose|i: int, j: int|
            0 <= i < w.len() && 0 <= j < w.len() && controller_conflict(w, i, j);
        assert(w[j].desired is Some);
    }
    if has_detach_conflict(w) {
        let (i, j) = choose|i: int, j: int|
            0 <= i < w.len() && 0 <= j < w.len() && detach_conflict(w, i, j);
        assert(w[j].desired is Some);
    }
    if has_unlisted_member(w) {
        let i = choose|i: int| 0 <= i < w.len() && not_in_port_list(w, i);
        assert(w[i].desired is Some);
    }
    if has_missing_controller(w) {
        let i = choose|i: int| 0 <= i < w.len() && missing_controller(w, i);
        assert(w[i].desired is Some);
    }
    if has_overbooked_port(w) {
        let (j1, p, j2) = choose|j1: int, p: int, j2: int|
            0 <= j1 < w.len() && 0 <= j2 < w.len() && overbooked(w, j1, p, j2);
        assert(w[j2].desired is Some);
    }
}

/// Two plans that hold the same controller graph give an interface the
/// same rank, in whatever order the two were built.
pub proof fn law_plans_rank_alike(p1: Seq<SlotView>, p2: Seq<SlotView>, i: int, j: int)
    requires
        valid_plan(p1),
        valid_plan(p2),
        same_graph(applied(p1), applied(p2)),
        0 <= i < p1.len(),
        0 <= j < p2.len(),
        same_node(p1[i].merged, p2[j].merged),
    ensures
        p1[i].merged.up_priority == p2[j].merged.up_priority,
{
    law_rank_ignores_order(applied(p1), applied(p2), i, j);
}

/// In a valid plan no interface refers to a controller that is not
/// there: the controller that an interface names is in the plan, can
/// hold members, and lists the interface.
pub proof fn law_no_dangling_controller(w: Seq<SlotView>, i: int)
    requires
        valid_plan(w),
        0 <= i < w.len(),
        !w[i].merged.is_absent(),
        w[i].merged.controller_name() is Some,
    ensures
        parent_index(applied(w), i) matches Some(k) && {
            &&& 0 <= k < w.len()
            &&& w[k].merged.name == w[i].merged.controller_name()->0
            &&& w[k].merged.holds_members()
            &&& w[k].merged.ports is Some
            &&& w[k].merged.ports->0.contains(w[i].merged.name)
        },
{
    let r = applied(w);
    assert(r[i] == w[i].merged);
    assert(parent_index(r, i) is Some);
    lemma_parent_in_range(r, i);
    let k = parent_index(r, i)->0;
    assert(r[k] == w[k].merged);
    let x = r[i].controller_name()->0;
    lemma_find_controller_names(keys_of(r), x, r[i].controller_type);
    assert(keys_of(r)[k] == r[k].key());
}

} // verus!
