//! The rank of an interface depends on the controller graph alone, not on
//! the order in which the interfaces are held.

use crate::model::iface::{IfaceView, InterfaceType};
use crate::model::ifaces::keys_of;
use crate::model::key::{
    find_controller, find_key, find_slot, kernel_key, lemma_find_slot_sound,
    lemma_find_slot_unique, same_slot, unique_slots, Key,
};
use crate::plan::nesting::level;
use crate::plan::order::rank_of;
use vstd::prelude::*;

verus! {

/// Whether two records stand for one node of the controller graph: the
/// same interface, removed in both or in neither, naming the same
/// controller.
pub open spec fn same_node(x: IfaceView, y: IfaceView) -> bool {
    &&& x.key() == y.key()
    &&& x.is_absent() == y.is_absent()
    &&& x.controller == y.controller
    &&& x.controller_type == y.controller_type
}

/// Whether `b` holds a node for the record at `i` of `a`.
pub open spec fn has_node(a: Seq<IfaceView>, i: int, b: Seq<IfaceView>) -> bool {
    exists|j: int| 0 <= j < b.len() && same_node(a[i], b[j])
}

/// Whether two collections hold the same controller graph, in whatever
/// order: each holds a node for every record of the other.
pub open spec fn same_graph(a: Seq<IfaceView>, b: Seq<IfaceView>) -> bool {
    &&& forall|i: int| 0 <= i < a.len() ==> #[trigger] has_node(a, i, b)
    &&& forall|j: int| 0 <= j < b.len() ==> #[trigger] has_node(b, j, a)
}

/// In two collections of one graph a key is found in both or in
/// neither, and what is found is one node.
pub proof fn lemma_same_graph_find(a: Seq<IfaceView>, b: Seq<IfaceView>, q: Key)
    requires
        unique_slots(keys_of(a)),
        unique_slots(keys_of(b)),
        same_graph(a, b),
    ensures
        find_slot(keys_of(a), q) is Some <==> find_slot(keys_of(b), q) is Some,
        find_slot(keys_of(a), q) matches Some(k) ==> 0 <= k < a.len() && 0 <= find_slot(
            keys_of(b),
            q,
        )->0 < b.len() && same_node(a[k], b[find_slot(keys_of(b), q)->0]),
        find_key(keys_of(a), q) is Some <==> find_key(keys_of(b), q) is Some,
        find_key(keys_of(a), q) matches Some(k) ==> same_node(
            a[k],
            b[find_key(keys_of(b), q)->0],
        ),
{
    let ka = keys_of(a);
    let kb = keys_of(b);
    lemma_find_slot_sound(ka, q);
    lemma_find_slot_sound(kb, q);
    match find_slot(ka, q) {
        Some(k) => {
            assert(has_node(a, k, b));
            let j = choose|j: int| 0 <= j < b.len() && same_node(a[k], b[j]);
            assert(ka[k] == a[k].key());
            assert(kb[j] == b[j].key());
            lemma_find_slot_unique(kb, q, j);
        },
        None => {
            if let Some(j) = find_slot(kb, q) {
                assert(has_node(b, j, a));
                let k = choose|k: int| 0 <= k < a.len() && same_node(b[j], a[k]);
                assert(ka[k] == a[k].key());
                assert(kb[j] == b[j].key());
                assert(same_slot(ka[k], q));
            }
        },
    }
}

/// In two collections of one graph an interface has the same number of
/// controllers above it.
pub proof fn lemma_same_graph_level(
    a: Seq<IfaceView>,
    b: Seq<IfaceView>,
    i: int,
    j: int,
    fuel: nat,
)
    requires
        unique_slots(keys_of(a)),
        unique_slots(keys_of(b)),
        same_graph(a, b),
        0 <= i < a.len(),
        0 <= j < b.len(),
        same_node(a[i], b[j]),
    ensures
        level(a, i, fuel) == level(b, j, fuel),
    decreases fuel,
{
    if fuel > 0 {
        if !a[i].is_absent() && !a[i].iface_type.is_userspace() {
            if let Some(x) = a[i].controller_name() {
                let t = a[i].controller_type;
                match t {
                    Some(tt) => {
                        lemma_same_graph_find(a, b, Key { name: x, iface_type: tt });
                    },
                    None => {
                        lemma_same_graph_find(
                            a,
                            b,
                            Key { name: x, iface_type: InterfaceType::OvsBridge },
                        );
                        lemma_same_graph_find(a, b, kernel_key(x));
                    },
                }
                match find_controller(keys_of(a), x, t) {
                    Some(k) => {
                        crate::model::key::lemma_find_controller_in_range(keys_of(a), x, t);
                        crate::model::key::lemma_find_controller_in_range(keys_of(b), x, t);
                        let k2 = find_controller(keys_of(b), x, t)->0;
                        assert(same_node(a[k], b[k2]));
                        lemma_same_graph_level(a, b, k, k2, (fuel - 1) as nat);
                    },
                    None => {},
                }
            }
        }
    }
}

/// The same graph gives the same rank to an interface, however the
/// interfaces were enumerated.
pub proof fn law_rank_ignores_order(a: Seq<IfaceView>, b: Seq<IfaceView>, i: int, j: int)
    requires
        unique_slots(keys_of(a)),
        unique_slots(keys_of(b)),
        same_graph(a, b),
        0 <= i < a.len(),
        0 <= j < b.len(),
        same_node(a[i], b[j]),
    ensures
        rank_of(a, i) == rank_of(b, j),
{
    lemma_same_graph_level(a, b, i, j, (crate::plan::nesting::MAX_DEPTH + 1) as nat);
}

} // verus!
