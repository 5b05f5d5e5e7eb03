//! Identity of interfaces. An interface is identified by its name and its
//! kind. Kernel interfaces share one name space whatever their kind; each
//! user-space kind has a name space of its own.

use crate::model::iface::{IfaceView, InterfaceType};
use vstd::prelude::*;

verus! {

/// The identity of an interface.
pub struct Key {
    pub name: Seq<char>,
    pub iface_type: InterfaceType,
}

impl IfaceView {
    pub open spec fn key(self) -> Key {
        Key { name: self.name, iface_type: self.iface_type }
    }
}

/// The key under which a kernel interface of the given name is found.
pub open spec fn kernel_key(name: Seq<char>) -> Key {
    Key { name, iface_type: InterfaceType::Ethernet }
}

/// Whether two keys compete for one place in a collection: the names are
/// equal, and the kinds are equal too unless both are kernel kinds.
pub open spec fn same_slot(a: Key, b: Key) -> bool {
    &&& a.name == b.name
    &&& (a.iface_type.is_userspace() || b.iface_type.is_userspace()) ==> a.iface_type
        == b.iface_type
}

/// Whether no key of `keys` competes with `k`.
pub open spec fn slot_free(keys: Seq<Key>, k: Key) -> bool {
    forall|i: int| 0 <= i < keys.len() ==> !same_slot(#[trigger] keys[i], k)
}

/// Whether `i` is the first place of `keys` that competes with `k`.
pub open spec fn is_first_slot(keys: Seq<Key>, k: Key, i: int) -> bool {
    &&& 0 <= i < keys.len()
    &&& same_slot(keys[i], k)
    &&& forall|j: int| 0 <= j < i ==> !same_slot(#[trigger] keys[j], k)
}

/// The first place of `keys` that competes with `k`.
pub open spec fn find_slot(keys: Seq<Key>, k: Key) -> Option<int> {
    if exists|i: int| is_first_slot(keys, k, i) {
        Some(choose|i: int| is_first_slot(keys, k, i))
    } else {
        None
    }
}

/// Whether no two keys of `keys` compete for one place.
pub open spec fn unique_slots(keys: Seq<Key>) -> bool {
    forall|i: int, j: int|
        0 <= i < j < keys.len() ==> !same_slot(#[trigger] keys[i], #[trigger] keys[j])
}

/// The place of the key that equals `k` in name and kind.
pub open spec fn find_key(keys: Seq<Key>, k: Key) -> Option<int> {
    match find_slot(keys, k) {
        Some(i) => if keys[i] == k {
            Some(i)
        } else {
            None
        },
        None => None,
    }
}

/// The place of the controller that a member names. Where the member
/// states the controller's kind, the key is looked up as it stands. Where
/// it does not, a user-space bridge of that name is preferred to a kernel
/// interface of that name.
pub open spec fn find_controller(
    keys: Seq<Key>,
    name: Seq<char>,
    iface_type: Option<InterfaceType>,
) -> Option<int> {
    match iface_type {
        Some(t) => find_key(keys, Key { name, iface_type: t }),
        None => match find_key(keys, Key { name, iface_type: InterfaceType::OvsBridge }) {
            Some(i) => Some(i),
            None => find_slot(keys, kernel_key(name)),
        },
    }
}

/// A controller that is found has a place in the collection.
pub proof fn lemma_find_controller_in_range(
    keys: Seq<Key>,
    name: Seq<char>,
    iface_type: Option<InterfaceType>,
)
    ensures
        find_controller(keys, name, iface_type) matches Some(i) ==> 0 <= i < keys.len(),
{
    match iface_type {
        Some(t) => {
            lemma_find_slot_sound(keys, Key { name, iface_type: t });
        },
        None => {
            lemma_find_slot_sound(keys, Key { name, iface_type: InterfaceType::OvsBridge });
            lemma_find_slot_sound(keys, kernel_key(name));
        },
    }
}

/// A controller that is found bears the name it was looked up by.
pub proof fn lemma_find_controller_names(
    keys: Seq<Key>,
    name: Seq<char>,
    iface_type: Option<InterfaceType>,
)
    ensures
        find_controller(keys, name, iface_type) matches Some(i) ==> 0 <= i < keys.len()
            && keys[i].name == name,
{
    match iface_type {
        Some(t) => {
            lemma_find_slot_sound(keys, Key { name, iface_type: t });
        },
        None => {
            lemma_find_slot_sound(keys, Key { name, iface_type: InterfaceType::OvsBridge });
            lemma_find_slot_sound(keys, kernel_key(name));
        },
    }
}

pub proof fn lemma_same_slot_equivalence(a: Key, b: Key, c: Key)
    ensures
        same_slot(a, a),
        same_slot(a, b) ==> same_slot(b, a),
        same_slot(a, b) && same_slot(b, c) ==> same_slot(a, c),
{
}

/// The first competing place is the one that `find_slot` gives.
pub proof fn lemma_find_slot_is(keys: Seq<Key>, k: Key, i: int)
    requires
        is_first_slot(keys, k, i),
    ensures
        find_slot(keys, k) == Some(i),
{
    let j = choose|j: int| is_first_slot(keys, k, j);
    assert(is_first_slot(keys, k, j));
    if j < i {
        assert(!same_slot(keys[j], k));
    }
    if i < j {
        assert(!same_slot(keys[i], k));
    }
}

/// What `find_slot` gives is the first competing place, and it gives
/// none only where no key competes.
pub proof fn lemma_find_slot_sound(keys: Seq<Key>, k: Key)
    ensures
        find_slot(keys, k) matches Some(i) ==> is_first_slot(keys, k, i),
        find_slot(keys, k) is None <==> slot_free(keys, k),
{
    if exists|i: int| is_first_slot(keys, k, i) {
        let i = choose|i: int| is_first_slot(keys, k, i);
        assert(same_slot(keys[i], k));
    } else {
        if !slot_free(keys, k) {
            let j = choose|j: int| 0 <= j < keys.len() && same_slot(#[trigger] keys[j], k);
            lemma_first_exists(keys, k, j);
        }
    }
}

proof fn lemma_first_exists(keys: Seq<Key>, k: Key, j: int)
    requires
        0 <= j < keys.len(),
        same_slot(keys[j], k),
    ensures
        exists|i: int| is_first_slot(keys, k, i),
    decreases j,
{
    if forall|m: int| 0 <= m < j ==> !same_slot(#[trigger] keys[m], k) {
        assert(is_first_slot(keys, k, j));
    } else {
        let m = choose|m: int| 0 <= m < j && same_slot(#[trigger] keys[m], k);
        lemma_first_exists(keys, k, m);
    }
}

/// In a collection without competing keys, a key is found at its place.
pub proof fn lemma_find_own_slot(keys: Seq<Key>, i: int)
    requires
        unique_slots(keys),
        0 <= i < keys.len(),
    ensures
        find_slot(keys, keys[i]) == Some(i),
        find_key(keys, keys[i]) == Some(i),
{
    assert forall|j: int| 0 <= j < i implies !same_slot(#[trigger] keys[j], keys[i]) by {}
    assert(is_first_slot(keys, keys[i], i));
    lemma_find_slot_is(keys, keys[i], i);
}

/// In a collection without competing keys, any place that competes with
/// `k` is the one that `find_slot` gives.
pub proof fn lemma_find_slot_unique(keys: Seq<Key>, k: Key, i: int)
    requires
        unique_slots(keys),
        0 <= i < keys.len(),
        same_slot(keys[i], k),
    ensures
        find_slot(keys, k) == Some(i),
{
    assert forall|j: int| 0 <= j < i implies !same_slot(#[trigger] keys[j], k) by {
        if same_slot(keys[j], k) {
            lemma_same_slot_equivalence(keys[j], k, keys[i]);
            lemma_same_slot_equivalence(keys[i], k, keys[i]);
        }
    }
    assert(is_first_slot(keys, k, i));
    lemma_find_slot_is(keys, k, i);
}

} // verus!
