//! The keyed collection of interfaces that states a desired or a current
//! configuration.

use crate::model::iface::{IfaceView, Interface, InterfaceType};
use crate::model::key::{
    find_key, find_slot, is_first_slot, lemma_find_slot_is, lemma_find_slot_sound,
    lemma_same_slot_equivalence, same_slot, slot_free, unique_slots, Key,
};
use vstd::prelude::*;

verus! {

/// The views of a list of interfaces.
pub open spec fn views(v: Seq<Interface>) -> Seq<IfaceView> {
    Seq::new(v.len(), |i: int| v[i]@)
}

/// The keys of a list of interface views.
pub open spec fn keys_of(s: Seq<IfaceView>) -> Seq<Key> {
    Seq::new(s.len(), |i: int| s[i].key())
}

/// A place in a list as contracts see it.
pub open spec fn as_index(o: Option<usize>) -> Option<int> {
    match o {
        Some(i) => Some(i as int),
        None => None,
    }
}

/// The collection that holds `x` in the place of the interface that
/// competes with it, or at the end where none does.
pub open spec fn push_view(s: Seq<IfaceView>, x: IfaceView) -> Seq<IfaceView> {
    match find_slot(keys_of(s), x.key()) {
        Some(i) => s.update(i, x),
        None => s.push(x),
    }
}

/// Whether two interfaces compete for one place in a collection.
pub fn slot_matches(n1: &String, t1: InterfaceType, n2: &String, t2: InterfaceType) -> (r: bool)
    ensures
        r == same_slot(
            Key { name: n1@, iface_type: t1 },
            Key { name: n2@, iface_type: t2 },
        ),
{
    if !(*n1 == *n2) {
        return false;
    }
    if t1.is_userspace() || t2.is_userspace() {
        t1 == t2
    } else {
        true
    }
}

/// The first place of `v` whose interface competes with the given key.
pub fn find_slot_in(v: &Vec<Interface>, name: &String, iface_type: InterfaceType) -> (r: Option<
    usize,
>)
    ensures
        as_index(r) == find_slot(keys_of(views(v@)), Key { name: name@, iface_type }),
        r matches Some(i) ==> i < v.len(),
{
    let ghost keys = keys_of(views(v@));
    let ghost k = Key { name: name@, iface_type };
    let mut i: usize = 0;
    while i < v.len()
        invariant
            i <= v.len(),
            keys == keys_of(views(v@)),
            k == (Key { name: name@, iface_type }),
            forall|j: int| 0 <= j < i ==> !same_slot(#[trigger] keys[j], k),
        decreases v.len() - i,
    {
        if slot_matches(v[i].name(), v[i].iface_type(), name, iface_type) {
            proof {
                assert(keys[i as int] == v[i as int]@.key());
                assert(is_first_slot(keys, k, i as int));
                lemma_find_slot_is(keys, k, i as int);
            }
            return Some(i);
        }
        proof {
            assert(keys[i as int] == v[i as int]@.key());
        }
        i += 1;
    }
    proof {
        assert(slot_free(keys, k));
        lemma_find_slot_sound(keys, k);
    }
    None
}

/// The place of the interface of `v` that has the given name and kind.
pub fn find_key_in(v: &Vec<Interface>, name: &String, iface_type: InterfaceType) -> (r: Option<
    usize,
>)
    ensures
        as_index(r) == find_key(keys_of(views(v@)), Key { name: name@, iface_type }),
        r matches Some(i) ==> i < v.len(),
{
    match find_slot_in(v, name, iface_type) {
        Some(i) => {
            proof {
                lemma_find_slot_sound(keys_of(views(v@)), Key { name: name@, iface_type });
                assert(keys_of(views(v@))[i as int] == v[i as int]@.key());
            }
            if v[i].iface_type() == iface_type {
                Some(i)
            } else {
                None
            }
        },
        None => None,
    }
}

/// Adding an interface to a collection without competing keys leaves it
/// without competing keys.
pub proof fn lemma_push_view_unique(s: Seq<IfaceView>, x: IfaceView)
    requires
        unique_slots(keys_of(s)),
    ensures
        unique_slots(keys_of(push_view(s, x))),
{
    let keys = keys_of(s);
    lemma_find_slot_sound(keys, x.key());
    let keys2 = keys_of(push_view(s, x));
    match find_slot(keys, x.key()) {
        Some(i) => {
            assert forall|a: int, b: int| 0 <= a < b < keys2.len() implies !same_slot(
                #[trigger] keys2[a],
                #[trigger] keys2[b],
            ) by {
                assert(keys2[a] == if a == i { x.key() } else { keys[a] });
                assert(keys2[b] == if b == i { x.key() } else { keys[b] });
                lemma_same_slot_equivalence(keys[a], x.key(), keys[i]);
                lemma_same_slot_equivalence(keys[b], x.key(), keys[i]);
                lemma_same_slot_equivalence(x.key(), keys[b], keys[i]);
                lemma_same_slot_equivalence(x.key(), keys[a], keys[i]);
                assert(!same_slot(keys[a], keys[b]));
            }
        },
        None => {
            assert forall|a: int, b: int| 0 <= a < b < keys2.len() implies !same_slot(
                #[trigger] keys2[a],
                #[trigger] keys2[b],
            ) by {
                assert(keys2[a] == keys[a]);
                if b < keys.len() {
                    assert(keys2[b] == keys[b]);
                } else {
                    assert(keys2[b] == x.key());
                }
            }
        },
    }
}

/// Adds an interface to a list that is held as a keyed collection. Where
/// the list holds one that competes with it, the new one takes its place.
pub fn push_iface(list: &mut Vec<Interface>, iface: Interface)
    ensures
        views(final(list)@) == push_view(views(old(list)@), iface@),
{
    let ghost before = views(list@);
    let ghost x = iface@;
    match find_slot_in(list, iface.name(), iface.iface_type()) {
        Some(i) => {
            list.set(i, iface);
            proof {
                assert(views(list@) =~= before.update(i as int, x));
            }
        },
        None => {
            list.push(iface);
            proof {
                assert(views(list@) =~= before.push(x));
            }
        },
    }
}

/// A keyed collection of interfaces: no two of them compete for a place.
pub struct Interfaces {
    ifaces: Vec<Interface>,
}

impl View for Interfaces {
    type V = Seq<IfaceView>;

    closed spec fn view(&self) -> Seq<IfaceView> {
        views(self.ifaces@)
    }
}

impl Interfaces {
    #[verifier::type_invariant]
    pub closed spec fn inv(&self) -> bool {
        unique_slots(keys_of(views(self.ifaces@)))
    }

    pub fn new() -> (r: Interfaces)
        ensures
            r@ == Seq::<IfaceView>::empty(),
    {
        let r = Interfaces { ifaces: Vec::new() };
        assert(r@ =~= Seq::<IfaceView>::empty());
        r
    }

    pub fn len(&self) -> (r: usize)
        ensures
            r == self@.len(),
    {
        self.ifaces.len()
    }

    /// Adds an interface. Where the collection holds one that competes
    /// with it, the new one takes its place.
    pub fn push(&mut self, iface: Interface)
        ensures
            final(self)@ == push_view(old(self)@, iface@),
    {
        proof {
            use_type_invariant(&*self);
        }
        let mut list: Vec<Interface> = Vec::new();
        std::mem::swap(&mut list, &mut self.ifaces);
        proof {
            lemma_push_view_unique(views(list@), iface@);
        }
        push_iface(&mut list, iface);
        self.ifaces = list;
    }

    /// The interface of the given name and kind.
    pub fn get_iface(&self, name: &str, iface_type: InterfaceType) -> (r: Option<&Interface>)
        ensures
            match find_key(keys_of(self@), Key { name: name@, iface_type }) {
                Some(i) => r matches Some(x) && x@ == self@[i],
                None => r is None,
            },
    {
        let n = name.to_owned();
        match find_key_in(&self.ifaces, &n, iface_type) {
            Some(i) => Some(&self.ifaces[i]),
            None => None,
        }
    }

    /// The interfaces in the order of the collection.
    pub fn into_vec(self) -> (r: Vec<Interface>)
        ensures
            views(r@) == self@,
            unique_slots(keys_of(self@)),
    {
        proof {
            use_type_invariant(&self);
        }
        self.ifaces
    }
}

} // verus!
