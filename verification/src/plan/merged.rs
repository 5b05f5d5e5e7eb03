//! The validated result: for every identity the desired record, the
//! current record and the record to apply, with membership resolved, the
//! controller graph checked and the activation order assigned.

use crate::model::error::{Failure, MergeError};
use crate::model::iface::{IfaceView, Interface, InterfaceType};
use crate::model::ifaces::{as_index, keys_of, slot_matches, views, Interfaces};
use crate::model::key::{
    find_key, find_slot, is_first_slot, kernel_key, lemma_find_slot_is, lemma_find_slot_sound, same_slot, slot_free, Key,
};
use crate::model::text::{distinct, names};
use crate::plan::claims::{check_membership, membership_verdict};
use crate::plan::enroll::{auto_enroll, enroll_members};
use crate::plan::merge::{
    applied, duplicate_opt, merge_all, merge_seq, opt_view, slot_views, SlotView,
};
use crate::plan::nesting::{check_nesting, nesting_verdict};
use crate::plan::order::{assign_priorities, ranked};
use crate::plan::prepare::{effective_current, effective_desired, prepare};
use crate::plan::resolve::{resolve_members, resolved};
use crate::plan::topology::{topologies_in, topologies_of};
use crate::proofs::laws::{lemma_plan_valid, valid_plan};
use vstd::prelude::*;

verus! {

/// What is known of one identity: the record that was asked for, the
/// record that is there, and the record to apply.
#[derive(Clone, Debug)]
pub struct MergedInterface {
    pub desired: Option<Interface>,
    pub current: Option<Interface>,
    pub for_apply: Option<Interface>,
}

/// A merged record as contracts see it.
pub struct MergedView {
    pub desired: Option<IfaceView>,
    pub current: Option<IfaceView>,
    pub for_apply: Option<IfaceView>,
}

impl View for MergedInterface {
    type V = MergedView;

    open spec fn view(&self) -> MergedView {
        MergedView {
            desired: opt_view(self.desired),
            current: opt_view(self.current),
            for_apply: opt_view(self.for_apply),
        }
    }
}

/// The merged record that a working record ends as.
pub open spec fn finished(s: SlotView) -> MergedView {
    MergedView { desired: s.desired, current: s.current, for_apply: Some(s.merged) }
}

/// The merged records that a working set ends as.
pub open spec fn finished_all(w: Seq<SlotView>) -> Seq<MergedView> {
    Seq::new(w.len(), |i: int| finished(w[i]))
}

/// The records to apply of a list of merged records, each of which has
/// one.
pub open spec fn to_apply(m: Seq<MergedView>) -> Seq<IfaceView> {
    Seq::new(m.len(), |i: int| m[i].for_apply->0)
}

/// The working set of a desired and a current collection: the records
/// merged per key, and a record for every member that a desired
/// controller names and no interface bears yet.
pub open spec fn working_set(des: Seq<IfaceView>, cur: Seq<IfaceView>) -> Seq<SlotView> {
    auto_enroll(merge_seq(des, cur))
}

/// The plan for two collections that are ready to be merged, or the fault
/// for which there is none. The desired claims are checked on the working
/// set; then membership is resolved, the controller graph is checked, and
/// every record gets its rank.
pub open spec fn plan_for(des: Seq<IfaceView>, cur: Seq<IfaceView>) -> Result<
    Seq<SlotView>,
    Failure,
> {
    let w = working_set(des, cur);
    match membership_verdict(w) {
        Err(f) => Err(f),
        Ok(_) => {
            let r = resolved(w);
            match nesting_verdict(applied(r)) {
                Err(f) => Err(f),
                Ok(_) => Ok(ranked(r)),
            }
        },
    }
}

/// The plan for a desired and a current collection, or the fault for
/// which there is none.
pub open spec fn plan(des: Seq<IfaceView>, cur: Seq<IfaceView>) -> Result<Seq<SlotView>, Failure> {
    plan_for(effective_desired(des, cur), effective_current(des, cur))
}

/// The validated collection of merged records.
pub struct MergedInterfaces {
    ifaces: Vec<MergedInterface>,
    relaxed_validation: bool,
    permissive: bool,
}

impl View for MergedInterfaces {
    type V = Seq<MergedView>;

    closed spec fn view(&self) -> Seq<MergedView> {
        Seq::new(self.ifaces@.len(), |i: int| self.ifaces@[i]@)
    }
}

impl MergedInterfaces {
    #[verifier::type_invariant]
    pub closed spec fn inv(&self) -> bool {
        forall|i: int| 0 <= i < self.ifaces.len() ==> (#[trigger] self.ifaces[i]).for_apply is Some
    }

    pub closed spec fn spec_relaxed_validation(&self) -> bool {
        self.relaxed_validation
    }

    pub closed spec fn spec_permissive(&self) -> bool {
        self.permissive
    }

    /// Builds the plan for a desired and a current collection, or says
    /// for which fault there is none. Every plan is valid. The two
    /// switches are kept for the caller and change nothing here.
    pub fn new(
        desired: Interfaces,
        current: Interfaces,
        relaxed_validation: bool,
        permissive: bool,
    ) -> (res: Result<MergedInterfaces, MergeError>)
        ensures
            match plan(desired@, current@) {
                Ok(w) => res matches Ok(m) && m@ == finished_all(w) && valid_plan(w)
                    && m.spec_relaxed_validation() == relaxed_validation && m.spec_permissive()
                    == permissive,
                Err(f) => res matches Err(e) && e.reports(f),
            },
    {
        let ghost dv = desired@;
        let ghost cv = current@;
        let (des, cur) = prepare(desired.into_vec(), current.into_vec());
        proof {
            lemma_plan_valid(dv, cv);
        }
        let w0 = merge_all(&des, &cur);
        let w1 = enroll_members(w0);
        match check_membership(&w1) {
            Err(f) => {
                return Err(MergeError::from_failure(f));
            },
            Ok(_) => {},
        }
        let w2 = resolve_members(&w1);
        match check_nesting(&w2) {
            Err(f) => {
                return Err(MergeError::from_failure(f));
            },
            Ok(_) => {},
        }
        let w3 = assign_priorities(&w2);
        let ghost wv = slot_views(w3@);
        let mut ifaces: Vec<MergedInterface> = Vec::new();
        let mut i: usize = 0;
        while i < w3.len()
            invariant
                i <= w3.len(),
                ifaces.len() == i,
                wv == slot_views(w3@),
                forall|k: int| 0 <= k < i ==> (#[trigger] ifaces[k])@ == finished(wv[k]),
                forall|k: int| 0 <= k < i ==> (#[trigger] ifaces[k]).for_apply is Some,
            decreases w3.len() - i,
        {
            proof {
                assert(wv[i as int] == w3[i as int]@);
            }
            ifaces.push(
                MergedInterface {
                    desired: duplicate_opt(&w3[i].desired),
                    current: duplicate_opt(&w3[i].current),
                    for_apply: Some(w3[i].merged.duplicate()),
                },
            );
            i += 1;
        }
        let m = MergedInterfaces { ifaces, relaxed_validation, permissive };
        proof {
            assert(m@ =~= finished_all(wv));
        }
        Ok(m)
    }

    pub fn len(&self) -> (r: usize)
        ensures
            r == self@.len(),
    {
        self.ifaces.len()
    }

    #[verifier::when_used_as_spec(spec_relaxed_validation)]
    pub fn relaxed_validation(&self) -> (r: bool)
        ensures
            r == self.spec_relaxed_validation(),
    {
        self.relaxed_validation
    }

    #[verifier::when_used_as_spec(spec_permissive)]
    pub fn permissive(&self) -> (r: bool)
        ensures
            r == self.spec_permissive(),
    {
        self.permissive
    }

    /// The first place whose record to apply competes with the key.
    fn find(&self, name: &String, iface_type: InterfaceType) -> (r: Option<usize>)
        ensures
            as_index(r) == find_slot(keys_of(to_apply(self@)), Key { name: name@, iface_type }),
            r matches Some(i) ==> i < self.ifaces.len() && self.ifaces[i as int]@ == self@[i as int]
                && self@[i as int].for_apply is Some,
    {
        proof {
            use_type_invariant(self);
        }
        let ghost keys = keys_of(to_apply(self@));
        let ghost k = Key { name: name@, iface_type };
        let mut i: usize = 0;
        while i < self.ifaces.len()
            invariant
                i <= self.ifaces.len(),
                keys == keys_of(to_apply(self@)),
                k == (Key { name: name@, iface_type }),
                forall|j: int|
                    0 <= j < self.ifaces.len() ==> (#[trigger] self.ifaces[j]).for_apply is Some,
                forall|j: int| 0 <= j < i ==> !same_slot(#[trigger] keys[j], k),
            decreases self.ifaces.len() - i,
        {
            proof {
                assert(self.ifaces[i as int].for_apply is Some);
                assert(self@[i as int] == self.ifaces[i as int]@);
                assert(keys[i as int] == self.ifaces[i as int].for_apply->0@.key());
            }
            match &self.ifaces[i].for_apply {
                Some(a) => {
                    if slot_matches(a.name(), a.iface_type(), name, iface_type) {
                        proof {
                            assert(is_first_slot(keys, k, i as int));
                            lemma_find_slot_is(keys, k, i as int);
                        }
                        return Some(i);
                    }
                },
                None => {},
            }
            i += 1;
        }
        proof {
            assert(slot_free(keys, k));
            lemma_find_slot_sound(keys, k);
        }
        None
    }

    /// The merged record of the interface of the given name and kind.
    pub fn get_iface(&self, name: &str, iface_type: InterfaceType) -> (r: Option<&MergedInterface>)
        ensures
            match find_key(keys_of(to_apply(self@)), Key { name: name@, iface_type }) {
                Some(i) => r matches Some(x) && x@ == self@[i],
                None => r is None,
            },
    {
        let n = name.to_owned();
        match self.find(&n, iface_type) {
            Some(i) => {
                proof {
                    lemma_find_slot_sound(
                        keys_of(to_apply(self@)),
                        Key { name: name@, iface_type },
                    );
                }
                match &self.ifaces[i].for_apply {
                    Some(a) => {
                        if a.iface_type() == iface_type {
                            Some(&self.ifaces[i])
                        } else {
                            None
                        }
                    },
                    None => None,
                }
            },
            None => None,
        }
    }

    /// The merged record of the kernel interface of the given name.
    pub fn kernel_iface(&self, name: &str) -> (r: Option<&MergedInterface>)
        ensures
            match find_slot(keys_of(to_apply(self@)), kernel_key(name@)) {
                Some(i) => r matches Some(x) && x@ == self@[i],
                None => r is None,
            },
    {
        let n = name.to_owned();
        match self.find(&n, InterfaceType::Ethernet) {
            Some(i) => Some(&self.ifaces[i]),
            None => None,
        }
    }

    /// The records to apply, in the order of the collection.
    pub fn applied_ifaces(&self) -> (r: Vec<Interface>)
        ensures
            views(r@) == to_apply(self@),
    {
        proof {
            use_type_invariant(self);
        }
        let mut r: Vec<Interface> = Vec::new();
        let mut i: usize = 0;
        while i < self.ifaces.len()
            invariant
                i <= self.ifaces.len(),
                r.len() == i,
                forall|j: int|
                    0 <= j < self.ifaces.len() ==> (#[trigger] self.ifaces[j]).for_apply is Some,
                forall|k: int| 0 <= k < i ==> (#[trigger] r[k])@ == self.ifaces[k].for_apply->0@,
            decreases self.ifaces.len() - i,
        {
            assert(self.ifaces[i as int].for_apply is Some);
            match &self.ifaces[i].for_apply {
                Some(a) => {
                    r.push(a.duplicate());
                },
                None => {},
            }
            i += 1;
        }
        proof {
            assert(views(r@) =~= to_apply(self@));
        }
        r
    }

    /// The topology signatures of the plan: one for every shape of stack
    /// below an interface that carries an IP configuration, each once.
    pub fn gen_topoligies(&self) -> (r: Vec<String>)
        ensures
            names(r@) == topologies_of(to_apply(self@)),
            distinct(names(r@)),
    {
        let applied = self.applied_ifaces();
        topologies_in(&applied)
    }

    /// The merged record at the given place.
    pub fn nth(&self, i: usize) -> (r: Option<&MergedInterface>)
        ensures
            i < self@.len() ==> (r matches Some(x) && x@ == self@[i as int]),
            i >= self@.len() ==> r is None,
    {
        if i < self.ifaces.len() {
            Some(&self.ifaces[i])
        } else {
            None
        }
    }
}

} // verus!
