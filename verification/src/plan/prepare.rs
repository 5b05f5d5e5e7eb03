//! What is done to the two collections before they are merged. A desired
//! interface of unknown kind takes the kind of the current interface of
//! its name. Interfaces that the host leaves alone are dropped from both
//! collections, unless a desired controller takes them as its members.

use crate::model::iface::{IfaceView, Interface, InterfaceType};
use crate::model::ifaces::{find_key_in, find_slot_in, keys_of, push_iface, push_view, views};
use crate::model::key::{find_key, find_slot, kernel_key, Key};
use crate::model::text::{names, opt_names};
use vstd::prelude::*;

verus! {

/// The kind of the interface that bears `name` in `cur`: that of the
/// kernel interface of the name, or else an OVS bridge where one bears
/// the name.
pub open spec fn kind_in(cur: Seq<IfaceView>, name: Seq<char>) -> Option<InterfaceType> {
    match find_slot(keys_of(cur), kernel_key(name)) {
        Some(j) => Some(cur[j].iface_type),
        None => match find_key(
            keys_of(cur),
            Key { name, iface_type: InterfaceType::OvsBridge },
        ) {
            Some(_) => Some(InterfaceType::OvsBridge),
            None => None,
        },
    }
}

/// The desired interface with its kind made known: one of unknown kind
/// takes the kind of the current interface of its name.
pub open spec fn retyped(d: IfaceView, cur: Seq<IfaceView>) -> IfaceView {
    if d.iface_type is Unknown {
        match kind_in(cur, d.name) {
            Some(t) => IfaceView { iface_type: t, ..d },
            None => d,
        }
    } else {
        d
    }
}

/// The collection of the first `n` desired interfaces with their kinds
/// made known.
pub open spec fn known_upto(des: Seq<IfaceView>, cur: Seq<IfaceView>, n: nat) -> Seq<IfaceView>
    decreases n,
{
    if n == 0 {
        Seq::empty()
    } else {
        push_view(known_upto(des, cur, (n - 1) as nat), retyped(des[n - 1], cur))
    }
}

/// The desired collection with every kind made known.
pub open spec fn known(des: Seq<IfaceView>, cur: Seq<IfaceView>) -> Seq<IfaceView> {
    known_upto(des, cur, des.len())
}

/// Whether the kernel interface of the given name is in `s` and is left
/// alone there.
pub open spec fn kernel_ignored(s: Seq<IfaceView>, name: Seq<char>) -> bool {
    find_slot(keys_of(s), kernel_key(name)) matches Some(i) && s[i].state is Ignore
}

/// Whether any of the names is a kernel interface that `s` leaves alone.
pub open spec fn any_kernel_ignored(s: Seq<IfaceView>, l: Seq<Seq<char>>) -> bool {
    exists|p: int| 0 <= p < l.len() && kernel_ignored(s, #[trigger] l[p])
}

/// The member list through which the desired controller at `j` takes
/// interfaces that the host leaves alone. It takes none where it is not
/// up or states no list, where it lists an interface that the desired
/// state itself leaves alone, or where the controller is there already
/// with a member that the host leaves alone.
pub open spec fn manages(des: Seq<IfaceView>, cur: Seq<IfaceView>, j: int) -> Option<
    Seq<Seq<char>>,
> {
    let d = des[j];
    if !d.iface_type.is_controller() || !(d.state is Up) {
        None
    } else {
        match d.ports {
            Some(l) => if any_kernel_ignored(des, l) {
                None
            } else {
                match find_slot(keys_of(cur), d.key()) {
                    Some(c) => match cur[c].ports {
                        Some(lc) => if any_kernel_ignored(cur, lc) {
                            None
                        } else {
                            Some(l)
                        },
                        None => Some(l),
                    },
                    None => Some(l),
                }
            },
            None => None,
        }
    }
}

/// The desired collection after the first `k` names of one controller's
/// list were looked at: a name that no desired kernel interface bears,
/// and that the host leaves alone, has got a desired record that is up.
pub open spec fn manage_ports(
    acc: Seq<IfaceView>,
    cur: Seq<IfaceView>,
    l: Seq<Seq<char>>,
    k: nat,
) -> Seq<IfaceView>
    decreases k,
{
    if k == 0 {
        acc
    } else {
        let a = manage_ports(acc, cur, l, (k - 1) as nat);
        let name = l[k - 1];
        if find_slot(keys_of(a), kernel_key(name)) is None && kernel_ignored(cur, name) {
            a.push(
                IfaceView::fresh(
                    name,
                    cur[find_slot(keys_of(cur), kernel_key(name))->0].iface_type,
                ),
            )
        } else {
            a
        }
    }
}

/// The desired collection after the first `j` controllers were looked at.
pub open spec fn manage_upto(des: Seq<IfaceView>, cur: Seq<IfaceView>, j: nat) -> Seq<IfaceView>
    decreases j,
{
    if j == 0 {
        des
    } else {
        let a = manage_upto(des, cur, (j - 1) as nat);
        match manages(des, cur, j - 1) {
            Some(l) => manage_ports(a, cur, l, l.len()),
            None => a,
        }
    }
}

/// The desired collection with a record for every interface that the
/// host leaves alone and a desired controller takes.
pub open spec fn managed(des: Seq<IfaceView>, cur: Seq<IfaceView>) -> Seq<IfaceView> {
    manage_upto(des, cur, des.len())
}

/// Whether the interface of the given key is left alone: the desired
/// state says so, or it says nothing of it and the current state does.
pub open spec fn is_ignored(des: Seq<IfaceView>, cur: Seq<IfaceView>, k: Key) -> bool {
    match find_slot(keys_of(des), k) {
        Some(i) => des[i].state is Ignore,
        None => match find_slot(keys_of(cur), k) {
            Some(j) => cur[j].state is Ignore,
            None => false,
        },
    }
}

/// Those of the first `n` names of `l` that are not kernel interfaces
/// left alone.
pub open spec fn unignored_names(
    l: Seq<Seq<char>>,
    des: Seq<IfaceView>,
    cur: Seq<IfaceView>,
    n: nat,
) -> Seq<Seq<char>>
    decreases n,
{
    if n == 0 {
        Seq::empty()
    } else {
        let rest = unignored_names(l, des, cur, (n - 1) as nat);
        if is_ignored(des, cur, kernel_key(l[n - 1])) {
            rest
        } else {
            rest.push(l[n - 1])
        }
    }
}

/// The interface with the members that are left alone taken off its
/// list.
pub open spec fn stripped(v: IfaceView, des: Seq<IfaceView>, cur: Seq<IfaceView>) -> IfaceView {
    IfaceView {
        ports: match v.ports {
            Some(l) => Some(unignored_names(l, des, cur, l.len())),
            None => None,
        },
        ..v
    }
}

/// Those of the first `n` interfaces of `x` that are not left alone, each
/// with the members that are left alone taken off its list.
pub open spec fn without_ignored_upto(
    x: Seq<IfaceView>,
    des: Seq<IfaceView>,
    cur: Seq<IfaceView>,
    n: nat,
) -> Seq<IfaceView>
    decreases n,
{
    if n == 0 {
        Seq::empty()
    } else {
        let rest = without_ignored_upto(x, des, cur, (n - 1) as nat);
        if is_ignored(des, cur, x[n - 1].key()) {
            rest
        } else {
            rest.push(stripped(x[n - 1], des, cur))
        }
    }
}

/// The collection `x` without what is left alone.
pub open spec fn without_ignored(
    x: Seq<IfaceView>,
    des: Seq<IfaceView>,
    cur: Seq<IfaceView>,
) -> Seq<IfaceView> {
    without_ignored_upto(x, des, cur, x.len())
}

/// The desired collection as the merge takes it: kinds made known,
/// members taken from what the host leaves alone, and the rest of what
/// is left alone dropped.
pub open spec fn effective_desired(des: Seq<IfaceView>, cur: Seq<IfaceView>) -> Seq<IfaceView> {
    let d = managed(known(des, cur), cur);
    without_ignored(d, d, cur)
}

/// The current collection as the merge takes it: without what is left
/// alone.
pub open spec fn effective_current(des: Seq<IfaceView>, cur: Seq<IfaceView>) -> Seq<IfaceView> {
    let d = managed(known(des, cur), cur);
    without_ignored(cur, d, cur)
}

/// The kind of the interface that bears `name` in `cur`.
pub fn kind_among(cur: &Vec<Interface>, name: &String) -> (r: Option<InterfaceType>)
    ensures
        r == kind_in(views(cur@), name@),
{
    match find_slot_in(cur, name, InterfaceType::Ethernet) {
        Some(j) => {
            proof {
                assert(views(cur@)[j as int] == cur[j as int]@);
            }
            Some(cur[j].iface_type())
        },
        None => match find_key_in(cur, name, InterfaceType::OvsBridge) {
            Some(_) => Some(InterfaceType::OvsBridge),
            None => None,
        },
    }
}

/// Makes the kind of a desired interface known.
pub fn retype(d: &Interface, cur: &Vec<Interface>) -> (r: Interface)
    ensures
        r@ == retyped(d@, views(cur@)),
{
    if d.iface_type() == InterfaceType::Unknown {
        match kind_among(cur, d.name()) {
            Some(t) => Interface::from_parts(t, d.base_iface().duplicate(), None, None),
            None => d.duplicate(),
        }
    } else {
        d.duplicate()
    }
}

/// Makes the kinds of the desired interfaces known.
pub fn resolve_unknown(des: &Vec<Interface>, cur: &Vec<Interface>) -> (r: Vec<Interface>)
    ensures
        views(r@) == known(views(des@), views(cur@)),
{
    let mut r: Vec<Interface> = Vec::new();
    let mut i: usize = 0;
    proof {
        assert(views(r@) =~= Seq::<IfaceView>::empty());
    }
    while i < des.len()
        invariant
            i <= des.len(),
            views(r@) == known_upto(views(des@), views(cur@), i as nat),
        decreases des.len() - i,
    {
        proof {
            assert(views(des@)[i as int] == des[i as int]@);
        }
        let x = retype(&des[i], cur);
        push_iface(&mut r, x);
        i += 1;
    }
    r
}

/// Whether the kernel interface of the given name is in `s` and is left
/// alone there.
pub fn kernel_ignored_in(s: &Vec<Interface>, name: &String) -> (r: bool)
    ensures
        r == kernel_ignored(views(s@), name@),
{
    match find_slot_in(s, name, InterfaceType::Ethernet) {
        Some(i) => {
            proof {
                assert(views(s@)[i as int] == s[i as int]@);
            }
            s[i].is_ignore()
        },
        None => false,
    }
}

/// Whether any of the names is a kernel interface that `s` leaves alone.
pub fn any_kernel_ignored_in(s: &Vec<Interface>, l: &Vec<String>) -> (r: bool)
    ensures
        r == any_kernel_ignored(views(s@), names(l@)),
{
    let ghost lv = names(l@);
    let mut p: usize = 0;
    while p < l.len()
        invariant
            p <= l.len(),
            lv == names(l@),
            forall|q: int| 0 <= q < p ==> !kernel_ignored(views(s@), #[trigger] lv[q]),
        decreases l.len() - p,
    {
        proof {
            assert(lv[p as int] == l[p as int]@);
        }
        if kernel_ignored_in(s, &l[p]) {
            return true;
        }
        p += 1;
    }
    false
}

/// The member list through which the desired controller at `j` takes
/// interfaces that the host leaves alone.
pub fn manages_at(des: &Vec<Interface>, cur: &Vec<Interface>, j: usize) -> (r: Option<Vec<String>>)
    requires
        j < des.len(),
    ensures
        opt_names(r) == manages(views(des@), views(cur@), j as int),
{
    let d = &des[j];
    proof {
        assert(views(des@)[j as int] == d@);
    }
    if !d.iface_type().is_controller() || !d.is_up() {
        return None;
    }
    match d.ports() {
        Some(l) => {
            if any_kernel_ignored_in(des, &l) {
                return None;
            }
            match find_slot_in(cur, d.name(), d.iface_type()) {
                Some(c) => {
                    proof {
                        assert(views(cur@)[c as int] == cur[c as int]@);
                    }
                    match cur[c].ports() {
                        Some(lc) => {
                            if any_kernel_ignored_in(cur, &lc) {
                                None
                            } else {
                                Some(l)
                            }
                        },
                        None => Some(l),
                    }
                },
                None => Some(l),
            }
        },
        None => None,
    }
}

/// Gives every interface that the host leaves alone and a desired
/// controller takes a desired record.
pub fn manage_ports_of(des: Vec<Interface>, cur: &Vec<Interface>) -> (r: Vec<Interface>)
    ensures
        views(r@) == managed(views(des@), views(cur@)),
{
    let ghost d0 = views(des@);
    let ghost cv = views(cur@);
    let n = des.len();
    let mut taken: Vec<Option<Vec<String>>> = Vec::new();
    let mut j: usize = 0;
    while j < n
        invariant
            j <= n,
            n == des.len(),
            d0 == views(des@),
            cv == views(cur@),
            taken.len() == j,
            forall|a: int| 0 <= a < j ==> opt_names(#[trigger] taken[a]) == manages(d0, cv, a),
        decreases n - j,
    {
        taken.push(manages_at(&des, cur, j));
        j += 1;
    }
    let mut des = des;
    let mut j: usize = 0;
    while j < n
        invariant
            j <= n,
            n == d0.len(),
            cv == views(cur@),
            taken.len() == n,
            forall|a: int| 0 <= a < n ==> opt_names(#[trigger] taken[a]) == manages(d0, cv, a),
            views(des@) == manage_upto(d0, cv, j as nat),
        decreases n - j,
    {
        match &taken[j] {
            Some(l) => {
                let ghost acc = views(des@);
                let ghost lv = names(l@);
                let mut k: usize = 0;
                while k < l.len()
                    invariant
                        k <= l.len(),
                        cv == views(cur@),
                        lv == names(l@),
                        views(des@) == manage_ports(acc, cv, lv, k as nat),
                    decreases l.len() - k,
                {
                    let ghost a = views(des@);
                    proof {
                        assert(lv[k as int] == l[k as int]@);
                    }
                    if find_slot_in(&des, &l[k], InterfaceType::Ethernet).is_none() {
                        match find_slot_in(cur, &l[k], InterfaceType::Ethernet) {
                            Some(c) => {
                                proof {
                                    assert(cv[c as int] == cur[c as int]@);
                                }
                                if cur[c].is_ignore() {
                                    let x = Interface::from_parts(
                                        cur[c].iface_type(),
                                        crate::model::iface::BaseInterface::named(l[k].as_str()),
                                        None,
                                        None,
                                    );
                                    let ghost xv = x@;
                                    des.push(x);
                                    proof {
                                        assert(views(des@) =~= a.push(xv));
                                    }
                                }
                            },
                            None => {},
                        }
                    }
                    k += 1;
                }
            },
            None => {},
        }
        j += 1;
    }
    des
}

/// Whether the interface of the given key is left alone.
pub fn is_ignored_in(
    des: &Vec<Interface>,
    cur: &Vec<Interface>,
    name: &String,
    iface_type: InterfaceType,
) -> (r: bool)
    ensures
        r == is_ignored(views(des@), views(cur@), Key { name: name@, iface_type }),
{
    match find_slot_in(des, name, iface_type) {
        Some(i) => {
            proof {
                assert(views(des@)[i as int] == des[i as int]@);
            }
            des[i].is_ignore()
        },
        None => match find_slot_in(cur, name, iface_type) {
            Some(j) => {
                proof {
                    assert(views(cur@)[j as int] == cur[j as int]@);
                }
                cur[j].is_ignore()
            },
            None => false,
        },
    }
}

/// Takes the members that are left alone off a member list.
pub fn strip_names(l: &Vec<String>, des: &Vec<Interface>, cur: &Vec<Interface>) -> (r: Vec<String>)
    ensures
        names(r@) == unignored_names(names(l@), views(des@), views(cur@), l.len() as nat),
{
    let ghost lv = names(l@);
    let mut r: Vec<String> = Vec::new();
    let mut p: usize = 0;
    proof {
        assert(names(r@) =~= Seq::<Seq<char>>::empty());
    }
    while p < l.len()
        invariant
            p <= l.len(),
            lv == names(l@),
            names(r@) == unignored_names(lv, views(des@), views(cur@), p as nat),
        decreases l.len() - p,
    {
        proof {
            assert(lv[p as int] == l[p as int]@);
        }
        let ghost before = names(r@);
        if !is_ignored_in(des, cur, &l[p], InterfaceType::Ethernet) {
            r.push(l[p].clone());
            proof {
                assert(names(r@) =~= before.push(lv[p as int]));
            }
        }
        p += 1;
    }
    r
}

/// Takes the members that are left alone off the list of an interface.
pub fn strip_ports(v: &Interface, des: &Vec<Interface>, cur: &Vec<Interface>) -> (r: Interface)
    ensures
        r@ == stripped(v@, views(des@), views(cur@)),
{
    let ports = match v.ports() {
        Some(l) => Some(strip_names(&l, des, cur)),
        None => None,
    };
    Interface::from_parts(v.iface_type(), v.base_iface().duplicate(), ports, v.parent())
}

/// Drops from `x` what is left alone.
pub fn drop_ignored(x: &Vec<Interface>, des: &Vec<Interface>, cur: &Vec<Interface>) -> (r: Vec<
    Interface,
>)
    ensures
        views(r@) == without_ignored(views(x@), views(des@), views(cur@)),
{
    let ghost xv = views(x@);
    let mut r: Vec<Interface> = Vec::new();
    let mut i: usize = 0;
    proof {
        assert(views(r@) =~= Seq::<IfaceView>::empty());
    }
    while i < x.len()
        invariant
            i <= x.len(),
            xv == views(x@),
            views(r@) == without_ignored_upto(xv, views(des@), views(cur@), i as nat),
        decreases x.len() - i,
    {
        proof {
            assert(xv[i as int] == x[i as int]@);
        }
        let ghost before = views(r@);
        if !is_ignored_in(des, cur, x[i].name(), x[i].iface_type()) {
            let s = strip_ports(&x[i], des, cur);
            let ghost sv = s@;
            r.push(s);
            proof {
                assert(views(r@) =~= before.push(sv));
            }
        }
        i += 1;
    }
    r
}

/// Prepares the two collections for the merge.
pub fn prepare(des: Vec<Interface>, cur: Vec<Interface>) -> (r: (Vec<Interface>, Vec<Interface>))
    ensures
        views(r.0@) == effective_desired(views(des@), views(cur@)),
        views(r.1@) == effective_current(views(des@), views(cur@)),
{
    let d1 = resolve_unknown(&des, &cur);
    let d2 = manage_ports_of(d1, &cur);
    let d3 = drop_ignored(&d2, &d2, &cur);
    let c3 = drop_ignored(&cur, &d2, &cur);
    (d3, c3)
}

} // verus!
