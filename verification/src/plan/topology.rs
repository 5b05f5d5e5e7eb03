//! Topology signatures. An interface that carries an IP configuration is
//! the top of a stack; the kinds of the interfaces from the top down to a
//! leaf, behind a tag for the IP configuration, are the signature of the
//! stack.

use crate::model::iface::{IfaceView, Interface, InterfaceType, Ipv4Mode, Ipv6Mode};
use crate::model::ifaces::{find_key_in, find_slot_in, keys_of, views};
use crate::model::key::{find_key, find_slot, kernel_key, Key};
use crate::model::text::{contains_name, names};
use vstd::prelude::*;
use vstd::string::*;

verus! {

/// The separator between the parts of a signature.
pub open spec fn arrow() -> Seq<char> {
    " -> "@
}

pub open spec fn ipv4_tag(m: Ipv4Mode) -> Seq<char> {
    match m {
        Ipv4Mode::Static => "static_ip4"@,
        Ipv4Mode::Dhcp => "dhcp_ip4"@,
        Ipv4Mode::Disabled => "disabled_ip4"@,
    }
}

pub open spec fn ipv6_tag(m: Ipv6Mode) -> Seq<char> {
    match m {
        Ipv6Mode::Auto => "auto_ip6"@,
        Ipv6Mode::Dhcp => "dhcp_ip6"@,
        Ipv6Mode::Disabled => "disabled_ip6"@,
    }
}

/// The tag for the IP configuration of an interface: the tags of what is
/// stated for IPv4 and for IPv6, with a comma between the two.
pub open spec fn ip_tag(v: IfaceView) -> Seq<char> {
    match (v.ipv4, v.ipv6) {
        (Some(a), Some(b)) => ipv4_tag(a) + ","@ + ipv6_tag(b),
        (Some(a), None) => ipv4_tag(a),
        (None, Some(b)) => ipv6_tag(b),
        (None, None) => Seq::empty(),
    }
}

/// Whether an interface is the top of a stack: it is not being removed
/// and gets addresses, for IPv4 or for IPv6.
pub open spec fn is_top(v: IfaceView) -> bool {
    &&& !v.is_absent()
    &&& (v.ipv4 matches Some(a) && !(a is Disabled)) || (v.ipv6 matches Some(b) && !(b is Disabled))
}

/// The place of the interface that lies below the one at `i` under the
/// given name: a kernel interface that is not being removed. The internal
/// interfaces of an OVS bridge do not lie below it.
pub open spec fn lower_of(r: Seq<IfaceView>, i: int, name: Seq<char>) -> Option<int> {
    match find_slot(keys_of(r), kernel_key(name)) {
        Some(k) => if !r[k].is_absent() && !(r[i].iface_type is OvsBridge && r[k].iface_type
            is OvsInterface) {
            Some(k)
        } else {
            None
        },
        None => None,
    }
}

/// The places of the interfaces that lie below the one at `i` under the
/// first `n` names of `l`.
pub open spec fn lowers_among(r: Seq<IfaceView>, i: int, l: Seq<Seq<char>>, n: nat) -> Seq<int>
    decreases n,
{
    if n == 0 {
        Seq::empty()
    } else {
        let rest = lowers_among(r, i, l, (n - 1) as nat);
        match lower_of(r, i, l[n - 1]) {
            Some(k) => rest.push(k),
            None => rest,
        }
    }
}

/// The place of the OVS bridge that holds the internal interface `v`.
pub open spec fn bridge_of(r: Seq<IfaceView>, v: IfaceView) -> Option<int> {
    match v.controller_name() {
        Some(x) => match find_key(
            keys_of(r),
            Key { name: x, iface_type: InterfaceType::OvsBridge },
        ) {
            Some(k) => if !r[k].is_absent() {
                Some(k)
            } else {
                None
            },
            None => None,
        },
        None => None,
    }
}

/// The places of the interfaces that lie below the one at `i`: the
/// members of a controller, the interface that a VLAN is stacked on, the
/// bridge of an OVS internal interface.
pub open spec fn lowers(r: Seq<IfaceView>, i: int) -> Seq<int> {
    let v = r[i];
    if v.is_absent() {
        Seq::empty()
    } else if v.iface_type.is_controller() {
        match v.ports {
            Some(l) => lowers_among(r, i, l, l.len()),
            None => Seq::empty(),
        }
    } else if v.iface_type is Vlan {
        match v.parent {
            Some(p) => lowers_among(r, i, seq![p], 1),
            None => Seq::empty(),
        }
    } else if v.iface_type is OvsInterface {
        match bridge_of(r, v) {
            Some(k) => seq![k],
            None => Seq::empty(),
        }
    } else {
        Seq::empty()
    }
}

/// Every chain of `cs` with the kind `t` put in front.
pub open spec fn prefixed(t: InterfaceType, cs: Seq<Seq<InterfaceType>>) -> Seq<
    Seq<InterfaceType>,
> {
    Seq::new(cs.len(), |k: int| seq![t] + cs[k])
}

/// The kinds along every way down from the interface at `i` to a leaf,
/// in the order of the interfaces below. A way ends after `fuel` steps
/// at the latest.
pub open spec fn chain_list(r: Seq<IfaceView>, i: int, fuel: nat) -> Seq<Seq<InterfaceType>>
    decreases fuel, 1nat, 0nat,
{
    if fuel == 0 || lowers(r, i).len() == 0 {
        seq![seq![r[i].iface_type]]
    } else {
        chains_through(r, i, lowers(r, i), lowers(r, i).len(), fuel)
    }
}

/// The ways down from the interface at `i` that lead through the first
/// `n` of the places `ls` below it.
pub open spec fn chains_through(
    r: Seq<IfaceView>,
    i: int,
    ls: Seq<int>,
    n: nat,
    fuel: nat,
) -> Seq<Seq<InterfaceType>>
    decreases fuel, 0nat, n,
{
    if n == 0 || fuel == 0 {
        Seq::empty()
    } else {
        chains_through(r, i, ls, (n - 1) as nat, fuel) + prefixed(
            r[i].iface_type,
            chain_list(r, ls[n - 1], (fuel - 1) as nat),
        )
    }
}

/// The signature of a chain of kinds behind a tag.
pub open spec fn signature(tag: Seq<char>, chain: Seq<InterfaceType>) -> Seq<char>
    decreases chain.len(),
{
    if chain.len() == 0 {
        tag
    } else {
        signature(tag, chain.drop_last()) + arrow() + chain.last().tag()
    }
}

/// The signatures of the stacks below the top at `t`.
pub open spec fn top_signatures(r: Seq<IfaceView>, t: int) -> Seq<Seq<char>> {
    let cs = chain_list(r, t, r.len());
    Seq::new(cs.len(), |k: int| signature(ip_tag(r[t]), cs[k]))
}

/// The signatures of the stacks below the tops among the first `n`
/// interfaces.
pub open spec fn signatures_upto(r: Seq<IfaceView>, n: nat) -> Seq<Seq<char>>
    decreases n,
{
    if n == 0 {
        Seq::empty()
    } else {
        let rest = signatures_upto(r, (n - 1) as nat);
        if is_top(r[n - 1]) {
            rest + top_signatures(r, n - 1)
        } else {
            rest
        }
    }
}

/// The first `n` of `s` with each name kept where it comes first.
pub open spec fn dedup_upto(s: Seq<Seq<char>>, n: nat) -> Seq<Seq<char>>
    decreases n,
{
    if n == 0 {
        Seq::empty()
    } else {
        let rest = dedup_upto(s, (n - 1) as nat);
        if rest.contains(s[n - 1]) {
            rest
        } else {
            rest.push(s[n - 1])
        }
    }
}

/// The signatures of all stacks of a collection, each once.
pub open spec fn topologies_of(r: Seq<IfaceView>) -> Seq<Seq<char>> {
    let all = signatures_upto(r, r.len());
    dedup_upto(all, all.len())
}

/// What `dedup_upto` gives holds no name twice, and holds exactly the
/// names among the first `n` of `s`.
pub proof fn lemma_dedup(s: Seq<Seq<char>>, n: nat)
    requires
        n <= s.len(),
    ensures
        crate::model::text::distinct(dedup_upto(s, n)),
        forall|x: Seq<char>|
            dedup_upto(s, n).contains(x) <==> exists|k: int| 0 <= k < n && s[k] == x,
    decreases n,
{
    if n > 0 {
        let rest = dedup_upto(s, (n - 1) as nat);
        lemma_dedup(s, (n - 1) as nat);
        let full = dedup_upto(s, n);
        assert forall|x: Seq<char>| full.contains(x) <==> exists|k: int|
            0 <= k < n && s[k] == x by {
            if full.contains(x) {
                let a = choose|a: int| 0 <= a < full.len() && full[a] == x;
                if a < rest.len() {
                    assert(rest[a] == x);
                    assert(rest.contains(x));
                    let k = choose|k: int| 0 <= k < n - 1 && s[k] == x;
                    assert(0 <= k < n && s[k] == x);
                } else {
                    assert(s[n - 1] == x);
                }
            }
            if exists|k: int| 0 <= k < n && s[k] == x {
                let k = choose|k: int| 0 <= k < n && s[k] == x;
                if k < n - 1 {
                    assert(rest.contains(x));
                    let a = choose|a: int| 0 <= a < rest.len() && rest[a] == x;
                    assert(full[a] == x);
                } else if rest.contains(x) {
                    let a = choose|a: int| 0 <= a < rest.len() && rest[a] == x;
                    assert(full[a] == x);
                } else {
                    assert(full[full.len() - 1] == x);
                }
            }
        }
        if !rest.contains(s[n - 1]) {
            assert forall|a: int, b: int| 0 <= a < b < full.len() implies full[a] != full[b] by {
                if b == rest.len() {
                    if full[a] == full[b] {
                        assert(rest[a] == s[n - 1]);
                        assert(rest.contains(s[n - 1]));
                    }
                } else {
                    assert(rest[a] != rest[b]);
                }
            }
        }
    }
}

/// The places held by a list of indices.
pub open spec fn places(v: Seq<usize>) -> Seq<int> {
    Seq::new(v.len(), |k: int| v[k] as int)
}

/// The chains held by a list of lists of kinds.
pub open spec fn chains_view(v: Seq<Vec<InterfaceType>>) -> Seq<Seq<InterfaceType>> {
    Seq::new(v.len(), |k: int| v[k]@)
}

pub fn ip_tag_of(v: &Interface) -> (r: String)
    ensures
        r@ == ip_tag(v@),
{
    let base = v.base_iface();
    let mut r = String::new();
    match base.ipv4 {
        Some(Ipv4Mode::Static) => {
            r.append("static_ip4");
        },
        Some(Ipv4Mode::Dhcp) => {
            r.append("dhcp_ip4");
        },
        Some(Ipv4Mode::Disabled) => {
            r.append("disabled_ip4");
        },
        None => {},
    }
    if base.ipv4.is_some() && base.ipv6.is_some() {
        r.append(",");
    }
    match base.ipv6 {
        Some(Ipv6Mode::Auto) => {
            r.append("auto_ip6");
        },
        Some(Ipv6Mode::Dhcp) => {
            r.append("dhcp_ip6");
        },
        Some(Ipv6Mode::Disabled) => {
            r.append("disabled_ip6");
        },
        None => {},
    }
    proof {
        assert(r@ =~= ip_tag(v@));
    }
    r
}

pub fn is_top_iface(v: &Interface) -> (r: bool)
    ensures
        r == is_top(v@),
{
    if v.is_absent() {
        return false;
    }
    let base = v.base_iface();
    let v4 = match base.ipv4 {
        Some(Ipv4Mode::Static) | Some(Ipv4Mode::Dhcp) => true,
        _ => false,
    };
    let v6 = match base.ipv6 {
        Some(Ipv6Mode::Auto) | Some(Ipv6Mode::Dhcp) => true,
        _ => false,
    };
    v4 || v6
}

/// The place of the interface that lies below the one at `i` under the
/// given name.
pub fn lower_at(v: &Vec<Interface>, i: usize, name: &String) -> (r: Option<usize>)
    requires
        i < v.len(),
    ensures
        crate::model::ifaces::as_index(r) == lower_of(views(v@), i as int, name@),
        r matches Some(k) ==> k < v.len(),
{
    proof {
        assert(views(v@)[i as int] == v[i as int]@);
    }
    match find_slot_in(v, name, InterfaceType::Ethernet) {
        Some(k) => {
            proof {
                assert(views(v@)[k as int] == v[k as int]@);
            }
            let inner = v[i].iface_type() == InterfaceType::OvsBridge && v[k].iface_type()
                == InterfaceType::OvsInterface;
            if !v[k].is_absent() && !inner {
                Some(k)
            } else {
                None
            }
        },
        None => None,
    }
}

/// The places of the interfaces that lie below the one at `i` under the
/// names of `l`.
pub fn lowers_among_at(v: &Vec<Interface>, i: usize, l: &Vec<String>) -> (r: Vec<usize>)
    requires
        i < v.len(),
    ensures
        places(r@) == lowers_among(views(v@), i as int, names(l@), l.len() as nat),
        forall|k: int| 0 <= k < r.len() ==> r[k] < v.len(),
{
    let ghost lv = names(l@);
    let mut r: Vec<usize> = Vec::new();
    let mut n: usize = 0;
    proof {
        assert(places(r@) =~= Seq::<int>::empty());
    }
    while n < l.len()
        invariant
            n <= l.len(),
            i < v.len(),
            lv == names(l@),
            places(r@) == lowers_among(views(v@), i as int, lv, n as nat),
            forall|k: int| 0 <= k < r.len() ==> r[k] < v.len(),
        decreases l.len() - n,
    {
        proof {
            assert(lv[n as int] == l[n as int]@);
        }
        let ghost before = places(r@);
        match lower_at(v, i, &l[n]) {
            Some(k) => {
                r.push(k);
                proof {
                    assert(places(r@) =~= before.push(k as int));
                }
            },
            None => {},
        }
        n += 1;
    }
    r
}

/// The places of the interfaces that lie below the one at `i`.
pub fn lowers_at(v: &Vec<Interface>, i: usize) -> (r: Vec<usize>)
    requires
        i < v.len(),
    ensures
        places(r@) == lowers(views(v@), i as int),
        forall|k: int| 0 <= k < r.len() ==> r[k] < v.len(),
{
    let x = &v[i];
    let ghost rv = views(v@);
    proof {
        assert(rv[i as int] == x@);
    }
    let mut none: Vec<usize> = Vec::new();
    proof {
        assert(places(none@) =~= Seq::<int>::empty());
    }
    if x.is_absent() {
        return none;
    }
    let t = x.iface_type();
    if t.is_controller() {
        match x.ports() {
            Some(l) => lowers_among_at(v, i, &l),
            None => none,
        }
    } else if t == InterfaceType::Vlan {
        match x.parent() {
            Some(p) => {
                let mut l: Vec<String> = Vec::new();
                l.push(p);
                proof {
                    assert(names(l@) =~= seq![x@.parent->0]);
                }
                lowers_among_at(v, i, &l)
            },
            None => none,
        }
    } else if t == InterfaceType::OvsInterface {
        match &x.base_iface().controller {
            Some(c) => {
                if c.as_str().is_empty() {
                    return none;
                }
                match find_key_in(v, c, InterfaceType::OvsBridge) {
                    Some(k) => {
                        proof {
                            assert(rv[k as int] == v[k as int]@);
                        }
                        if !v[k].is_absent() {
                            none.push(k);
                            proof {
                                assert(places(none@) =~= seq![k as int]);
                            }
                        }
                        none
                    },
                    None => none,
                }
            },
            None => none,
        }
    } else {
        none
    }
}

/// The kinds along every way down from the interface at `i`.
pub fn chains_from(v: &Vec<Interface>, i: usize, fuel: usize) -> (r: Vec<Vec<InterfaceType>>)
    requires
        i < v.len(),
    ensures
        chains_view(r@) == chain_list(views(v@), i as int, fuel as nat),
    decreases fuel,
{
    let ghost rv = views(v@);
    proof {
        assert(rv[i as int] == v[i as int]@);
    }
    let t = v[i].iface_type();
    let ls = lowers_at(v, i);
    let mut out: Vec<Vec<InterfaceType>> = Vec::new();
    if fuel == 0 || ls.len() == 0 {
        let mut one: Vec<InterfaceType> = Vec::new();
        one.push(t);
        out.push(one);
        proof {
            assert(one@ =~= seq![t]);
            assert(chains_view(out@) =~= seq![seq![t]]);
        }
        return out;
    }
    let ghost lsv = places(ls@);
    proof {
        assert(chains_view(out@) =~= Seq::<Seq<InterfaceType>>::empty());
    }
    let mut n: usize = 0;
    while n < ls.len()
        invariant
            n <= ls.len(),
            fuel > 0,
            i < v.len(),
            rv == views(v@),
            lsv == places(ls@),
            t == rv[i as int].iface_type,
            forall|k: int| 0 <= k < ls.len() ==> ls[k] < v.len(),
            chains_view(out@) == chains_through(rv, i as int, lsv, n as nat, fuel as nat),
        decreases ls.len() - n,
    {
        let sub = chains_from(v, ls[n], fuel - 1);
        let ghost subv = chains_view(sub@);
        let ghost head = chains_view(out@);
        proof {
            assert(lsv[n as int] == ls[n as int]);
        }
        let mut k: usize = 0;
        while k < sub.len()
            invariant
                k <= sub.len(),
                subv == chains_view(sub@),
                chains_view(out@) == head + prefixed(t, subv).take(k as int),
            decreases sub.len() - k,
        {
            let mut c: Vec<InterfaceType> = Vec::new();
            c.push(t);
            let mut m: usize = 0;
            while m < sub[k].len()
                invariant
                    k < sub.len(),
                    m <= sub[k as int].len(),
                    c@ == seq![t] + sub[k as int]@.take(m as int),
                decreases sub[k as int].len() - m,
            {
                c.push(sub[k][m]);
                proof {
                    assert(c@ =~= seq![t] + sub[k as int]@.take(m + 1));
                }
                m += 1;
            }
            proof {
                assert(sub[k as int]@.take(m as int) =~= sub[k as int]@);
                assert(subv[k as int] == sub[k as int]@);
            }
            let ghost before = chains_view(out@);
            let ghost cv = c@;
            out.push(c);
            proof {
                assert(chains_view(out@) =~= before.push(cv));
                assert(prefixed(t, subv).take(k + 1) =~= prefixed(t, subv).take(k as int).push(
                    cv,
                ));
                assert(chains_view(out@) =~= head + prefixed(t, subv).take(k + 1));
            }
            k += 1;
        }
        proof {
            assert(prefixed(t, subv).take(k as int) =~= prefixed(t, subv));
        }
        n += 1;
    }
    out
}

/// The signature of a chain of kinds behind a tag.
pub fn signature_of(tag: &String, chain: &Vec<InterfaceType>) -> (r: String)
    ensures
        r@ == signature(tag@, chain@),
{
    let mut r = tag.clone();
    let mut k: usize = 0;
    proof {
        assert(chain@.take(0) =~= Seq::<InterfaceType>::empty());
    }
    while k < chain.len()
        invariant
            k <= chain.len(),
            r@ == signature(tag@, chain@.take(k as int)),
        decreases chain.len() - k,
    {
        r.append(" -> ");
        r.append(chain[k].to_string().as_str());
        proof {
            let next = chain@.take(k + 1);
            assert(next.drop_last() =~= chain@.take(k as int));
            assert(next.last() == chain@[k as int]);
        }
        k += 1;
    }
    proof {
        assert(chain@.take(k as int) =~= chain@);
    }
    r
}

/// The signatures of all stacks of a list of interfaces, each once.
pub fn topologies_in(v: &Vec<Interface>) -> (r: Vec<String>)
    ensures
        names(r@) == topologies_of(views(v@)),
        crate::model::text::distinct(names(r@)),
{
    let ghost rv = views(v@);
    let mut all: Vec<String> = Vec::new();
    let mut t: usize = 0;
    proof {
        assert(names(all@) =~= Seq::<Seq<char>>::empty());
    }
    while t < v.len()
        invariant
            t <= v.len(),
            rv == views(v@),
            names(all@) == signatures_upto(rv, t as nat),
        decreases v.len() - t,
    {
        proof {
            assert(rv[t as int] == v[t as int]@);
        }
        if is_top_iface(&v[t]) {
            let tag = ip_tag_of(&v[t]);
            let cs = chains_from(v, t, v.len());
            let ghost head = names(all@);
            let ghost sigs = top_signatures(rv, t as int);
            let mut k: usize = 0;
            while k < cs.len()
                invariant
                    k <= cs.len(),
                    rv == views(v@),
                    t < v.len(),
                    tag@ == ip_tag(rv[t as int]),
                    chains_view(cs@) == chain_list(rv, t as int, rv.len()),
                    sigs == top_signatures(rv, t as int),
                    names(all@) == head + sigs.take(k as int),
                decreases cs.len() - k,
            {
                let s = signature_of(&tag, &cs[k]);
                let ghost before = names(all@);
                proof {
                    assert(chains_view(cs@)[k as int] == cs[k as int]@);
                    assert(sigs[k as int] == s@);
                }
                all.push(s);
                proof {
                    assert(names(all@) =~= before.push(sigs[k as int]));
                    assert(sigs.take(k + 1) =~= sigs.take(k as int).push(sigs[k as int]));
                    assert(names(all@) =~= head + sigs.take(k + 1));
                }
                k += 1;
            }
            proof {
                assert(sigs.take(k as int) =~= sigs);
            }
        }
        t += 1;
    }
    let ghost allv = names(all@);
    let mut r: Vec<String> = Vec::new();
    let mut n: usize = 0;
    proof {
        assert(names(r@) =~= Seq::<Seq<char>>::empty());
    }
    while n < all.len()
        invariant
            n <= all.len(),
            allv == names(all@),
            names(r@) == dedup_upto(allv, n as nat),
        decreases all.len() - n,
    {
        proof {
            assert(allv[n as int] == all[n as int]@);
        }
        let ghost before = names(r@);
        if !contains_name(&r, &all[n]) {
            r.push(all[n].clone());
            proof {
                assert(names(r@) =~= before.push(allv[n as int]));
            }
        }
        n += 1;
    }
    proof {
        lemma_dedup(allv, allv.len());
    }
    r
}

} // verus!
