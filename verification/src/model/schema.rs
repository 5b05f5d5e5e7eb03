//! Interfaces as a document describes them, and the rules by which a
//! description becomes an interface: the names of kinds and states, the
//! address modes, and the member lists in their several spellings.

use crate::model::error::{Failure, MergeError};
use crate::model::iface::{
    BaseInterface, IfaceView, Interface, InterfaceState, InterfaceType, Ipv4Mode, Ipv6Mode,
};
use crate::model::text::{clone_opt_name, names, opt_name};
use vstd::prelude::*;
use vstd::string::*;

verus! {

/// What a description says of the addresses of one family.
#[derive(Clone, Debug)]
pub struct RawIp {
    pub enabled: bool,
    pub dhcp: bool,
    pub autoconf: bool,
    /// Whether the description lists addresses.
    pub has_address: bool,
}

/// One entry of a member list: a plain port, or a bond that stands for
/// the ports it joins.
#[derive(Clone, Debug)]
pub struct RawPort {
    pub name: String,
    /// The ports that the entry joins, where it is a bond.
    pub bond_ports: Option<Vec<String>>,
}

/// One interface as a document describes it.
#[derive(Clone, Debug)]
pub struct RawInterface {
    pub name: String,
    /// The name of the kind; none where the document leaves it open.
    pub kind: Option<String>,
    /// The name of the state; none where the document leaves it open.
    pub state: Option<String>,
    pub controller: Option<String>,
    pub ipv4: Option<RawIp>,
    pub ipv6: Option<RawIp>,
    /// The member list, where the description states one.
    pub ports: Option<Vec<RawPort>>,
    /// The interface that a VLAN is stacked on.
    pub base_iface: Option<String>,
}

/// The kind that a name stands for.
pub open spec fn kind_of_text(t: Seq<char>) -> Option<InterfaceType> {
    if t == "ethernet"@ {
        Some(InterfaceType::Ethernet)
    } else if t == "linux-bridge"@ {
        Some(InterfaceType::LinuxBridge)
    } else if t == "ovs-bridge"@ {
        Some(InterfaceType::OvsBridge)
    } else if t == "ovs-interface"@ {
        Some(InterfaceType::OvsInterface)
    } else if t == "bond"@ {
        Some(InterfaceType::Bond)
    } else if t == "vlan"@ {
        Some(InterfaceType::Vlan)
    } else if t == "unknown"@ {
        Some(InterfaceType::Unknown)
    } else {
        None
    }
}

/// The state that a name stands for.
pub open spec fn state_of_text(t: Seq<char>) -> Option<InterfaceState> {
    if t == "up"@ {
        Some(InterfaceState::Up)
    } else if t == "down"@ {
        Some(InterfaceState::Down)
    } else if t == "absent"@ {
        Some(InterfaceState::Absent)
    } else if t == "ignore"@ {
        Some(InterfaceState::Ignore)
    } else {
        None
    }
}

/// The IPv4 mode that a description amounts to: disabled where it is
/// not enabled; else DHCP where that is asked for; else static where
/// addresses are listed; else nothing is stated.
pub open spec fn ipv4_mode_of(ip: RawIp) -> Option<Ipv4Mode> {
    if !ip.enabled {
        Some(Ipv4Mode::Disabled)
    } else if ip.dhcp {
        Some(Ipv4Mode::Dhcp)
    } else if ip.has_address {
        Some(Ipv4Mode::Static)
    } else {
        None
    }
}

/// The IPv6 mode that a description amounts to: disabled where it is
/// not enabled; else automatic where router advertisements are taken;
/// else DHCP where that is asked for; else nothing is stated.
pub open spec fn ipv6_mode_of(ip: RawIp) -> Option<Ipv6Mode> {
    if !ip.enabled {
        Some(Ipv6Mode::Disabled)
    } else if ip.autoconf {
        Some(Ipv6Mode::Auto)
    } else if ip.dhcp {
        Some(Ipv6Mode::Dhcp)
    } else {
        None
    }
}

/// The members that one entry stands for: the ports of a bond, or the
/// port itself.
pub open spec fn entry_names(c: RawPort) -> Seq<Seq<char>> {
    match c.bond_ports {
        Some(l) => names(l@),
        None => seq![c.name@],
    }
}

/// The members that the first `n` entries stand for, in their order.
pub open spec fn flat_ports(cfgs: Seq<RawPort>, n: nat) -> Seq<Seq<char>>
    decreases n,
{
    if n == 0 {
        Seq::empty()
    } else {
        flat_ports(cfgs, (n - 1) as nat) + entry_names(cfgs[n - 1])
    }
}

/// The kind that a description asks for: unknown where it names none.
pub open spec fn described_kind(raw: RawInterface) -> Option<InterfaceType> {
    match raw.kind {
        Some(t) => kind_of_text(t@),
        None => Some(InterfaceType::Unknown),
    }
}

/// The state that a description asks for: up where it names none.
pub open spec fn described_state(raw: RawInterface) -> Option<InterfaceState> {
    match raw.state {
        Some(t) => state_of_text(t@),
        None => Some(InterfaceState::Up),
    }
}

/// The interface that a description stands for, or the fault for which
/// it stands for none.
pub open spec fn described(raw: RawInterface) -> Result<IfaceView, Failure> {
    match described_kind(raw) {
        None => Err(Failure::UnknownKindName),
        Some(kind) => match described_state(raw) {
            None => Err(Failure::UnknownStateName),
            Some(state) => Ok(
                IfaceView {
                    name: raw.name@,
                    iface_type: kind,
                    state,
                    controller: opt_name(raw.controller),
                    controller_type: None,
                    up_priority: 0,
                    ipv4: match raw.ipv4 {
                        Some(ip) => ipv4_mode_of(ip),
                        None => None,
                    },
                    ipv6: match raw.ipv6 {
                        Some(ip) => ipv6_mode_of(ip),
                        None => None,
                    },
                    ports: if kind.is_controller() {
                        match raw.ports {
                            Some(l) => Some(flat_ports(l@, l.len() as nat)),
                            None => None,
                        }
                    } else {
                        None
                    },
                    parent: if kind is Vlan {
                        opt_name(raw.base_iface)
                    } else {
                        None
                    },
                },
            ),
        },
    }
}

/// Whether a string holds the given text.
pub fn is_text(s: &String, text: &str) -> (r: bool)
    ensures
        r == (s@ == text@),
{
    *s == text.to_owned()
}

pub fn parse_kind(t: &String) -> (r: Option<InterfaceType>)
    ensures
        r == kind_of_text(t@),
{
    if is_text(t, "ethernet") {
        Some(InterfaceType::Ethernet)
    } else if is_text(t, "linux-bridge") {
        Some(InterfaceType::LinuxBridge)
    } else if is_text(t, "ovs-bridge") {
        Some(InterfaceType::OvsBridge)
    } else if is_text(t, "ovs-interface") {
        Some(InterfaceType::OvsInterface)
    } else if is_text(t, "bond") {
        Some(InterfaceType::Bond)
    } else if is_text(t, "vlan") {
        Some(InterfaceType::Vlan)
    } else if is_text(t, "unknown") {
        Some(InterfaceType::Unknown)
    } else {
        None
    }
}

pub fn parse_state(t: &String) -> (r: Option<InterfaceState>)
    ensures
        r == state_of_text(t@),
{
    if is_text(t, "up") {
        Some(InterfaceState::Up)
    } else if is_text(t, "down") {
        Some(InterfaceState::Down)
    } else if is_text(t, "absent") {
        Some(InterfaceState::Absent)
    } else if is_text(t, "ignore") {
        Some(InterfaceState::Ignore)
    } else {
        None
    }
}

pub fn ipv4_mode(ip: &RawIp) -> (r: Option<Ipv4Mode>)
    ensures
        r == ipv4_mode_of(*ip),
{
    if !ip.enabled {
        Some(Ipv4Mode::Disabled)
    } else if ip.dhcp {
        Some(Ipv4Mode::Dhcp)
    } else if ip.has_address {
        Some(Ipv4Mode::Static)
    } else {
        None
    }
}

pub fn ipv6_mode(ip: &RawIp) -> (r: Option<Ipv6Mode>)
    ensures
        r == ipv6_mode_of(*ip),
{
    if !ip.enabled {
        Some(Ipv6Mode::Disabled)
    } else if ip.autoconf {
        Some(Ipv6Mode::Auto)
    } else if ip.dhcp {
        Some(Ipv6Mode::Dhcp)
    } else {
        None
    }
}

/// The members that a list of entries stands for.
pub fn flatten_ports(cfgs: &Vec<RawPort>) -> (r: Vec<String>)
    ensures
        names(r@) == flat_ports(cfgs@, cfgs.len() as nat),
{
    let mut ports: Vec<String> = Vec::new();
    let mut n: usize = 0;
    proof {
        assert(names(ports@) =~= Seq::<Seq<char>>::empty());
    }
    while n < cfgs.len()
        invariant
            n <= cfgs.len(),
            names(ports@) == flat_ports(cfgs@, n as nat),
        decreases cfgs.len() - n,
    {
        let ghost head = names(ports@);
        match &cfgs[n].bond_ports {
            Some(l) => {
                let mut k: usize = 0;
                while k < l.len()
                    invariant
                        k <= l.len(),
                        names(ports@) == head + names(l@).take(k as int),
                    decreases l.len() - k,
                {
                    let ghost before = names(ports@);
                    ports.push(l[k].clone());
                    proof {
                        assert(names(ports@) =~= before.push(l[k as int]@));
                        assert(names(l@).take(k + 1) =~= names(l@).take(k as int).push(
                            l[k as int]@,
                        ));
                        assert(names(ports@) =~= head + names(l@).take(k + 1));
                    }
                    k += 1;
                }
                proof {
                    assert(names(l@).take(k as int) =~= names(l@));
                }
            },
            None => {
                ports.push(cfgs[n].name.clone());
                proof {
                    assert(names(ports@) =~= head + seq![cfgs[n as int].name@]);
                }
            },
        }
        n += 1;
    }
    ports
}

/// Turns a description into an interface. The description is refused
/// where it names a kind or a state that is not known.
pub fn interface_from_raw(raw: &RawInterface) -> (res: Result<Interface, MergeError>)
    ensures
        match described(*raw) {
            Ok(v) => res matches Ok(i) && i@ == v,
            Err(f) => res matches Err(e) && e.reports(f),
        },
{
    let kind = match &raw.kind {
        Some(t) => match parse_kind(t) {
            Some(k) => k,
            None => {
                return Err(MergeError::from_failure(Failure::UnknownKindName));
            },
        },
        None => InterfaceType::Unknown,
    };
    let state = match &raw.state {
        Some(t) => match parse_state(t) {
            Some(s) => s,
            None => {
                return Err(MergeError::from_failure(Failure::UnknownStateName));
            },
        },
        None => InterfaceState::Up,
    };
    let base = BaseInterface {
        name: raw.name.clone(),
        state,
        controller: clone_opt_name(&raw.controller),
        controller_type: None,
        up_priority: 0,
        ipv4: match &raw.ipv4 {
            Some(ip) => ipv4_mode(ip),
            None => None,
        },
        ipv6: match &raw.ipv6 {
            Some(ip) => ipv6_mode(ip),
            None => None,
        },
    };
    let ports = match &raw.ports {
        Some(l) => Some(flatten_ports(l)),
        None => None,
    };
    Ok(Interface::from_parts(kind, base, ports, clone_opt_name(&raw.base_iface)))
}

} // verus!
