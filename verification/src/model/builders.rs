//! Ready-made interfaces for the common shapes: a plain NIC, a bridge or
//! bond with its members, a stack of bridges.

use crate::model::iface::{
    BaseInterface, BondInterface, EthernetInterface, IfaceView, Interface, InterfaceType,
    LinuxBridgeInterface, OvsBridgeInterface, OvsInterface,
};
use crate::model::ifaces::{keys_of, Interfaces};
use crate::model::key::lemma_find_slot_sound;
use crate::model::text::names;
use vstd::prelude::*;
use vstd::string::*;

verus! {

/// The names held by a list of string slices.
pub open spec fn str_names(v: Seq<&str>) -> Seq<Seq<char>> {
    Seq::new(v.len(), |i: int| v[i]@)
}

/// The member of a controller of the given name and kind, with nothing
/// else stated.
pub open spec fn member_of(v: IfaceView, ctrl: Seq<char>, ctrl_type: InterfaceType) -> IfaceView {
    IfaceView { controller: Some(ctrl), controller_type: Some(ctrl_type), ..v }
}

/// Copies a list of string slices into a list of strings.
pub fn owned_names(ports: &[&str]) -> (r: Vec<String>)
    ensures
        names(r@) == str_names(ports@),
{
    let mut r: Vec<String> = Vec::new();
    let mut i: usize = 0;
    while i < ports.len()
        invariant
            i <= ports.len(),
            r.len() == i,
            forall|k: int| 0 <= k < i ==> r[k]@ == ports[k]@,
        decreases ports.len() - i,
    {
        r.push(String::from_str(ports[i]));
        i += 1;
    }
    assert(names(r@) =~= str_names(ports@));
    r
}

/// An Ethernet interface of the given name.
pub fn new_eth_iface(name: &str) -> (r: Interface)
    ensures
        r@ == IfaceView::fresh(name@, InterfaceType::Ethernet),
{
    Interface::Ethernet(EthernetInterface { base: BaseInterface::named(name) })
}

/// A Linux bridge of the given name that states no member list.
pub fn new_br_iface(name: &str) -> (r: Interface)
    ensures
        r@ == IfaceView::fresh(name@, InterfaceType::LinuxBridge),
{
    Interface::LinuxBridge(LinuxBridgeInterface { base: BaseInterface::named(name), ports: None })
}

/// A Linux bridge of the given name with the given members.
pub fn bridge_with_ports(name: &str, ports: &[&str]) -> (r: Interface)
    ensures
        r@ == (IfaceView {
            ports: Some(str_names(ports@)),
            ..IfaceView::fresh(name@, InterfaceType::LinuxBridge)
        }),
{
    Interface::LinuxBridge(
        LinuxBridgeInterface { base: BaseInterface::named(name), ports: Some(owned_names(ports)) },
    )
}

/// A bond of the given name with the given members.
pub fn bond_with_ports(name: &str, ports: &[&str]) -> (r: Interface)
    ensures
        r@ == (IfaceView {
            ports: Some(str_names(ports@)),
            ..IfaceView::fresh(name@, InterfaceType::Bond)
        }),
{
    Interface::Bond(
        BondInterface { base: BaseInterface::named(name), ports: Some(owned_names(ports)) },
    )
}

/// An OVS bridge of the given name with the given members.
pub fn new_ovs_br_iface(name: &str, port_names: &[&str]) -> (r: Interface)
    ensures
        r@ == (IfaceView {
            ports: Some(str_names(port_names@)),
            ..IfaceView::fresh(name@, InterfaceType::OvsBridge)
        }),
{
    Interface::OvsBridge(
        OvsBridgeInterface {
            base: BaseInterface::named(name),
            ports: Some(owned_names(port_names)),
        },
    )
}

/// An OVS internal interface of the given name, held by the OVS bridge of
/// the given name.
pub fn new_ovs_iface(name: &str, ctrl_name: &str) -> (r: Interface)
    ensures
        r@ == member_of(
            IfaceView::fresh(name@, InterfaceType::OvsInterface),
            ctrl_name@,
            InterfaceType::OvsBridge,
        ),
{
    let mut base = BaseInterface::named(name);
    base.controller = Some(String::from_str(ctrl_name));
    base.controller_type = Some(InterfaceType::OvsBridge);
    Interface::OvsInterface(OvsInterface { base })
}

/// Puts an interface under the Linux bridge of the given name.
pub fn attach_to_bridge(iface: Interface, bridge: &str) -> (r: Interface)
    ensures
        r@ == member_of(iface@, bridge@, InterfaceType::LinuxBridge),
{
    let mut iface = iface;
    let base = iface.base_iface_mut();
    base.controller = Some(String::from_str(bridge));
    base.controller_type = Some(InterfaceType::LinuxBridge);
    iface
}

/// Four bridges stacked on each other, `br0` on top, and two NICs held by
/// the lowest: `br0`, `br1`, `br2`, `br3`, `p1`, `p2`, each naming the one
/// above it as its controller.
pub fn new_nested_4_ifaces() -> (r: [Interface; 6])
    ensures
        r[0]@ == IfaceView::fresh("br0"@, InterfaceType::LinuxBridge),
        r[1]@ == member_of(
            IfaceView::fresh("br1"@, InterfaceType::LinuxBridge),
            "br0"@,
            InterfaceType::LinuxBridge,
        ),
        r[2]@ == member_of(
            IfaceView::fresh("br2"@, InterfaceType::LinuxBridge),
            "br1"@,
            InterfaceType::LinuxBridge,
        ),
        r[3]@ == member_of(
            IfaceView::fresh("br3"@, InterfaceType::LinuxBridge),
            "br2"@,
            InterfaceType::LinuxBridge,
        ),
        r[4]@ == member_of(
            IfaceView::fresh("p1"@, InterfaceType::Ethernet),
            "br3"@,
            InterfaceType::LinuxBridge,
        ),
        r[5]@ == member_of(
            IfaceView::fresh("p2"@, InterfaceType::Ethernet),
            "br3"@,
            InterfaceType::LinuxBridge,
        ),
{
    let br0 = new_br_iface("br0");
    let br1 = attach_to_bridge(new_br_iface("br1"), "br0");
    let br2 = attach_to_bridge(new_br_iface("br2"), "br1");
    let br3 = attach_to_bridge(new_br_iface("br3"), "br2");
    let p1 = attach_to_bridge(new_eth_iface("p1"), "br3");
    let p2 = attach_to_bridge(new_eth_iface("p2"), "br3");
    [br0, br1, br2, br3, p1, p2]
}

/// The collection of the two NICs `p1` and `p2`.
pub fn gen_test_eth_ifaces() -> (r: Interfaces)
    ensures
        r@ == seq![
            IfaceView::fresh("p1"@, InterfaceType::Ethernet),
            IfaceView::fresh("p2"@, InterfaceType::Ethernet),
        ],
{
    let mut ifaces = Interfaces::new();
    let p1 = new_eth_iface("p1");
    let p2 = new_eth_iface("p2");
    let ghost v1 = p1@;
    let ghost v2 = p2@;
    proof {
        reveal_strlit("p1");
        reveal_strlit("p2");
        assert("p1"@[1] != "p2"@[1]);
        assert(v1.name != v2.name);
    }
    ifaces.push(p1);
    proof {
        lemma_find_slot_sound(keys_of(Seq::<IfaceView>::empty()), v1.key());
        assert(ifaces@ =~= seq![v1]);
    }
    ifaces.push(p2);
    proof {
        lemma_find_slot_sound(keys_of(seq![v1]), v2.key());
        assert(keys_of(seq![v1])[0] == v1.key());
        assert(ifaces@ =~= seq![v1, v2]);
    }
    ifaces
}

} // verus!
