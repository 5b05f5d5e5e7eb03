//! The interface model: one record per interface, tagged by its kind, with
//! the fields that merging, membership and ordering read.

use crate::model::text::{clone_opt_name, clone_opt_names, contains_name, opt_name, opt_names};
use vstd::prelude::*;
use vstd::string::*;

verus! {

/// The kind of an interface. Together with the name it identifies it.
#[derive(Clone, Copy, Debug, PartialEq, Eq, Structural)]
pub enum InterfaceType {
    Ethernet,
    LinuxBridge,
    OvsBridge,
    OvsInterface,
    Bond,
    Vlan,
    Unknown,
}

/// The requested or observed state of an interface.
#[derive(Clone, Copy, Debug, PartialEq, Eq, Structural)]
pub enum InterfaceState {
    Up,
    Down,
    Absent,
    Ignore,
}

/// How an interface gets its IPv4 configuration.
#[derive(Clone, Copy, Debug, PartialEq, Eq, Structural)]
pub enum Ipv4Mode {
    Static,
    Dhcp,
    Disabled,
}

/// How an interface gets its IPv6 configuration.
#[derive(Clone, Copy, Debug, PartialEq, Eq, Structural)]
pub enum Ipv6Mode {
    Auto,
    Dhcp,
    Disabled,
}

impl InterfaceType {
    /// Kinds that live in user space: they have a name space of their own,
    /// so one of them may share its name with a kernel interface.
    pub open spec fn spec_is_userspace(&self) -> bool {
        self is OvsBridge || self is Unknown
    }

    #[verifier::when_used_as_spec(spec_is_userspace)]
    pub fn is_userspace(&self) -> (r: bool)
        ensures
            r == self.spec_is_userspace(),
    {
        match self {
            InterfaceType::OvsBridge | InterfaceType::Unknown => true,
            _ => false,
        }
    }

    /// Kinds that can hold other interfaces as members.
    pub open spec fn spec_is_controller(&self) -> bool {
        self is LinuxBridge || self is Bond || self is OvsBridge
    }

    #[verifier::when_used_as_spec(spec_is_controller)]
    pub fn is_controller(&self) -> (r: bool)
        ensures
            r == self.spec_is_controller(),
    {
        match self {
            InterfaceType::LinuxBridge | InterfaceType::Bond | InterfaceType::OvsBridge => true,
            _ => false,
        }
    }

    /// Kinds that cannot exist outside a controller.
    pub open spec fn spec_needs_controller(&self) -> bool {
        self is OvsInterface
    }

    #[verifier::when_used_as_spec(spec_needs_controller)]
    pub fn needs_controller(&self) -> (r: bool)
        ensures
            r == self.spec_needs_controller(),
    {
        match self {
            InterfaceType::OvsInterface => true,
            _ => false,
        }
    }

    /// The kind of member that a controller of this kind creates for a
    /// name that no interface bears yet.
    pub open spec fn spec_member_type(&self) -> InterfaceType {
        if self is OvsBridge {
            InterfaceType::OvsInterface
        } else {
            InterfaceType::Ethernet
        }
    }

    #[verifier::when_used_as_spec(spec_member_type)]
    pub fn member_type(&self) -> (r: InterfaceType)
        ensures
            r == self.spec_member_type(),
    {
        match self {
            InterfaceType::OvsBridge => InterfaceType::OvsInterface,
            _ => InterfaceType::Ethernet,
        }
    }

    /// The tag by which this kind appears in a topology signature.
    pub open spec fn tag(self) -> Seq<char> {
        match self {
            InterfaceType::Ethernet => "Ethernet"@,
            InterfaceType::LinuxBridge => "LinuxBridge"@,
            InterfaceType::OvsBridge => "OvsBridge"@,
            InterfaceType::OvsInterface => "OvsInterface"@,
            InterfaceType::Bond => "Bond"@,
            InterfaceType::Vlan => "Vlan"@,
            InterfaceType::Unknown => "Unknown"@,
        }
    }

    pub fn to_string(&self) -> (r: String)
        ensures
            r@ == self.tag(),
    {
        match self {
            InterfaceType::Ethernet => String::from_str("Ethernet"),
            InterfaceType::LinuxBridge => String::from_str("LinuxBridge"),
            InterfaceType::OvsBridge => String::from_str("OvsBridge"),
            InterfaceType::OvsInterface => String::from_str("OvsInterface"),
            InterfaceType::Bond => String::from_str("Bond"),
            InterfaceType::Vlan => String::from_str("Vlan"),
            InterfaceType::Unknown => String::from_str("Unknown"),
        }
    }
}

/// The fields that every kind of interface carries.
#[derive(Clone, Debug)]
pub struct BaseInterface {
    pub name: String,
    pub state: InterfaceState,
    /// The interface that holds this one as a member. The empty name asks
    /// for detachment from any controller.
    pub controller: Option<String>,
    pub controller_type: Option<InterfaceType>,
    /// The rank in the activation order: 0 for an interface without a
    /// controller, one more than its controller's otherwise.
    pub up_priority: u32,
    pub ipv4: Option<Ipv4Mode>,
    pub ipv6: Option<Ipv6Mode>,
}

impl BaseInterface {
    pub fn new() -> (r: BaseInterface)
        ensures
            r.name@ == Seq::<char>::empty(),
            r.state == InterfaceState::Up,
            r.controller is None,
            r.controller_type is None,
            r.up_priority == 0,
            r.ipv4 is None,
            r.ipv6 is None,
    {
        BaseInterface {
            name: String::new(),
            state: InterfaceState::Up,
            controller: None,
            controller_type: None,
            up_priority: 0,
            ipv4: None,
            ipv6: None,
        }
    }

    pub fn named(name: &str) -> (r: BaseInterface)
        ensures
            r.name@ == name@,
            r.state == InterfaceState::Up,
            r.controller is None,
            r.controller_type is None,
            r.up_priority == 0,
            r.ipv4 is None,
            r.ipv6 is None,
    {
        BaseInterface {
            name: String::from_str(name),
            state: InterfaceState::Up,
            controller: None,
            controller_type: None,
            up_priority: 0,
            ipv4: None,
            ipv6: None,
        }
    }

    pub fn duplicate(&self) -> (r: BaseInterface)
        ensures
            r.name@ == self.name@,
            r.state == self.state,
            opt_name(r.controller) == opt_name(self.controller),
            r.controller_type == self.controller_type,
            r.up_priority == self.up_priority,
            r.ipv4 == self.ipv4,
            r.ipv6 == self.ipv6,
    {
        BaseInterface {
            name: self.name.clone(),
            state: self.state,
            controller: clone_opt_name(&self.controller),
            controller_type: self.controller_type,
            up_priority: self.up_priority,
            ipv4: self.ipv4,
            ipv6: self.ipv6,
        }
    }
}

#[derive(Clone, Debug)]
pub struct EthernetInterface {
    pub base: BaseInterface,
}

#[derive(Clone, Debug)]
pub struct LinuxBridgeInterface {
    pub base: BaseInterface,
    /// The names of the members, where the list is stated.
    pub ports: Option<Vec<String>>,
}

#[derive(Clone, Debug)]
pub struct BondInterface {
    pub base: BaseInterface,
    /// The names of the members, where the list is stated.
    pub ports: Option<Vec<String>>,
}

#[derive(Clone, Debug)]
pub struct OvsBridgeInterface {
    pub base: BaseInterface,
    /// The names of the members, where the list is stated.
    pub ports: Option<Vec<String>>,
}

#[derive(Clone, Debug)]
pub struct OvsInterface {
    pub base: BaseInterface,
}

#[derive(Clone, Debug)]
pub struct VlanInterface {
    pub base: BaseInterface,
    /// The interface that the VLAN is stacked on.
    pub base_iface: Option<String>,
}

#[derive(Clone, Debug)]
pub struct UnknownInterface {
    pub base: BaseInterface,
}

impl EthernetInterface {
    pub fn new() -> (r: EthernetInterface)
        ensures
            Interface::Ethernet(r)@ == IfaceView::fresh(Seq::empty(), InterfaceType::Ethernet),
    {
        EthernetInterface { base: BaseInterface::new() }
    }
}

impl LinuxBridgeInterface {
    pub fn new() -> (r: LinuxBridgeInterface)
        ensures
            Interface::LinuxBridge(r)@ == IfaceView::fresh(
                Seq::empty(),
                InterfaceType::LinuxBridge,
            ),
    {
        LinuxBridgeInterface { base: BaseInterface::new(), ports: None }
    }
}

impl BondInterface {
    pub fn new() -> (r: BondInterface)
        ensures
            Interface::Bond(r)@ == IfaceView::fresh(Seq::empty(), InterfaceType::Bond),
    {
        BondInterface { base: BaseInterface::new(), ports: None }
    }
}

impl OvsBridgeInterface {
    pub fn new() -> (r: OvsBridgeInterface)
        ensures
            Interface::OvsBridge(r)@ == IfaceView::fresh(Seq::empty(), InterfaceType::OvsBridge),
    {
        OvsBridgeInterface { base: BaseInterface::new(), ports: None }
    }
}

impl OvsInterface {
    pub fn new() -> (r: OvsInterface)
        ensures
            Interface::OvsInterface(r)@ == IfaceView::fresh(
                Seq::empty(),
                InterfaceType::OvsInterface,
            ),
    {
        OvsInterface { base: BaseInterface::new() }
    }
}

impl VlanInterface {
    pub fn new() -> (r: VlanInterface)
        ensures
            Interface::Vlan(r)@ == IfaceView::fresh(Seq::empty(), InterfaceType::Vlan),
    {
        VlanInterface { base: BaseInterface::new(), base_iface: None }
    }
}

impl UnknownInterface {
    pub fn new() -> (r: UnknownInterface)
        ensures
            Interface::Unknown(r)@ == IfaceView::fresh(Seq::empty(), InterfaceType::Unknown),
    {
        UnknownInterface { base: BaseInterface::new() }
    }
}

/// One interface, of any kind.
#[derive(Clone, Debug)]
pub enum Interface {
    Ethernet(EthernetInterface),
    LinuxBridge(LinuxBridgeInterface),
    OvsBridge(OvsBridgeInterface),
    OvsInterface(OvsInterface),
    Bond(BondInterface),
    Vlan(VlanInterface),
    Unknown(UnknownInterface),
}

/// What an interface is in contracts: its kind and every field, with names
/// as sequences of characters.
pub struct IfaceView {
    pub name: Seq<char>,
    pub iface_type: InterfaceType,
    pub state: InterfaceState,
    pub controller: Option<Seq<char>>,
    pub controller_type: Option<InterfaceType>,
    pub up_priority: u32,
    pub ipv4: Option<Ipv4Mode>,
    pub ipv6: Option<Ipv6Mode>,
    /// The member list of a controller that states one.
    pub ports: Option<Seq<Seq<char>>>,
    /// The interface below a VLAN.
    pub parent: Option<Seq<char>>,
}

impl IfaceView {
    /// An interface of the given name and kind with nothing else stated.
    pub open spec fn fresh(name: Seq<char>, iface_type: InterfaceType) -> IfaceView {
        IfaceView {
            name,
            iface_type,
            state: InterfaceState::Up,
            controller: None,
            controller_type: None,
            up_priority: 0,
            ipv4: None,
            ipv6: None,
            ports: None,
            parent: None,
        }
    }

    /// The view of an interface put together from its kind, its common
    /// fields, a member list and a lower interface. The member list counts
    /// for controllers only, the lower interface for VLANs only.
    pub open spec fn of_parts(
        iface_type: InterfaceType,
        base: BaseInterface,
        ports: Option<Seq<Seq<char>>>,
        parent: Option<Seq<char>>,
    ) -> IfaceView {
        IfaceView {
            name: base.name@,
            iface_type,
            state: base.state,
            controller: opt_name(base.controller),
            controller_type: base.controller_type,
            up_priority: base.up_priority,
            ipv4: base.ipv4,
            ipv6: base.ipv6,
            ports: if iface_type.is_controller() {
                ports
            } else {
                None
            },
            parent: if iface_type is Vlan {
                parent
            } else {
                None
            },
        }
    }

    pub open spec fn is_absent(self) -> bool {
        self.state is Absent
    }

    /// The name of the controller that the record asks for, if it asks
    /// for one: the empty name asks for none.
    pub open spec fn controller_name(self) -> Option<Seq<char>> {
        match self.controller {
            Some(c) => if c.len() > 0 {
                Some(c)
            } else {
                None
            },
            None => None,
        }
    }

    /// Whether the record asks to be detached from any controller.
    pub open spec fn asks_detach(self) -> bool {
        self.controller matches Some(c) && c.len() == 0
    }

    /// Whether this interface can hold members: it is a controller, it
    /// is not being removed, and it has a name by which its members can
    /// refer to it.
    pub open spec fn holds_members(self) -> bool {
        &&& self.iface_type.is_controller()
        &&& !self.is_absent()
        &&& self.name.len() > 0
    }

    /// Whether this interface can hold members and states `name` as one
    /// of them.
    pub open spec fn lists(self, name: Seq<char>) -> bool {
        &&& self.holds_members()
        &&& self.ports matches Some(l)
        &&& l.contains(name)
    }
}

impl View for Interface {
    type V = IfaceView;

    open spec fn view(&self) -> IfaceView {
        IfaceView::of_parts(
            self.spec_iface_type(),
            self.spec_base(),
            self.spec_ports(),
            self.spec_parent(),
        )
    }
}

impl Interface {
    pub open spec fn spec_iface_type(&self) -> InterfaceType {
        match self {
            Interface::Ethernet(_) => InterfaceType::Ethernet,
            Interface::LinuxBridge(_) => InterfaceType::LinuxBridge,
            Interface::OvsBridge(_) => InterfaceType::OvsBridge,
            Interface::OvsInterface(_) => InterfaceType::OvsInterface,
            Interface::Bond(_) => InterfaceType::Bond,
            Interface::Vlan(_) => InterfaceType::Vlan,
            Interface::Unknown(_) => InterfaceType::Unknown,
        }
    }

    pub open spec fn spec_base(&self) -> BaseInterface {
        match self {
            Interface::Ethernet(i) => i.base,
            Interface::LinuxBridge(i) => i.base,
            Interface::OvsBridge(i) => i.base,
            Interface::OvsInterface(i) => i.base,
            Interface::Bond(i) => i.base,
            Interface::Vlan(i) => i.base,
            Interface::Unknown(i) => i.base,
        }
    }

    pub open spec fn spec_ports(&self) -> Option<Seq<Seq<char>>> {
        match self {
            Interface::LinuxBridge(i) => opt_names(i.ports),
            Interface::OvsBridge(i) => opt_names(i.ports),
            Interface::Bond(i) => opt_names(i.ports),
            _ => None,
        }
    }

    pub open spec fn spec_parent(&self) -> Option<Seq<char>> {
        match self {
            Interface::Vlan(i) => opt_name(i.base_iface),
            _ => None,
        }
    }

    #[verifier::when_used_as_spec(spec_iface_type)]
    pub fn iface_type(&self) -> (r: InterfaceType)
        ensures
            r == self.spec_iface_type(),
            r == self@.iface_type,
    {
        match self {
            Interface::Ethernet(_) => InterfaceType::Ethernet,
            Interface::LinuxBridge(_) => InterfaceType::LinuxBridge,
            Interface::OvsBridge(_) => InterfaceType::OvsBridge,
            Interface::OvsInterface(_) => InterfaceType::OvsInterface,
            Interface::Bond(_) => InterfaceType::Bond,
            Interface::Vlan(_) => InterfaceType::Vlan,
            Interface::Unknown(_) => InterfaceType::Unknown,
        }
    }

    /// The fields that every kind carries.
    pub fn base_iface(&self) -> (r: &BaseInterface)
        ensures
            *r == self.spec_base(),
    {
        match self {
            Interface::Ethernet(i) => &i.base,
            Interface::LinuxBridge(i) => &i.base,
            Interface::OvsBridge(i) => &i.base,
            Interface::OvsInterface(i) => &i.base,
            Interface::Bond(i) => &i.base,
            Interface::Vlan(i) => &i.base,
            Interface::Unknown(i) => &i.base,
        }
    }

    /// The fields that every kind carries, for writing: the kind and
    /// what is particular to it stay as they are.
    pub fn base_iface_mut(&mut self) -> (r: &mut BaseInterface)
        ensures
            *r == old(self).spec_base(),
            final(self).spec_base() == *final(r),
            final(self).spec_iface_type() == old(self).spec_iface_type(),
            final(self).spec_ports() == old(self).spec_ports(),
            final(self).spec_parent() == old(self).spec_parent(),
    {
        match self {
            Interface::Ethernet(i) => &mut i.base,
            Interface::LinuxBridge(i) => &mut i.base,
            Interface::OvsBridge(i) => &mut i.base,
            Interface::OvsInterface(i) => &mut i.base,
            Interface::Bond(i) => &mut i.base,
            Interface::Vlan(i) => &mut i.base,
            Interface::Unknown(i) => &mut i.base,
        }
    }

    pub fn name(&self) -> (r: &String)
        ensures
            r@ == self@.name,
    {
        &self.base_iface().name
    }

    pub fn state(&self) -> (r: InterfaceState)
        ensures
            r == self@.state,
    {
        self.base_iface().state
    }

    pub fn is_absent(&self) -> (r: bool)
        ensures
            r == self@.is_absent(),
    {
        self.base_iface().state == InterfaceState::Absent
    }

    pub fn is_up(&self) -> (r: bool)
        ensures
            r == (self@.state is Up),
    {
        self.base_iface().state == InterfaceState::Up
    }

    pub fn is_ignore(&self) -> (r: bool)
        ensures
            r == (self@.state is Ignore),
    {
        self.base_iface().state == InterfaceState::Ignore
    }

    /// The member list, where this is a controller that states one.
    pub fn ports(&self) -> (r: Option<Vec<String>>)
        ensures
            opt_names(r) == self@.ports,
    {
        match self {
            Interface::LinuxBridge(i) => clone_opt_names(&i.ports),
            Interface::OvsBridge(i) => clone_opt_names(&i.ports),
            Interface::Bond(i) => clone_opt_names(&i.ports),
            _ => None,
        }
    }

    /// Whether this interface can hold members.
    pub fn holds_members(&self) -> (r: bool)
        ensures
            r == self@.holds_members(),
    {
        self.iface_type().is_controller() && !self.is_absent() && !self.name().as_str().is_empty()
    }

    /// Whether this interface can hold members and states `name` as one
    /// of them.
    pub fn lists(&self, name: &String) -> (r: bool)
        ensures
            r == self@.lists(name@),
    {
        if !self.holds_members() {
            return false;
        }
        match self {
            Interface::LinuxBridge(i) => match &i.ports {
                Some(l) => contains_name(l, name),
                None => false,
            },
            Interface::OvsBridge(i) => match &i.ports {
                Some(l) => contains_name(l, name),
                None => false,
            },
            Interface::Bond(i) => match &i.ports {
                Some(l) => contains_name(l, name),
                None => false,
            },
            _ => false,
        }
    }

    /// Whether this is a controller that states its member list.
    pub fn states_ports(&self) -> (r: bool)
        ensures
            r == (self@.ports is Some),
    {
        match self {
            Interface::LinuxBridge(i) => i.ports.is_some(),
            Interface::OvsBridge(i) => i.ports.is_some(),
            Interface::Bond(i) => i.ports.is_some(),
            _ => false,
        }
    }

    /// The interface below this one, where this is a VLAN that states it.
    pub fn parent(&self) -> (r: Option<String>)
        ensures
            opt_name(r) == self@.parent,
    {
        match self {
            Interface::Vlan(i) => clone_opt_name(&i.base_iface),
            _ => None,
        }
    }

    /// Puts an interface together from its parts. A member list given to
    /// a kind that is no controller is dropped, and so is a lower
    /// interface given to a kind that is no VLAN.
    pub fn from_parts(
        iface_type: InterfaceType,
        base: BaseInterface,
        ports: Option<Vec<String>>,
        parent: Option<String>,
    ) -> (r: Interface)
        ensures
            r@ == IfaceView::of_parts(iface_type, base, opt_names(ports), opt_name(parent)),
    {
        match iface_type {
            InterfaceType::Ethernet => Interface::Ethernet(EthernetInterface { base }),
            InterfaceType::LinuxBridge => Interface::LinuxBridge(
                LinuxBridgeInterface { base, ports },
            ),
            InterfaceType::OvsBridge => Interface::OvsBridge(OvsBridgeInterface { base, ports }),
            InterfaceType::OvsInterface => Interface::OvsInterface(OvsInterface { base }),
            InterfaceType::Bond => Interface::Bond(BondInterface { base, ports }),
            InterfaceType::Vlan => Interface::Vlan(VlanInterface { base, base_iface: parent }),
            InterfaceType::Unknown => Interface::Unknown(UnknownInterface { base }),
        }
    }

    /// A copy of this interface.
    pub fn duplicate(&self) -> (r: Interface)
        ensures
            r@ == self@,
    {
        Interface::from_parts(
            self.iface_type(),
            self.base_iface().duplicate(),
            self.ports(),
            self.parent(),
        )
    }
}

} // verus!
