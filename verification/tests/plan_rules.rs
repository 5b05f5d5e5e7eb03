use netmerge::model::builders::{
    attach_to_bridge, bond_with_ports, bridge_with_ports, new_br_iface, new_eth_iface,
    new_nested_4_ifaces, new_ovs_br_iface, new_ovs_iface,
};
use netmerge::model::error::{ErrorKind, Failure, MergeError};
use netmerge::model::iface::{
    BaseInterface, Interface, InterfaceState, InterfaceType, Ipv4Mode, Ipv6Mode,
    UnknownInterface, VlanInterface,
};
use netmerge::model::ifaces::Interfaces;
use netmerge::model::schema::{flatten_ports, interface_from_raw, RawInterface, RawIp, RawPort};
use netmerge::plan::merged::MergedInterfaces;

fn collect(list: Vec<Interface>) -> Interfaces {
    let mut ifaces = Interfaces::new();
    for iface in list {
        ifaces.push(iface);
    }
    ifaces
}

fn with_controller(mut iface: Interface, ctrl: &str, kind: Option<InterfaceType>) -> Interface {
    iface.base_iface_mut().controller = Some(ctrl.to_string());
    iface.base_iface_mut().controller_type = kind;
    iface
}

fn with_state(mut iface: Interface, state: InterfaceState) -> Interface {
    iface.base_iface_mut().state = state;
    iface
}

fn applied<'a>(merged: &'a MergedInterfaces, name: &str, kind: InterfaceType) -> &'a Interface {
    merged
        .get_iface(name, kind)
        .unwrap()
        .for_apply
        .as_ref()
        .unwrap()
}

fn rank(merged: &MergedInterfaces, name: &str) -> u32 {
    merged
        .kernel_iface(name)
        .unwrap()
        .for_apply
        .as_ref()
        .unwrap()
        .base_iface()
        .up_priority
}

fn failure_of(desired: Interfaces, current: Interfaces) -> MergeError {
    MergedInterfaces::new(desired, current, false, false)
        .err()
        .unwrap()
}

fn five_levels() -> Vec<Interface> {
    let [_, br1, br2, br3, p1, p2] = new_nested_4_ifaces();
    let br4 = new_br_iface("br4");
    let br0 = attach_to_bridge(new_br_iface("br0"), "br4");
    vec![br4, br0, br1, br2, br3, p2, p1]
}

#[test]
fn ranks_do_not_depend_on_insertion_order() {
    let forward = collect(new_nested_4_ifaces().into_iter().collect());
    let mut backward_list: Vec<Interface> = new_nested_4_ifaces().into_iter().collect();
    backward_list.reverse();
    let backward = collect(backward_list);

    let a = MergedInterfaces::new(forward, Interfaces::new(), false, false).unwrap();
    let b = MergedInterfaces::new(backward, Interfaces::new(), false, false).unwrap();

    for (name, expected) in [("br0", 0), ("br1", 1), ("br2", 2), ("br3", 3), ("p1", 4), ("p2", 4)] {
        assert_eq!(rank(&a, name), expected);
        assert_eq!(rank(&b, name), expected);
    }
}

#[test]
fn five_controller_levels_fail_in_any_order() {
    let forward = five_levels();
    let mut backward = five_levels();
    backward.reverse();

    for list in [forward, backward] {
        let e = failure_of(collect(list), Interfaces::new());
        assert_eq!(e.kind(), ErrorKind::InvalidArgument);
        assert_eq!(e.msg(), "controller nesting too deep");
    }
}

#[test]
fn four_controller_levels_succeed_in_any_order() {
    let mut list: Vec<Interface> = new_nested_4_ifaces().into_iter().collect();
    list.swap(0, 5);
    list.swap(1, 3);
    let merged = MergedInterfaces::new(collect(list), Interfaces::new(), false, false).unwrap();
    assert_eq!(rank(&merged, "p1"), 4);
    assert_eq!(rank(&merged, "br0"), 0);
}

#[test]
fn controllers_in_a_circle_are_refused() {
    let br0 = attach_to_bridge(new_br_iface("br0"), "br1");
    let br1 = attach_to_bridge(new_br_iface("br1"), "br0");
    let e = failure_of(collect(vec![br0, br1]), Interfaces::new());
    assert_eq!(e.kind(), ErrorKind::InvalidArgument);
    assert_eq!(e.msg(), "controllers hold each other in a cycle");
}

#[test]
fn bridge_that_lists_itself_is_a_circle() {
    let e = failure_of(
        collect(vec![bridge_with_ports("br0", &["br0"])]),
        Interfaces::new(),
    );
    assert_eq!(e.msg(), "controllers hold each other in a cycle");
}

#[test]
fn overbooked_port_message() {
    let desired = collect(vec![
        bridge_with_ports("br0", &["eth0"]),
        bond_with_ports("bond0", &["eth0"]),
    ]);
    let e = failure_of(desired, collect(vec![new_eth_iface("eth0")]));
    assert_eq!(e.kind(), ErrorKind::InvalidArgument);
    assert_eq!(e.msg(), "port is overbooked by two controllers");
}

#[test]
fn controller_conflict_message() {
    let desired = collect(vec![
        bond_with_ports("bond1", &["eth1"]),
        with_controller(new_eth_iface("eth1"), "bond0", None),
    ]);
    let e = failure_of(desired, Interfaces::new());
    assert_eq!(
        e.msg(),
        "interface names one controller but is listed as port of another"
    );
}

#[test]
fn detach_conflict_message() {
    let desired = collect(vec![
        bond_with_ports("bond1", &["eth0"]),
        with_controller(new_eth_iface("eth0"), "", None),
    ]);
    let e = failure_of(desired, Interfaces::new());
    assert_eq!(
        e.msg(),
        "interface asks to be detached but is still listed as port of a controller"
    );
}

#[test]
fn port_missing_from_stated_list_message() {
    let desired = collect(vec![
        bridge_with_ports("br0", &[]),
        with_controller(new_eth_iface("eth0"), "br0", None),
    ]);
    let e = failure_of(desired, Interfaces::new());
    assert_eq!(
        e.msg(),
        "interface names a controller whose port list does not hold it"
    );
}

#[test]
fn missing_controller_message() {
    let desired = collect(vec![with_controller(new_eth_iface("eth0"), "br9", None)]);
    let e = failure_of(desired, Interfaces::new());
    assert_eq!(e.msg(), "interface names a controller that does not exist");
}

#[test]
fn controller_that_is_being_removed_cannot_be_named() {
    let desired = collect(vec![
        with_state(new_br_iface("br0"), InterfaceState::Absent),
        with_controller(new_eth_iface("eth0"), "br0", None),
    ]);
    let e = failure_of(desired, Interfaces::new());
    assert_eq!(e.msg(), "interface names a controller that does not exist");
}

#[test]
fn plain_interface_cannot_be_named_as_controller() {
    let desired = collect(vec![
        new_eth_iface("eth1"),
        with_controller(new_eth_iface("eth0"), "eth1", None),
    ]);
    let e = failure_of(desired, Interfaces::new());
    assert_eq!(e.msg(), "interface names a controller that does not exist");
}

#[test]
fn failure_messages_are_distinct() {
    let all = [
        Failure::ControllerConflict,
        Failure::DetachConflict,
        Failure::NotInPortList,
        Failure::MissingController,
        Failure::OverbookedPort,
        Failure::ControllerCycle,
        Failure::NestingTooDeep,
    ];
    for (i, a) in all.iter().enumerate() {
        let e = MergeError::from_failure(*a);
        assert_eq!(e.kind(), ErrorKind::InvalidArgument);
        assert_eq!(e.msg(), a.describe());
        for b in all.iter().skip(i + 1) {
            assert_ne!(a.describe(), b.describe());
        }
    }
    let e = MergeError::new(ErrorKind::InvalidArgument, "x".to_string());
    assert_eq!(e.msg(), "x");
}

#[test]
fn removed_controller_frees_its_members() {
    let current = collect(vec![
        bridge_with_ports("br0", &["eth0", "eth1"]),
        attach_to_bridge(new_eth_iface("eth0"), "br0"),
        new_eth_iface("eth1"),
    ]);
    let desired = collect(vec![with_state(new_br_iface("br0"), InterfaceState::Absent)]);

    let merged = MergedInterfaces::new(desired, current, false, false).unwrap();

    for name in ["eth0", "eth1"] {
        let iface = applied(&merged, name, InterfaceType::Ethernet);
        assert_eq!(iface.base_iface().controller, None);
        assert_eq!(iface.base_iface().controller_type, None);
        assert_eq!(iface.base_iface().up_priority, 0);
        assert!(iface.is_up());
    }
    assert!(applied(&merged, "br0", InterfaceType::LinuxBridge).is_absent());
}

#[test]
fn removal_overrides_membership_and_addresses() {
    let mut eth1 = attach_to_bridge(new_eth_iface("eth1"), "br0");
    eth1.base_iface_mut().ipv4 = Some(Ipv4Mode::Static);
    eth1.base_iface_mut().ipv6 = Some(Ipv6Mode::Auto);
    let current = collect(vec![bridge_with_ports("br0", &["eth1"]), eth1]);
    let desired = collect(vec![with_state(new_eth_iface("eth1"), InterfaceState::Absent)]);

    let merged = MergedInterfaces::new(desired, current, false, false).unwrap();

    let eth1 = applied(&merged, "eth1", InterfaceType::Ethernet);
    assert_eq!(eth1.state(), InterfaceState::Absent);
    assert_eq!(eth1.base_iface().ipv4, Some(Ipv4Mode::Static));
    let br0 = applied(&merged, "br0", InterfaceType::LinuxBridge);
    assert_eq!(br0.ports(), Some(Vec::<String>::new()));
}

#[test]
fn removal_is_not_blocked_by_a_listing_controller() {
    let desired = collect(vec![
        bridge_with_ports("br0", &["eth0"]),
        with_state(with_controller(new_eth_iface("eth0"), "", None), InterfaceState::Absent),
    ]);
    let merged = MergedInterfaces::new(desired, Interfaces::new(), false, false).unwrap();
    assert!(applied(&merged, "eth0", InterfaceType::Ethernet).is_absent());
    assert_eq!(
        applied(&merged, "br0", InterfaceType::LinuxBridge).ports(),
        Some(Vec::<String>::new())
    );
}

#[test]
fn members_of_a_bridge_are_created_as_ethernet() {
    let desired = collect(vec![bridge_with_ports("br0", &["eth7", "eth8"])]);
    let merged = MergedInterfaces::new(desired, Interfaces::new(), false, false).unwrap();

    assert_eq!(merged.len(), 3);
    for name in ["eth7", "eth8"] {
        let record = merged.get_iface(name, InterfaceType::Ethernet).unwrap();
        assert!(record.desired.is_none());
        assert!(record.current.is_none());
        let iface = record.for_apply.as_ref().unwrap();
        assert_eq!(iface.name(), name);
        assert_eq!(iface.iface_type(), InterfaceType::Ethernet);
        assert_eq!(iface.state(), InterfaceState::Up);
        assert_eq!(iface.base_iface().controller.as_deref(), Some("br0"));
        assert_eq!(
            iface.base_iface().controller_type,
            Some(InterfaceType::LinuxBridge)
        );
        assert_eq!(iface.base_iface().up_priority, 1);
    }
    assert!(merged.get_iface("eth7", InterfaceType::OvsInterface).is_none());
}

#[test]
fn members_of_a_bond_inside_a_bridge_rank_below_both() {
    let desired = collect(vec![
        bridge_with_ports("br0", &["bond0"]),
        bond_with_ports("bond0", &["eth0", "eth1"]),
    ]);
    let merged = MergedInterfaces::new(desired, Interfaces::new(), false, false).unwrap();
    assert_eq!(rank(&merged, "br0"), 0);
    assert_eq!(rank(&merged, "bond0"), 1);
    assert_eq!(rank(&merged, "eth0"), 2);
    assert_eq!(rank(&merged, "eth1"), 2);
    let bond0 = applied(&merged, "bond0", InterfaceType::Bond);
    assert_eq!(bond0.base_iface().controller.as_deref(), Some("br0"));
    assert_eq!(
        bond0.ports(),
        Some(vec!["eth0".to_string(), "eth1".to_string()])
    );
}

#[test]
fn port_that_moves_leaves_the_list_of_its_old_controller() {
    let current = collect(vec![
        bridge_with_ports("br0", &["eth0", "eth1"]),
        attach_to_bridge(new_eth_iface("eth0"), "br0"),
        attach_to_bridge(new_eth_iface("eth1"), "br0"),
    ]);
    let desired = collect(vec![bridge_with_ports("br1", &["eth0"])]);

    let merged = MergedInterfaces::new(desired, current, false, false).unwrap();

    let eth0 = applied(&merged, "eth0", InterfaceType::Ethernet);
    assert_eq!(eth0.base_iface().controller.as_deref(), Some("br1"));
    let eth1 = applied(&merged, "eth1", InterfaceType::Ethernet);
    assert_eq!(eth1.base_iface().controller.as_deref(), Some("br0"));
    assert_eq!(
        applied(&merged, "br0", InterfaceType::LinuxBridge).ports(),
        Some(vec!["eth1".to_string()])
    );
    assert_eq!(
        applied(&merged, "br1", InterfaceType::LinuxBridge).ports(),
        Some(vec!["eth0".to_string()])
    );
}

#[test]
fn member_that_names_its_controller_joins_the_list() {
    let current = collect(vec![
        new_eth_iface("eth0"),
        new_eth_iface("eth1"),
        bridge_with_ports("br0", &["eth0"]),
    ]);
    let desired = collect(vec![with_controller(new_eth_iface("eth1"), "br0", None)]);

    let merged = MergedInterfaces::new(desired, current, false, false).unwrap();

    assert_eq!(
        applied(&merged, "br0", InterfaceType::LinuxBridge).ports(),
        Some(vec!["eth1".to_string(), "eth0".to_string()])
    );
    let eth0 = applied(&merged, "eth0", InterfaceType::Ethernet);
    assert_eq!(eth0.base_iface().controller.as_deref(), Some("br0"));
    assert_eq!(
        eth0.base_iface().controller_type,
        Some(InterfaceType::LinuxBridge)
    );
    assert_eq!(rank(&merged, "eth0"), 1);
}

#[test]
fn explicit_detach_clears_the_controller() {
    let current = collect(vec![
        bridge_with_ports("br0", &["eth0"]),
        attach_to_bridge(new_eth_iface("eth0"), "br0"),
    ]);
    let desired = collect(vec![with_controller(new_eth_iface("eth0"), "", None)]);

    let merged = MergedInterfaces::new(desired, current, false, false).unwrap();

    let eth0 = applied(&merged, "eth0", InterfaceType::Ethernet);
    assert_eq!(eth0.base_iface().controller, None);
    assert_eq!(rank(&merged, "eth0"), 0);
    assert_eq!(
        applied(&merged, "br0", InterfaceType::LinuxBridge).ports(),
        Some(Vec::<String>::new())
    );
}

#[test]
fn desired_fields_win_and_open_fields_are_inherited() {
    let mut cur = attach_to_bridge(new_eth_iface("eth0"), "br0");
    cur.base_iface_mut().ipv4 = Some(Ipv4Mode::Dhcp);
    cur.base_iface_mut().ipv6 = Some(Ipv6Mode::Disabled);
    cur.base_iface_mut().up_priority = 9;
    let current = collect(vec![new_br_iface("br0"), cur]);
    let mut des = with_state(new_eth_iface("eth0"), InterfaceState::Down);
    des.base_iface_mut().ipv4 = Some(Ipv4Mode::Static);
    let desired = collect(vec![des]);

    let merged = MergedInterfaces::new(desired, current, false, false).unwrap();

    let record = merged.get_iface("eth0", InterfaceType::Ethernet).unwrap();
    assert!(record.desired.is_some());
    assert!(record.current.is_some());
    let eth0 = record.for_apply.as_ref().unwrap();
    assert_eq!(eth0.state(), InterfaceState::Down);
    assert_eq!(eth0.base_iface().ipv4, Some(Ipv4Mode::Static));
    assert_eq!(eth0.base_iface().ipv6, Some(Ipv6Mode::Disabled));
    assert_eq!(eth0.base_iface().controller.as_deref(), Some("br0"));
    assert_eq!(eth0.base_iface().up_priority, 1);
}

#[test]
fn unknown_kind_is_taken_from_the_current_state() {
    let mut unknown = UnknownInterface::new();
    unknown.base.name = "bond0".to_string();
    unknown.base.state = InterfaceState::Down;
    let desired = collect(vec![Interface::Unknown(unknown)]);
    let current = collect(vec![bond_with_ports("bond0", &["eth0"]), new_eth_iface("eth0")]);

    let merged = MergedInterfaces::new(desired, current, false, false).unwrap();

    assert!(merged.get_iface("bond0", InterfaceType::Unknown).is_none());
    let bond0 = applied(&merged, "bond0", InterfaceType::Bond);
    assert_eq!(bond0.state(), InterfaceState::Down);
    assert_eq!(bond0.ports(), Some(vec!["eth0".to_string()]));
}

#[test]
fn unknown_kind_without_a_current_interface_stays_unknown() {
    let mut unknown = UnknownInterface::new();
    unknown.base.name = "foo".to_string();
    let desired = collect(vec![Interface::Unknown(unknown)]);
    let merged = MergedInterfaces::new(desired, Interfaces::new(), false, false).unwrap();
    assert!(merged.get_iface("foo", InterfaceType::Unknown).is_some());
    assert!(merged.kernel_iface("foo").is_none());
}

#[test]
fn ignored_interfaces_are_dropped_from_both_sides() {
    let desired = collect(vec![
        with_state(new_eth_iface("eth0"), InterfaceState::Ignore),
        new_eth_iface("eth1"),
    ]);
    let current = collect(vec![
        new_eth_iface("eth0"),
        with_state(new_eth_iface("eth1"), InterfaceState::Ignore),
        with_state(new_eth_iface("eth2"), InterfaceState::Ignore),
        bridge_with_ports("br0", &["eth2", "eth3"]),
        new_eth_iface("eth3"),
    ]);

    let merged = MergedInterfaces::new(desired, current, false, false).unwrap();

    assert!(merged.kernel_iface("eth0").is_none());
    assert!(merged.kernel_iface("eth2").is_none());
    assert!(applied(&merged, "eth1", InterfaceType::Ethernet).is_up());
    assert_eq!(
        applied(&merged, "br0", InterfaceType::LinuxBridge).ports(),
        Some(vec!["eth3".to_string()])
    );
}

#[test]
fn collection_replaces_an_interface_of_the_same_slot() {
    let mut ifaces = Interfaces::new();
    ifaces.push(new_eth_iface("eth0"));
    ifaces.push(new_ovs_br_iface("br0", &[]));
    ifaces.push(new_ovs_iface("br0", "br0"));
    assert_eq!(ifaces.len(), 3);
    ifaces.push(with_state(new_br_iface("eth0"), InterfaceState::Down));
    assert_eq!(ifaces.len(), 3);
    assert!(ifaces.get_iface("eth0", InterfaceType::Ethernet).is_none());
    let eth0 = ifaces.get_iface("eth0", InterfaceType::LinuxBridge).unwrap();
    assert_eq!(eth0.state(), InterfaceState::Down);
    assert!(ifaces.get_iface("br0", InterfaceType::OvsBridge).is_some());
    assert!(ifaces.get_iface("br0", InterfaceType::OvsInterface).is_some());
    assert!(ifaces.get_iface("br1", InterfaceType::OvsBridge).is_none());
    let list = ifaces.into_vec();
    assert_eq!(list[0].iface_type(), InterfaceType::LinuxBridge);
}

#[test]
fn result_keeps_the_switches_and_the_order() {
    let desired = collect(vec![new_eth_iface("eth1")]);
    let current = collect(vec![new_eth_iface("eth0"), new_eth_iface("eth1")]);
    let merged = MergedInterfaces::new(desired, current, true, false).unwrap();
    assert!(merged.relaxed_validation());
    assert!(!merged.permissive());
    assert_eq!(merged.len(), 2);
    assert_eq!(merged.nth(0).unwrap().for_apply.as_ref().unwrap().name(), "eth1");
    assert_eq!(merged.nth(1).unwrap().for_apply.as_ref().unwrap().name(), "eth0");
    assert!(merged.nth(2).is_none());
    assert!(merged.nth(1).unwrap().desired.is_none());
    let list = merged.applied_ifaces();
    assert_eq!(list.len(), 2);
}

#[test]
fn ovs_bond_entries_stand_for_their_ports() {
    let entries = vec![
        RawPort { name: "p0".to_string(), bond_ports: None },
        RawPort {
            name: "bond1".to_string(),
            bond_ports: Some(vec!["eth1".to_string(), "eth2".to_string()]),
        },
        RawPort { name: "empty".to_string(), bond_ports: Some(vec![]) },
    ];
    assert_eq!(
        flatten_ports(&entries),
        vec!["p0".to_string(), "eth1".to_string(), "eth2".to_string()]
    );
}

fn raw(name: &str, kind: Option<&str>, state: Option<&str>) -> RawInterface {
    RawInterface {
        name: name.to_string(),
        kind: kind.map(|s| s.to_string()),
        state: state.map(|s| s.to_string()),
        controller: None,
        ipv4: None,
        ipv6: None,
        ports: None,
        base_iface: None,
    }
}

fn ip(enabled: bool, dhcp: bool, autoconf: bool, has_address: bool) -> Option<RawIp> {
    Some(RawIp { enabled, dhcp, autoconf, has_address })
}

#[test]
fn description_names_kinds_and_states() {
    let kinds = [
        ("ethernet", InterfaceType::Ethernet),
        ("linux-bridge", InterfaceType::LinuxBridge),
        ("ovs-bridge", InterfaceType::OvsBridge),
        ("ovs-interface", InterfaceType::OvsInterface),
        ("bond", InterfaceType::Bond),
        ("vlan", InterfaceType::Vlan),
        ("unknown", InterfaceType::Unknown),
    ];
    for (text, kind) in kinds {
        let iface = interface_from_raw(&raw("x", Some(text), None)).unwrap();
        assert_eq!(iface.iface_type(), kind);
        assert_eq!(iface.state(), InterfaceState::Up);
        assert_eq!(iface.name(), "x");
    }
    let states = [
        ("up", InterfaceState::Up),
        ("down", InterfaceState::Down),
        ("absent", InterfaceState::Absent),
        ("ignore", InterfaceState::Ignore),
    ];
    for (text, state) in states {
        let iface = interface_from_raw(&raw("x", None, Some(text))).unwrap();
        assert_eq!(iface.iface_type(), InterfaceType::Unknown);
        assert_eq!(iface.state(), state);
    }
}

#[test]
fn description_with_an_unknown_name_is_refused() {
    let e = interface_from_raw(&raw("x", Some("tunnel"), None)).err().unwrap();
    assert_eq!(e.kind(), ErrorKind::InvalidArgument);
    assert_eq!(e.msg(), "interface type is not supported");
    let e = interface_from_raw(&raw("x", Some("bond"), Some("UP"))).err().unwrap();
    assert_eq!(e.kind(), ErrorKind::InvalidArgument);
    assert_eq!(e.msg(), "interface state is not supported");
    let e = interface_from_raw(&raw("x", Some("tunnel"), Some("UP"))).err().unwrap();
    assert_eq!(e.msg(), "interface type is not supported");
}

#[test]
fn description_gives_the_address_modes() {
    let cases4 = [
        (ip(false, true, false, true), Some(Ipv4Mode::Disabled)),
        (ip(true, true, false, true), Some(Ipv4Mode::Dhcp)),
        (ip(true, false, false, true), Some(Ipv4Mode::Static)),
        (ip(true, false, false, false), None),
        (None, None),
    ];
    for (doc, mode) in cases4 {
        let mut r = raw("eth0", Some("ethernet"), None);
        r.ipv4 = doc;
        assert_eq!(interface_from_raw(&r).unwrap().base_iface().ipv4, mode);
    }
    let cases6 = [
        (ip(false, true, true, true), Some(Ipv6Mode::Disabled)),
        (ip(true, true, true, false), Some(Ipv6Mode::Auto)),
        (ip(true, true, false, false), Some(Ipv6Mode::Dhcp)),
        (ip(true, false, false, true), None),
        (None, None),
    ];
    for (doc, mode) in cases6 {
        let mut r = raw("eth0", Some("ethernet"), None);
        r.ipv6 = doc;
        assert_eq!(interface_from_raw(&r).unwrap().base_iface().ipv6, mode);
    }
}

#[test]
fn description_keeps_lists_for_the_kinds_that_have_them() {
    let ports = Some(vec![RawPort { name: "eth0".to_string(), bond_ports: None }]);
    let mut bridge = raw("br0", Some("linux-bridge"), None);
    bridge.ports = ports;
    bridge.base_iface = Some("eth9".to_string());
    bridge.controller = Some("br1".to_string());
    let iface = interface_from_raw(&bridge).unwrap();
    assert_eq!(iface.ports(), Some(vec!["eth0".to_string()]));
    assert_eq!(iface.parent(), None);
    assert_eq!(iface.base_iface().controller.as_deref(), Some("br1"));
    assert_eq!(iface.base_iface().controller_type, None);

    let mut vlan = raw("eth9.1", Some("vlan"), None);
    vlan.ports = Some(vec![RawPort { name: "eth0".to_string(), bond_ports: None }]);
    vlan.base_iface = Some("eth9".to_string());
    let iface = interface_from_raw(&vlan).unwrap();
    assert_eq!(iface.ports(), None);
    assert_eq!(iface.parent(), Some("eth9".to_string()));
}

#[test]
fn kinds_and_their_tags() {
    let kinds = [
        (InterfaceType::Ethernet, "Ethernet", false, false),
        (InterfaceType::LinuxBridge, "LinuxBridge", false, true),
        (InterfaceType::OvsBridge, "OvsBridge", true, true),
        (InterfaceType::OvsInterface, "OvsInterface", false, false),
        (InterfaceType::Bond, "Bond", false, true),
        (InterfaceType::Vlan, "Vlan", false, false),
        (InterfaceType::Unknown, "Unknown", true, false),
    ];
    for (kind, tag, userspace, controller) in kinds {
        assert_eq!(kind.to_string(), tag);
        assert_eq!(kind.is_userspace(), userspace);
        assert_eq!(kind.is_controller(), controller);
        assert_eq!(kind.needs_controller(), kind == InterfaceType::OvsInterface);
    }
    assert_eq!(InterfaceType::OvsBridge.member_type(), InterfaceType::OvsInterface);
    assert_eq!(InterfaceType::Bond.member_type(), InterfaceType::Ethernet);
}

fn vlan(name: &str, lower: &str) -> Interface {
    let mut v = VlanInterface::new();
    v.base.name = name.to_string();
    v.base_iface = Some(lower.to_string());
    Interface::Vlan(v)
}

#[test]
fn topology_of_a_bridge_over_two_vlans_collapses() {
    let mut br0 = bridge_with_ports("br0", &["eth1.100", "eth2.100"]);
    br0.base_iface_mut().ipv4 = Some(Ipv4Mode::Static);
    br0.base_iface_mut().ipv6 = Some(Ipv6Mode::Auto);
    let desired = collect(vec![br0, vlan("eth1.100", "eth1"), vlan("eth2.100", "eth2")]);
    let current = collect(vec![new_eth_iface("eth1"), new_eth_iface("eth2")]);

    let merged = MergedInterfaces::new(desired, current, false, false).unwrap();

    assert_eq!(
        merged.gen_topoligies(),
        vec!["static_ip4,auto_ip6 -> LinuxBridge -> Vlan -> Ethernet".to_string()]
    );
}

#[test]
fn topology_lists_each_shape_once_in_order() {
    let mut br0 = bridge_with_ports("br0", &["eth0", "bond0"]);
    br0.base_iface_mut().ipv4 = Some(Ipv4Mode::Dhcp);
    let mut eth9 = new_eth_iface("eth9");
    eth9.base_iface_mut().ipv6 = Some(Ipv6Mode::Dhcp);
    eth9.base_iface_mut().ipv4 = Some(Ipv4Mode::Disabled);
    let mut eth8 = new_eth_iface("eth8");
    eth8.base_iface_mut().ipv4 = Some(Ipv4Mode::Disabled);
    eth8.base_iface_mut().ipv6 = Some(Ipv6Mode::Disabled);
    let mut gone = with_state(new_eth_iface("eth7"), InterfaceState::Absent);
    gone.base_iface_mut().ipv4 = Some(Ipv4Mode::Static);
    let desired = collect(vec![
        br0,
        bond_with_ports("bond0", &["eth1", "eth2"]),
        eth9,
        eth8,
        gone,
    ]);

    let merged = MergedInterfaces::new(desired, Interfaces::new(), false, false).unwrap();

    assert_eq!(
        merged.gen_topoligies(),
        vec![
            "dhcp_ip4 -> LinuxBridge -> Bond -> Ethernet".to_string(),
            "dhcp_ip4 -> LinuxBridge -> Ethernet".to_string(),
            "disabled_ip4,dhcp_ip6 -> Ethernet".to_string(),
        ]
    );
}

#[test]
fn topology_of_nothing_with_addresses_is_empty() {
    let desired = collect(vec![bridge_with_ports("br0", &["eth0"])]);
    let merged = MergedInterfaces::new(desired, Interfaces::new(), false, false).unwrap();
    assert_eq!(merged.gen_topoligies(), Vec::<String>::new());
}

#[test]
fn base_starts_with_nothing_stated() {
    let base = BaseInterface::new();
    assert_eq!(base.name, "");
    assert_eq!(base.state, InterfaceState::Up);
    assert_eq!(base.controller, None);
    assert_eq!(base.controller_type, None);
    assert_eq!(base.up_priority, 0);
    assert_eq!(base.ipv4, None);
    assert_eq!(base.ipv6, None);
    let copy = BaseInterface::named("eth0").duplicate();
    assert_eq!(copy.name, "eth0");
}

#[test]
fn unnamed_controller_holds_no_members() {
    let desired = collect(vec![bridge_with_ports("", &["eth0"])]);
    let merged = MergedInterfaces::new(desired, Interfaces::new(), false, false).unwrap();
    assert_eq!(merged.len(), 1);
    assert!(merged.kernel_iface("eth0").is_none());
}

#[test]
fn current_member_listed_by_two_controllers_is_held_by_none() {
    let current = collect(vec![
        bridge_with_ports("br0", &["eth0"]),
        bridge_with_ports("br1", &["eth0", "eth1"]),
        new_eth_iface("eth0"),
        new_eth_iface("eth1"),
    ]);
    let merged = MergedInterfaces::new(Interfaces::new(), current, false, false).unwrap();
    let eth0 = applied(&merged, "eth0", InterfaceType::Ethernet);
    assert_eq!(eth0.base_iface().controller, None);
    assert_eq!(rank(&merged, "eth0"), 0);
    let eth1 = applied(&merged, "eth1", InterfaceType::Ethernet);
    assert_eq!(eth1.base_iface().controller.as_deref(), Some("br1"));
    assert_eq!(rank(&merged, "eth1"), 1);
    assert_eq!(
        applied(&merged, "br0", InterfaceType::LinuxBridge).ports(),
        Some(Vec::<String>::new())
    );
    assert_eq!(
        applied(&merged, "br1", InterfaceType::LinuxBridge).ports(),
        Some(vec!["eth1".to_string()])
    );
}

#[test]
fn unknown_kind_prefers_the_kernel_interface_of_its_name() {
    let mut unknown = UnknownInterface::new();
    unknown.base.name = "br0".to_string();
    unknown.base.state = InterfaceState::Absent;
    let desired = collect(vec![Interface::Unknown(unknown)]);
    let current = collect(vec![
        new_ovs_br_iface("br0", &["br0"]),
        new_ovs_iface("br0", "br0"),
    ]);
    let merged = MergedInterfaces::new(desired, current, false, false).unwrap();
    assert!(applied(&merged, "br0", InterfaceType::OvsInterface).is_absent());
    assert!(!applied(&merged, "br0", InterfaceType::OvsBridge).is_absent());

    let mut unknown = UnknownInterface::new();
    unknown.base.name = "br0".to_string();
    unknown.base.state = InterfaceState::Absent;
    let desired = collect(vec![Interface::Unknown(unknown)]);
    let current = collect(vec![new_ovs_br_iface("br0", &[])]);
    let merged = MergedInterfaces::new(desired, current, false, false).unwrap();
    assert!(applied(&merged, "br0", InterfaceType::OvsBridge).is_absent());
}

#[test]
fn plan_does_not_depend_on_insertion_order() {
    let build = |reverse: bool| {
        let mut desired = vec![
            bridge_with_ports("br0", &["bond0", "eth9"]),
            bond_with_ports("bond0", &["eth0", "eth1"]),
            with_controller(new_eth_iface("eth2"), "br1", None),
            with_state(new_eth_iface("eth3"), InterfaceState::Absent),
        ];
        let mut current = vec![
            new_eth_iface("eth0"),
            attach_to_bridge(new_eth_iface("eth1"), "br1"),
            bridge_with_ports("br1", &["eth1", "eth3", "eth4"]),
            new_eth_iface("eth3"),
            new_eth_iface("eth4"),
            new_eth_iface("eth2"),
        ];
        if reverse {
            desired.reverse();
            current.reverse();
        }
        MergedInterfaces::new(collect(desired), collect(current), false, false).unwrap()
    };
    let a = build(false);
    let b = build(true);
    assert_eq!(a.len(), b.len());
    for i in 0..a.len() {
        let x = a.nth(i).unwrap().for_apply.as_ref().unwrap();
        let y = b
            .get_iface(x.name(), x.iface_type())
            .unwrap()
            .for_apply
            .as_ref()
            .unwrap();
        assert_eq!(x.state(), y.state());
        assert_eq!(x.base_iface().controller, y.base_iface().controller);
        assert_eq!(x.base_iface().controller_type, y.base_iface().controller_type);
        assert_eq!(x.base_iface().up_priority, y.base_iface().up_priority);
        let mut px = x.ports();
        let mut py = y.ports();
        if let Some(l) = px.as_mut() {
            l.sort();
        }
        if let Some(l) = py.as_mut() {
            l.sort();
        }
        assert_eq!(px, py);
    }
    assert_eq!(rank(&a, "eth0"), 2);
    assert_eq!(rank(&a, "eth9"), 1);
    assert_eq!(rank(&a, "eth2"), 1);
    assert_eq!(rank(&a, "eth4"), 1);
    assert_eq!(rank(&a, "eth1"), 2);
}
