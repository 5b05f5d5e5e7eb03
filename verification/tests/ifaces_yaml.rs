use netmerge::model::error::ErrorKind;
use netmerge::model::iface::{Interface, InterfaceType};
use netmerge::model::ifaces::Interfaces;
use netmerge::model::schema::{interface_from_raw, RawInterface, RawIp, RawPort};
use netmerge::plan::merged::MergedInterfaces;
use serde_yaml::Value;

fn text_of(v: &Value, key: &str) -> Option<String> {
    v.get(key).and_then(|x| x.as_str()).map(|s| s.to_string())
}

fn flag_of(v: &Value, key: &str) -> bool {
    v.get(key).and_then(|x| x.as_bool()).unwrap_or(false)
}

fn port_entry(v: &Value) -> RawPort {
    match v.as_str() {
        Some(s) => RawPort { name: s.to_string(), bond_ports: None },
        None => RawPort {
            name: text_of(v, "name").unwrap(),
            bond_ports: port_entries(v.get("link-aggregation"))
                .map(|l| l.into_iter().map(|p| p.name).collect()),
        },
    }
}

fn port_entries(section: Option<&Value>) -> Option<Vec<RawPort>> {
    let section = section?;
    let list = section.get("port").or_else(|| section.get("ports"))?;
    Some(list.as_sequence()?.iter().map(port_entry).collect())
}

fn ip_of(section: Option<&Value>) -> Option<RawIp> {
    let ip = section?;
    Some(RawIp {
        enabled: flag_of(ip, "enabled"),
        dhcp: flag_of(ip, "dhcp"),
        autoconf: flag_of(ip, "autoconf"),
        has_address: ip.get("address").is_some(),
    })
}

fn iface_from_yaml(v: &Value) -> Interface {
    let raw = RawInterface {
        name: text_of(v, "name").unwrap(),
        kind: text_of(v, "type"),
        state: text_of(v, "state"),
        controller: text_of(v, "controller"),
        ipv4: ip_of(v.get("ipv4")),
        ipv6: ip_of(v.get("ipv6")),
        ports: port_entries(v.get("bridge")).or_else(|| port_entries(v.get("link-aggregation"))),
        base_iface: v.get("vlan").and_then(|x| text_of(x, "base-iface")),
    };
    interface_from_raw(&raw).unwrap()
}

fn list_from_yaml(text: &str) -> Vec<Interface> {
    let doc: Value = serde_yaml::from_str(text).unwrap();
    doc.as_sequence().unwrap().iter().map(iface_from_yaml).collect()
}

fn collect(list: Vec<Interface>) -> Interfaces {
    let mut ifaces = Interfaces::new();
    for iface in list {
        ifaces.push(iface);
    }
    ifaces
}

fn ifaces_from_yaml(text: &str) -> Interfaces {
    collect(list_from_yaml(text))
}

fn names_of(list: &[&str]) -> Vec<String> {
    list.iter().map(|s| s.to_string()).collect()
}

#[test]
fn test_iface_controller_not_conflict_with_bond_ports() {
    let des_ifaces: Interfaces = ifaces_from_yaml(
        r"---
- name: bond0
  type: bond
  state: up
  link-aggregation:
    mode: balance-rr
  controller: br0
- name: br0
  type: ovs-bridge
  state: up
  bridge:
    port:
      - name: bond0
",
    );

    let result =
        MergedInterfaces::new(des_ifaces, Interfaces::new(), false, false);
    assert!(result.is_ok());
}

#[test]
fn test_iface_controller_conflict_with_empty_br_ports() {
    let des_ifaces: Interfaces = ifaces_from_yaml(
        r"---
- name: br0
  type: linux-bridge
  bridge:
    ports: []
- name: bond99
  type: bond
  state: up
  controller: br0
  link-aggregation:
    mode: balance-rr
    port:
    - eth2
    - eth1
",
    );

    let result =
        MergedInterfaces::new(des_ifaces, Interfaces::new(), false, false);
    assert!(result.is_err());
    if let Err(e) = result {
        assert_eq!(e.kind(), ErrorKind::InvalidArgument);
    }
}

#[test]
fn test_auto_manage_ports() {
    let des_ifaces: Interfaces = ifaces_from_yaml(
        r"---
- name: br0
  type: linux-bridge
  state: up
  bridge:
    port:
    - name: eth1
    - name: eth2
",
    );
    let cur_ifaces: Interfaces = ifaces_from_yaml(
        r"---
- name: eth1
  type: ethernet
  state: ignore
- name: eth2
  type: ethernet
  state: ignore
",
    );

    let merged_ifaces =
        MergedInterfaces::new(des_ifaces, cur_ifaces, false, false).unwrap();

    let br_iface = merged_ifaces
        .get_iface("br0", InterfaceType::LinuxBridge)
        .unwrap()
        .for_apply
        .as_ref()
        .unwrap();

    let eth1_iface = merged_ifaces
        .get_iface("eth1", InterfaceType::Ethernet)
        .unwrap()
        .for_apply
        .as_ref()
        .unwrap();

    let eth2_iface = merged_ifaces
        .get_iface("eth1", InterfaceType::Ethernet)
        .unwrap()
        .for_apply
        .as_ref()
        .unwrap();

    assert_eq!(br_iface.ports(), Some(names_of(&["eth1", "eth2"])));
    assert!(eth1_iface.is_up());
    assert_eq!(eth1_iface.base_iface().controller.as_deref(), Some("br0"));
    assert_eq!(eth2_iface.base_iface().controller.as_deref(), Some("br0"));
}

#[test]
fn test_auto_manage_ovs_bond_ports() {
    let des_ifaces: Interfaces = ifaces_from_yaml(
        r"---
        - name: br0
          type: ovs-bridge
          state: up
          bridge:
            port:
            - name: bond1
              link-aggregation:
                mode: balance-slb
                port:
                  - name: eth1
                  - name: eth2",
    );
    let cur_ifaces: Interfaces = ifaces_from_yaml(
        r"---
        - name: eth1
          type: ethernet
          state: ignore
        - name: eth2
          type: ethernet
          state: ignore",
    );

    let merged_ifaces =
        MergedInterfaces::new(des_ifaces, cur_ifaces, false, false).unwrap();

    let br_iface = merged_ifaces
        .get_iface("br0", InterfaceType::OvsBridge)
        .unwrap()
        .for_apply
        .as_ref()
        .unwrap();

    let eth1_iface = merged_ifaces
        .get_iface("eth1", InterfaceType::Ethernet)
        .unwrap()
        .for_apply
        .as_ref()
        .unwrap();

    let eth2_iface = merged_ifaces
        .get_iface("eth1", InterfaceType::Ethernet)
        .unwrap()
        .for_apply
        .as_ref()
        .unwrap();

    assert_eq!(br_iface.ports(), Some(names_of(&["eth1", "eth2"])));
    assert!(eth1_iface.is_up());
    assert_eq!(eth1_iface.base_iface().controller.as_deref(), Some("br0"));
    assert_eq!(eth2_iface.base_iface().controller.as_deref(), Some("br0"));
}

#[test]
fn test_do_not_auto_manage_ports_if_current_has_ignore() {
    let des_ifaces: Interfaces = ifaces_from_yaml(
        r"---
- name: br0
  type: linux-bridge
  state: up
  bridge:
    port:
    - name: eth1
    - name: eth2
",
    );
    let cur_ifaces: Interfaces = ifaces_from_yaml(
        r"---
- name: eth1
  type: ethernet
  state: ignore
- name: eth2
  type: ethernet
  state: ignore
- name: eth3
  type: ethernet
  state: ignore
- name: br0
  type: linux-bridge
  state: up
  bridge:
    port:
    - name: eth3
",
    );

    let merged_ifaces =
        MergedInterfaces::new(des_ifaces, cur_ifaces, false, false).unwrap();

    let br_iface = merged_ifaces
        .get_iface("br0", InterfaceType::LinuxBridge)
        .unwrap()
        .for_apply
        .as_ref()
        .unwrap();

    assert!(merged_ifaces
        .get_iface("eth1", InterfaceType::Ethernet)
        .is_none());
    assert!(merged_ifaces
        .get_iface("eth2", InterfaceType::Ethernet)
        .is_none());

    assert_eq!(br_iface.ports(), Some(names_of(&[])));
}

#[test]
fn test_absent_iface_holding_controller_and_ip() {
    let des_ifaces: Interfaces = ifaces_from_yaml(
        r"---
        - name: eth1
          state: absent",
    );

    // Kernel allows NIC hold IP even attached to bridge.
    // When user is removing this interface, we should not care about whether it
    // can hold IP or not.
    let mut cur_list = list_from_yaml(
        r"---
        - name: br0
          type: linux-bridge
          state: up
          bridge:
            port:
            - name: eth1
        - name: eth1
          type: ethernet
          state: up
          ipv6:
            enabled: true
            autoconf: true
            dhcp: true",
    );
    if let Some(iface) = cur_list.iter_mut().find(|i| i.name() == "eth1") {
        iface.base_iface_mut().controller = Some("br0".to_string());
        iface.base_iface_mut().controller_type =
            Some(InterfaceType::LinuxBridge);
    }
    let cur_ifaces = collect(cur_list);

    let merged_ifaces =
        MergedInterfaces::new(des_ifaces, cur_ifaces, false, false).unwrap();

    let iface = merged_ifaces.kernel_iface("eth1").unwrap();

    assert!(iface.for_apply.as_ref().unwrap().is_absent());
}

#[test]
fn test_gen_topoligies_bridge_over_vlan() {
    let des_ifaces: Interfaces = ifaces_from_yaml(
        r"---
- name: br0
  type: linux-bridge
  state: up
  bridge:
    port:
    - name: eth1.100
    - name: eth2.100
  ipv4:
    address:
    - ip: 192.0.2.252
      prefix-length: 24
    - ip: 192.0.2.251
      prefix-length: 24
    dhcp: false
    enabled: true
  ipv6:
    autoconf: true
    dhcp: true
    enabled: true
- name: eth1.100
  type: vlan
  vlan:
    id: 100
    base-iface: eth1
- name: eth2.100
  type: vlan
  vlan:
    id: 100
    base-iface: eth2
",
    );
    let cur_ifaces: Interfaces = ifaces_from_yaml(
        r"---
- name: eth1
  type: ethernet
- name: eth2
  type: ethernet
",
    );

    let merged_ifaces =
        MergedInterfaces::new(des_ifaces, cur_ifaces, false, false).unwrap();

    let top = merged_ifaces.gen_topoligies();

    assert_eq!(
        top,
        vec![[
            "static_ip4,auto_ip6".to_string(),
            InterfaceType::LinuxBridge.to_string(),
            InterfaceType::Vlan.to_string(),
            InterfaceType::Ethernet.to_string()
        ]
        .join(" -> ")]
    );
}

#[test]
fn test_gen_topoligies_ovs_bridge() {
    let des_ifaces: Interfaces = ifaces_from_yaml(
        r"---
- name: br0
  type: ovs-interface
  state: up
  ipv4:
    address:
    - ip: 192.0.2.252
      prefix-length: 24
    - ip: 192.0.2.251
      prefix-length: 24
    dhcp: false
    enabled: true
  ipv6:
    autoconf: true
    dhcp: true
    enabled: true
- name: br0
  type: ovs-bridge
  state: up
  bridge:
    ports:
    - name: br0
    - name: eth1
    - name: eth2
",
    );
    let cur_ifaces: Interfaces = ifaces_from_yaml(
        r"---
- name: eth1
  type: ethernet
- name: eth2
  type: ethernet
",
    );

    let merged_ifaces =
        MergedInterfaces::new(des_ifaces, cur_ifaces, false, false).unwrap();

    let top = merged_ifaces.gen_topoligies();

    assert_eq!(
        top,
        vec![[
            "static_ip4,auto_ip6".to_string(),
            InterfaceType::OvsInterface.to_string(),
            InterfaceType::OvsBridge.to_string(),
            InterfaceType::Ethernet.to_string()
        ]
        .join(" -> ")]
    );
}
