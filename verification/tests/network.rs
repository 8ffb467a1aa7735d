use forge_core::network::{dhcp_command, interface_commands, InterfaceConfig};

#[test]
fn static_interfaces_get_address_and_route() {
    let iface = InterfaceConfig { ifname: "eth0".into(), dhcp: false, address: Some("10.0.0.2/24".into()), gateway: Some("10.0.0.1".into()) };
    let cmds = interface_commands(&iface, "/sbin/ip");
    assert_eq!(cmds.len(), 3);
    assert_eq!(cmds[0].program, "/sbin/ip");
    assert_eq!(cmds[0].args, vec!["link", "set", "eth0", "up"]);
    assert_eq!(cmds[1].args, vec!["addr", "add", "10.0.0.2/24", "dev", "eth0"]);
    assert_eq!(cmds[2].args, vec!["route", "add", "default", "via", "10.0.0.1"]);
}

#[test]
fn dhcp_interfaces_are_only_brought_up() {
    let iface = InterfaceConfig { ifname: "wlan0".into(), dhcp: true, address: Some("1.2.3.4".into()), gateway: None };
    assert_eq!(interface_commands(&iface, "ip").len(), 1);
    let c = dhcp_command("wlan0", false, true).unwrap();
    assert_eq!(c.program, "dhclient");
    assert_eq!(c.args, vec!["wlan0"]);
    let c = dhcp_command("wlan0", true, true).unwrap();
    assert_eq!(c.program, "udhcpc");
    assert!(dhcp_command("wlan0", false, false).is_none());
}
