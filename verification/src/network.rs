//! Static network setup from `/etc/forge/network.toml`: the commands each interface takes.
use vstd::prelude::*;
use crate::launch::{line_view, CommandLine};
use crate::text::{str_to_string, strings_view};

verus! {

/// One `[[interface]]` of the network file.
#[derive(Debug, Clone)]
pub struct InterfaceConfig {
    pub ifname: String,
    pub dhcp: bool,
    pub address: Option<String>,
    pub gateway: Option<String>,
}

/// The `ip` commands that configure `iface` statically: bring the link up, then add
/// its address and its default route when it has them. A DHCP interface is only
/// brought up here; its client does the rest.
pub open spec fn interface_lines(iface: InterfaceConfig, ip: Seq<char>) -> Seq<(Seq<char>, Seq<Seq<char>>)> {
    let up = seq![(ip, seq!["link"@, "set"@, iface.ifname@, "up"@])];
    if iface.dhcp {
        up
    } else {
        let with_addr = match iface.address {
            Some(a) => up.push((ip, seq!["addr"@, "add"@, a@, "dev"@, iface.ifname@])),
            None => up,
        };
        match iface.gateway {
            Some(g) => with_addr.push((ip, seq!["route"@, "add"@, "default"@, "via"@, g@])),
            None => with_addr,
        }
    }
}

fn line(program: &str, parts: Vec<String>) -> (r: CommandLine)
    ensures
        r.program@ == program@,
        r.args@ == parts@,
{
    CommandLine { program: str_to_string(program), args: parts }
}

/// The commands that configure `iface` with the `ip` program at `ip`, in order.
pub fn interface_commands(iface: &InterfaceConfig, ip: &str) -> (r: Vec<CommandLine>)
    ensures
        r@.map_values(|c: CommandLine| line_view(c)) == interface_lines(*iface, ip@),
{
    let mut r: Vec<CommandLine> = Vec::new();
    let up = vec![str_to_string("link"), str_to_string("set"), iface.ifname.clone(), str_to_string("up")];
    assert(strings_view(up@) =~= seq!["link"@, "set"@, iface.ifname@, "up"@]);
    r.push(line(ip, up));
    let ghost first = r@.map_values(|c: CommandLine| line_view(c));
    assert(first =~= seq![(ip@, seq!["link"@, "set"@, iface.ifname@, "up"@])]);
    if iface.dhcp {
        return r;
    }
    match &iface.address {
        Some(a) => {
            let v = vec![str_to_string("addr"), str_to_string("add"), a.clone(), str_to_string("dev"), iface.ifname.clone()];
            assert(strings_view(v@) =~= seq!["addr"@, "add"@, a@, "dev"@, iface.ifname@]);
            let ghost before = r@;
            let c = line(ip, v);
            r.push(c);
            assert(r@.map_values(|c: CommandLine| line_view(c)) =~= before.map_values(|c: CommandLine| line_view(c)).push(line_view(c)));
        },
        None => {},
    }
    match &iface.gateway {
        Some(g) => {
            let v = vec![str_to_string("route"), str_to_string("add"), str_to_string("default"), str_to_string("via"), g.clone()];
            assert(strings_view(v@) =~= seq!["route"@, "add"@, "default"@, "via"@, g@]);
            let ghost before = r@;
            let c = line(ip, v);
            r.push(c);
            assert(r@.map_values(|c: CommandLine| line_view(c)) =~= before.map_values(|c: CommandLine| line_view(c)).push(line_view(c)));
        },
        None => {},
    }
    r
}

/// The DHCP client a DHCP interface starts: `udhcpc` when it is on the path, else
/// `dhclient` when that is, else none.
pub open spec fn dhcp_line(ifname: Seq<char>, udhcpc: bool, dhclient: bool) -> Option<(Seq<char>, Seq<Seq<char>>)> {
    if udhcpc {
        Some(("udhcpc"@, seq!["-i"@, ifname, "-q"@, "-b"@, "-s"@, "/usr/share/udhcpc/default.script"@]))
    } else if dhclient {
        Some(("dhclient"@, seq![ifname]))
    } else {
        None
    }
}

/// The DHCP client command for `ifname`, as `dhcp_line` says.
pub fn dhcp_command(ifname: &str, udhcpc: bool, dhclient: bool) -> (r: Option<CommandLine>)
    ensures
        match dhcp_line(ifname@, udhcpc, dhclient) {
            Some(l) => r matches Some(c) && line_view(c) == l,
            None => r is None,
        },
{
    if udhcpc {
        let v = vec![
            str_to_string("-i"),
            str_to_string(ifname),
            str_to_string("-q"),
            str_to_string("-b"),
            str_to_string("-s"),
            str_to_string("/usr/share/udhcpc/default.script"),
        ];
        assert(strings_view(v@) =~= seq!["-i"@, ifname@, "-q"@, "-b"@, "-s"@, "/usr/share/udhcpc/default.script"@]);
        Some(line("udhcpc", v))
    } else if dhclient {
        let v = vec![str_to_string(ifname)];
        assert(strings_view(v@) =~= seq![ifname@]);
        Some(line("dhclient", v))
    } else {
        None
    }
}

} // verus!
