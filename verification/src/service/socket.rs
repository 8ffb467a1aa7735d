//! Listen addresses of socket units.
use vstd::prelude::*;
use crate::text::{concat, contains_seq, contains_str, chars_of, parse_u32_range, parse_unsigned, pieces,
    split_char, str_eq, str_to_string, strings_view, strip_prefix, strip_prefix_str, u64_to_string, decimal};

verus! {

/// What a socket unit listens on.
#[derive(Debug, Clone)]
pub enum ListenSpec {
    UnixStream(String),
    UnixSeqpacket(String),
    Netlink { family: u32 },
}

/// The netlink group of a `netlink:FAMILY:GROUP` address: the group when it is a
/// number, else 1.
pub open spec fn netlink_group(rest: Seq<char>) -> u32 {
    let parts = pieces(rest, ':');
    if parts.len() >= 2 && parse_unsigned(parts[1], u32::MAX as nat) is Some {
        parse_unsigned(parts[1], u32::MAX as nat)->0 as u32
    } else {
        1
    }
}

/// Parses a listen line: `netlink:FAMILY[:GROUP]`, a line naming `seqpacket` (or
/// udev's control socket) for a sequential-packet socket, a stream socket otherwise.
pub fn parse_listen(line: &str) -> (r: ListenSpec)
    ensures
        match strip_prefix(line@, "netlink:"@) {
            Some(rest) => r == ListenSpec::Netlink { family: netlink_group(rest) },
            None => if contains_seq(line@, "seqpacket"@) || line@ == "/run/udev/control"@ {
                r matches ListenSpec::UnixSeqpacket(p) && p@ == match strip_prefix(line@, "seqpacket:"@) {
                    Some(q) => q,
                    None => line@,
                }
            } else {
                r matches ListenSpec::UnixStream(p) && p@ == line@
            },
        },
{
    match strip_prefix_str(line, "netlink:") {
        Some(rest) => {
            let parts = split_char(rest.as_str(), ':');
            let ghost pv = strings_view(parts@);
            let group = if parts.len() >= 2 {
                let g = chars_of(parts[1].as_str());
                assert(g@.subrange(0, g@.len() as int) =~= g@);
                assert(pv[1] == parts@[1]@);
                match parse_u32_range(g.as_slice(), 0, g.len()) {
                    Some(n) => n,
                    None => 1,
                }
            } else {
                1
            };
            return ListenSpec::Netlink { family: group };
        },
        None => {},
    }
    let v = chars_of(line);
    if contains_str(v.as_slice(), "seqpacket") || str_eq(line, "/run/udev/control") {
        let path = match strip_prefix_str(line, "seqpacket:") {
            Some(p) => p,
            None => str_to_string(line),
        };
        return ListenSpec::UnixSeqpacket(path);
    }
    ListenSpec::UnixStream(str_to_string(line))
}

/// The label an activated listener is known by: its path, or `netlink:GROUP`.
pub fn listen_label(spec: &ListenSpec) -> (r: String)
    ensures
        r@ == match *spec {
            ListenSpec::UnixStream(p) => p@,
            ListenSpec::UnixSeqpacket(p) => p@,
            ListenSpec::Netlink { family } => "netlink:"@ + decimal(family as nat),
        },
{
    match spec {
        ListenSpec::UnixStream(p) => str_to_string(p.as_str()),
        ListenSpec::UnixSeqpacket(p) => str_to_string(p.as_str()),
        ListenSpec::Netlink { family } => {
            let n = u64_to_string(*family as u64);
            concat("netlink:", n.as_str())
        },
    }
}

} // verus!
