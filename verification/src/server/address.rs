//! The address under which frames are offered.

use vstd::prelude::*;

use crate::text::{decimal, push_decimal};

verus! {

/// The port at which frames are offered: two above that of the signaling.
pub fn frame_port(signaling_port: u16) -> (port: u16)
    requires
        signaling_port <= 65533,
    ensures
        port == signaling_port + 2,
{
    signaling_port + 2
}

/// The host to advertise: what is configured, or else the address that is bound,
/// or the local one where all are bound.
pub open spec fn advertised_host(configured: Option<Seq<char>>, bound: Seq<char>) -> Seq<char> {
    match configured {
        Some(host) => host,
        None => if bound == "0.0.0.0"@ {
            "127.0.0.1"@
        } else {
            bound
        },
    }
}

/// The host to advertise.
pub fn frame_host(configured: Option<&str>, bind_address: &str) -> (host: String)
    ensures
        host@ == advertised_host(
            match configured {
                Some(host) => Some(host@),
                None => None,
            },
            bind_address@,
        ),
{
    match configured {
        Some(host) => host.to_string(),
        None => {
            let bound: String = bind_address.to_string();
            if bound == "0.0.0.0".to_string() {
                "127.0.0.1".to_string()
            } else {
                bound
            }
        },
    }
}

/// The address to advertise. A host that is an IPv6 address, as `ipv6` tells, is
/// put in brackets.
pub fn advertised_address(host: &str, ipv6: bool, port: u16) -> (address: String)
    ensures
        address@ == if ipv6 && !(host@.len() > 0 && host@[0] == '[') {
            "["@ + host@ + "]:"@ + decimal(port as nat)
        } else {
            host@ + ":"@ + decimal(port as nat)
        },
{
    let bracketed: bool = host.unicode_len() > 0 && host.get_char(0) == '[';
    if ipv6 && !bracketed {
        let mut address = "[".to_string();
        address.append(host);
        address.append("]:");
        push_decimal(&mut address, port as u64);
        address
    } else {
        let mut address = host.to_string();
        address.append(":");
        push_decimal(&mut address, port as u64);
        address
    }
}

/// What is configured is advertised; else what is bound, unless that is every
/// address.
pub proof fn law_hosts_are_advertised(host: Seq<char>, bound: Seq<char>)
    ensures
        advertised_host(Some(host), bound) == host,
        bound == "0.0.0.0"@ ==> advertised_host(None, bound) == "127.0.0.1"@,
        bound != "0.0.0.0"@ ==> advertised_host(None, bound) == bound,
{
}

} // verus!
