//! How the server picks the address it announces and what it announces.
use vstd::prelude::*;

use crate::text::{contains_seq, contains_str, i32_text, push_i32};

verus! {

/// The first port tried for client connections.
pub const FIRST_CLIENT_PORT: i32 = 49153;

/// The address family of the local network the server expects to run on.
pub open spec fn local_network_prefix() -> Seq<char> {
    "192.168.0."@
}

/// The last of `ips` that mentions the local network prefix, if any.
pub open spec fn last_local_address(ips: Seq<Seq<char>>) -> Option<Seq<char>>
    decreases ips.len(),
{
    if ips.len() == 0 {
        None
    } else if contains_seq(ips.last(), local_network_prefix()) {
        Some(ips.last())
    } else {
        last_local_address(ips.drop_last())
    }
}

/// Picks, among the textual addresses of the machine's interfaces (in the order they are
/// listed), the last one that mentions `192.168.0.`.
pub fn select_broadcast_address(ips: &Vec<String>) -> (r: Option<String>)
    ensures
        match last_local_address(ips@.map_values(|s: String| s@)) {
            Some(a) => r matches Some(s) && s@ == a,
            None => r is None,
        },
{
    let ghost views = ips@.map_values(|s: String| s@);
    let mut found: Option<String> = None;
    let mut i: usize = 0;
    while i < ips.len()
        invariant
            i <= ips.len(),
            views == ips@.map_values(|s: String| s@),
            match last_local_address(views.take(i as int)) {
                Some(a) => found matches Some(s) && s@ == a,
                None => found is None,
            },
        decreases ips.len() - i,
    {
        proof {
            assert(views.take(i + 1).drop_last() =~= views.take(i as int));
            assert(views.take(i + 1).last() == ips@[i as int]@);
        }
        if contains_str(ips[i].as_str(), "192.168.0.") {
            found = Some(ips[i].clone());
        }
        i = i + 1;
    }
    assert(views.take(i as int) =~= views);
    found
}

/// The next move of the search for a free client port.
pub enum PortProbe {
    /// Binding to this port succeeded: it is the client port.
    Use(i32),
    /// The probed port is taken: probe this one next.
    Try(i32),
}

/// Decides the search's next move after probing `port`: a port that could be bound is used;
/// after a taken one, the next port up is probed.
pub fn next_port_probe(port: i32, taken: bool) -> (r: PortProbe)
    requires
        taken ==> port < i32::MAX,
    ensures
        !taken ==> (r matches PortProbe::Use(p) && p == port),
        taken ==> (r matches PortProbe::Try(p) && p == port + 1),
{
    if taken {
        PortProbe::Try(port + 1)
    } else {
        PortProbe::Use(port)
    }
}

/// The text `TS {address}:{port}` that identifies the server's client endpoint.
pub fn host_message(address: &str, port: i32) -> (r: String)
    ensures
        r@ == "TS "@ + address@ + ":"@ + i32_text(port),
{
    let mut r = String::from_str("TS ");
    r.append(address);
    r.append(":");
    push_i32(&mut r, port);
    r
}

/// The datagram announced on the local network: `Trade Server at {message}`.
pub fn broadcast_text(message: &str) -> (r: String)
    ensures
        r@ == "Trade Server at "@ + message@,
{
    let mut r = String::from_str("Trade Server at ");
    r.append(message);
    r
}

} // verus!
