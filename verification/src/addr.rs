//! Socket addresses.

use vstd::laws_eq::obeys_concrete_eq;
use vstd::prelude::*;

verus! {

/// An Internet socket address. The bits of an IP address are kept as one number, most significant
/// byte first.
#[allow(inconsistent_fields)]
#[derive(Clone, Copy, Debug, Eq, Hash)]
pub enum SocketAddr {
    V4 { ip: u32, port: u16 },
    V6 { ip: u128, port: u16, flowinfo: u32, scope_id: u32 },
}

impl PartialEq for SocketAddr {
    fn eq(&self, other: &Self) -> (equal: bool) {
        match self {
            SocketAddr::V4 { ip, port } => match other {
                SocketAddr::V4 { ip: other_ip, port: other_port } => {
                    *ip == *other_ip && *port == *other_port
                },
                SocketAddr::V6 { .. } => false,
            },
            SocketAddr::V6 { ip, port, flowinfo, scope_id } => match other {
                SocketAddr::V4 { .. } => false,
                SocketAddr::V6 {
                    ip: other_ip,
                    port: other_port,
                    flowinfo: other_flowinfo,
                    scope_id: other_scope_id,
                } => {
                    *ip == *other_ip && *port == *other_port && *flowinfo == *other_flowinfo
                        && *scope_id == *other_scope_id
                },
            },
        }
    }
}

impl vstd::std_specs::cmp::PartialEqSpecImpl for SocketAddr {
    open spec fn obeys_eq_spec() -> bool {
        true
    }

    open spec fn eq_spec(&self, other: &Self) -> bool {
        *self == *other
    }
}

/// Two socket addresses are equal if and only if they are the same.
pub proof fn lemma_addr_eq()
    ensures
        obeys_concrete_eq::<SocketAddr>(),
{
    reveal(obeys_concrete_eq);
}

impl SocketAddr {
    /// The same host at another port.
    pub open spec fn with_port(self, port: u16) -> SocketAddr {
        match self {
            SocketAddr::V4 { ip, .. } => SocketAddr::V4 { ip, port },
            SocketAddr::V6 { ip, flowinfo, scope_id, .. } => SocketAddr::V6 {
                ip,
                port,
                flowinfo,
                scope_id,
            },
        }
    }

    /// Changes the port.
    pub fn set_port(&mut self, port: u16)
        ensures
            *final(self) == old(self).with_port(port),
    {
        *self = match *self {
            SocketAddr::V4 { ip, .. } => SocketAddr::V4 { ip, port },
            SocketAddr::V6 { ip, flowinfo, scope_id, .. } => SocketAddr::V6 {
                ip,
                port,
                flowinfo,
                scope_id,
            },
        };
    }
}

/// Another port is the only thing that changes with the port.
pub proof fn law_only_the_port_changes(addr: SocketAddr, port: u16)
    ensures
        addr matches SocketAddr::V4 { ip, port: _ } ==> addr.with_port(port) == (SocketAddr::V4 {
            ip,
            port,
        }),
        addr matches SocketAddr::V6 { ip, port: _, flowinfo, scope_id } ==> addr.with_port(port)
            == (SocketAddr::V6 { ip, port, flowinfo, scope_id }),
{
}

} // verus!
