use vstd::prelude::*;

verus! {

/// The peer address of a websocket connection: the IP address (an IPv4
/// address is held in the low 32 bits), the port, whether the address is an
/// IPv6 one, and for IPv6 its flow information and scope id. Two connections
/// have the same address exactly when all these fields agree.
#[derive(PartialEq, Eq, Structural, Clone, Copy, Debug, Hash)]
pub struct PeerAddr {
    pub ip: u128,
    pub port: u16,
    pub v6: bool,
    pub flowinfo: u32,
    pub scope_id: u32,
}

impl PeerAddr {
    /// An IPv4 socket address.
    pub fn v4(ip: u32, port: u16) -> (a: PeerAddr)
        ensures
            a.ip == ip as u128,
            a.port == port,
            !a.v6,
            a.flowinfo == 0,
            a.scope_id == 0,
    {
        PeerAddr { ip: ip as u128, port, v6: false, flowinfo: 0, scope_id: 0 }
    }

    /// An IPv6 socket address.
    pub fn v6(ip: u128, port: u16, flowinfo: u32, scope_id: u32) -> (a: PeerAddr)
        ensures
            a.ip == ip,
            a.port == port,
            a.v6,
            a.flowinfo == flowinfo,
            a.scope_id == scope_id,
    {
        PeerAddr { ip, port, v6: true, flowinfo, scope_id }
    }
}

} // verus!
