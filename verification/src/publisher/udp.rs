//! Where a publisher listens for packets.

use vstd::prelude::*;

verus! {

/// An address of a host.
#[derive(Copy, Clone, Debug, PartialEq, Eq)]
pub enum IpAddress {
    V4([u8; 4]),
    V6([u8; 16]),
}

/// An address and a port.
#[derive(Copy, Clone, Debug, PartialEq, Eq)]
pub struct SocketAddress {
    pub ip: IpAddress,
    pub port: u16,
}

/// Whether an address is a multicast group: 224.0.0.0/4, or ff00::/8.
pub open spec fn multicast_ip(ip: IpAddress) -> bool {
    match ip {
        IpAddress::V4(octets) => 224 <= octets@[0] <= 239,
        IpAddress::V6(octets) => octets@[0] == 0xff,
    }
}

/// Whether an address is a multicast group.
pub fn is_multicast(addr: SocketAddress) -> (r: bool)
    ensures
        r == multicast_ip(addr.ip),
{
    match addr.ip {
        IpAddress::V4(octets) => octets[0] >= 224 && octets[0] <= 239,
        IpAddress::V6(octets) => octets[0] == 0xff,
    }
}

/// How a socket is opened for a target.
#[derive(Copy, Clone, Debug, PartialEq, Eq)]
pub enum SocketPlan {
    /// Bound to the target itself.
    Unicast { bind: SocketAddress },
    /// Bound to any address, and joined to a group for one source.
    SourceSpecific { port: u16, group: [u8; 4], source: [u8; 4], iface: [u8; 4] },
    /// Bound to any address, and joined to a group.
    AnySourceV4 { port: u16, group: [u8; 4], iface: [u8; 4] },
    AnySourceV6 { port: u16, group: [u8; 16] },
}

/// A source is named for an IPv6 group.
#[derive(Copy, Clone, Debug, PartialEq, Eq, Structural)]
pub enum SocketPlanError {
    SourceSpecificIsIpv4Only,
}

impl SocketPlanError {
    /// The error in words.
    pub fn describe(&self) -> (r: &'static str)
        ensures
            r@ == "source-specific (SSM) join is IPv4-only; --mmtp-udp-source cannot target an IPv6 group"@,
    {
        "source-specific (SSM) join is IPv4-only; --mmtp-udp-source cannot target an IPv6 group"
    }
}

/// The plan for a target: a group is joined, for its source where one is
/// named; any other target is bound as it is. Without an interface the kernel
/// picks one.
pub open spec fn plan_for(
    target: SocketAddress,
    source: Option<[u8; 4]>,
    iface: [u8; 4],
) -> Result<SocketPlan, SocketPlanError> {
    if !multicast_ip(target.ip) {
        Ok(SocketPlan::Unicast { bind: target })
    } else {
        match (target.ip, source) {
            (IpAddress::V4(group), Some(source)) => Ok(
                SocketPlan::SourceSpecific { port: target.port, group, source, iface },
            ),
            (IpAddress::V4(group), None) => Ok(
                SocketPlan::AnySourceV4 { port: target.port, group, iface },
            ),
            (IpAddress::V6(_), Some(_)) => Err(SocketPlanError::SourceSpecificIsIpv4Only),
            (IpAddress::V6(group), None) => Ok(
                SocketPlan::AnySourceV6 { port: target.port, group },
            ),
        }
    }
}

/// Plans how a socket is opened.
pub fn plan_udp_socket(
    target: SocketAddress,
    source: Option<[u8; 4]>,
    iface: Option<[u8; 4]>,
) -> (r: Result<SocketPlan, SocketPlanError>)
    ensures
        iface matches Some(i) ==> r == plan_for(target, source, i),
        iface is None ==> exists|any: [u8; 4]| any@ == seq![0u8, 0, 0, 0] && r == #[trigger] plan_for(
            target,
            source,
            any,
        ),
{
    let imr: [u8; 4] = match iface {
        Some(i) => i,
        None => [0, 0, 0, 0],
    };
    proof {
        if iface is None {
            assert(imr@ =~= seq![0u8, 0, 0, 0]);
        }
    }
    let r: Result<SocketPlan, SocketPlanError> = if !is_multicast(target) {
        Ok(SocketPlan::Unicast { bind: target })
    } else {
        match (target.ip, source) {
            (IpAddress::V4(group), Some(source)) => Ok(
                SocketPlan::SourceSpecific { port: target.port, group, source, iface: imr },
            ),
            (IpAddress::V4(group), None) => Ok(
                SocketPlan::AnySourceV4 { port: target.port, group, iface: imr },
            ),
            (IpAddress::V6(_), Some(_)) => Err(SocketPlanError::SourceSpecificIsIpv4Only),
            (IpAddress::V6(group), None) => Ok(
                SocketPlan::AnySourceV6 { port: target.port, group },
            ),
        }
    };
    assert(r == plan_for(target, source, imr));
    r
}

/// A group is joined under its own address and at the port of the target: for
/// its source where one is named, else for any, on the given interface. Any
/// other target is bound as it is, whatever source is named. Only an IPv6 group
/// with a source cannot be planned.
pub proof fn law_groups_are_joined_and_hosts_bound(
    target: SocketAddress,
    source: Option<[u8; 4]>,
    iface: [u8; 4],
)
    ensures
        match target.ip {
            IpAddress::V4(octets) => if 224 <= octets@[0] < 240 {
                match source {
                    Some(from) => plan_for(target, source, iface) == Ok::<
                        SocketPlan,
                        SocketPlanError,
                    >(
                        SocketPlan::SourceSpecific {
                            port: target.port,
                            group: octets,
                            source: from,
                            iface,
                        },
                    ),
                    None => plan_for(target, source, iface) == Ok::<SocketPlan, SocketPlanError>(
                        SocketPlan::AnySourceV4 { port: target.port, group: octets, iface },
                    ),
                }
            } else {
                plan_for(target, source, iface) == Ok::<SocketPlan, SocketPlanError>(
                    SocketPlan::Unicast { bind: target },
                )
            },
            IpAddress::V6(octets) => if octets@[0] == 255 {
                match source {
                    Some(_) => plan_for(target, source, iface) == Err::<
                        SocketPlan,
                        SocketPlanError,
                    >(SocketPlanError::SourceSpecificIsIpv4Only),
                    None => plan_for(target, source, iface) == Ok::<SocketPlan, SocketPlanError>(
                        SocketPlan::AnySourceV6 { port: target.port, group: octets },
                    ),
                }
            } else {
                plan_for(target, source, iface) == Ok::<SocketPlan, SocketPlanError>(
                    SocketPlan::Unicast { bind: target },
                )
            },
        },
{
}

} // verus!
