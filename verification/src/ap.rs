//! The network that the access point offers.
use vstd::prelude::*;

verus! {

/// What the DHCP server of the access point hands out.
pub struct DhcpPlan {
    /// The first address that is leased.
    pub start: [u8; 4],
    /// The last address that is leased.
    pub end: [u8; 4],
    /// The address of the access point itself.
    pub ip: [u8; 4],
    /// How long a lease lasts, in seconds.
    pub lease_secs: u64,
    pub gateways: Vec<[u8; 4]>,
    pub subnet: Option<[u8; 4]>,
    pub dns: Vec<[u8; 4]>,
    /// Whether clients are pointed to the web interface.
    pub use_captive_portal: bool,
}

/// An address as a number.
pub open spec fn number_of(a: [u8; 4]) -> int {
    a@[0] * 0x100_0000 + a@[1] * 0x1_0000 + a@[2] * 0x100 + a@[3]
}

/// Leases from 192.168.4.100 to 192.168.4.200 for an hour, with 192.168.4.1, the access point, as
/// gateway and name server.
pub fn dhcp_plan() -> (r: DhcpPlan)
    ensures
        r.start@ == seq![192u8, 168u8, 4u8, 100u8],
        r.end@ == seq![192u8, 168u8, 4u8, 200u8],
        r.ip@ == seq![192u8, 168u8, 4u8, 1u8],
        r.lease_secs == 3600,
        r.gateways@ == seq![r.ip],
        r.subnet is None,
        r.dns@ == seq![r.ip],
        r.use_captive_portal,
        number_of(r.start) <= number_of(r.end),
        !(number_of(r.start) <= number_of(r.ip) <= number_of(r.end)),
{
    let ip: [u8; 4] = [192, 168, 4, 1];
    let mut gateways: Vec<[u8; 4]> = Vec::new();
    gateways.push(ip);
    let mut dns: Vec<[u8; 4]> = Vec::new();
    dns.push(ip);
    DhcpPlan {
        start: [192, 168, 4, 100],
        end: [192, 168, 4, 200],
        ip,
        lease_secs: 3600,
        gateways,
        subnet: None,
        dns,
        use_captive_portal: true,
    }
}

} // verus!
