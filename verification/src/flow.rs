//! The flow data the screens read: addresses, directed flow keys, per-flow
//! traffic counters and the rate values they are ordered by.

use vstd::prelude::*;

verus! {

/// An IP address as the screens read it: its family and its bits (an IPv4
/// address is the big-endian value of its four octets).
#[derive(Debug, Clone, Copy, PartialEq, Eq, Structural, Hash)]
pub struct IpAddress {
    pub v6: bool,
    pub bits: u128,
}

/// Address order: every IPv4 address before every IPv6 address, then by value.
pub open spec fn ip_lt(a: IpAddress, b: IpAddress) -> bool {
    (!a.v6 && b.v6) || (a.v6 == b.v6 && a.bits < b.bits)
}

impl IpAddress {
    /// The IPv4 address with the given big-endian value.
    pub fn v4(bits: u32) -> (r: IpAddress)
        ensures
            r == (IpAddress { v6: false, bits: bits as u128 }),
    {
        IpAddress { v6: false, bits: bits as u128 }
    }

    /// The IPv6 address with the given big-endian value.
    pub fn v6(bits: u128) -> (r: IpAddress)
        ensures
            r == (IpAddress { v6: true, bits }),
    {
        IpAddress { v6: true, bits }
    }
}

pub fn ip_eq(a: &IpAddress, b: &IpAddress) -> (r: bool)
    ensures
        r == (*a == *b),
{
    a.v6 == b.v6 && a.bits == b.bits
}

pub fn ip_less(a: &IpAddress, b: &IpAddress) -> (r: bool)
    ensures
        r == ip_lt(*a, *b),
{
    (!a.v6 && b.v6) || (a.v6 == b.v6 && a.bits < b.bits)
}

/// One endpoint of a flow: address and port.
pub type Endpoint = (IpAddress, u16);

/// Endpoint order: by address, then by port.
pub open spec fn endpoint_lt(a: Endpoint, b: Endpoint) -> bool {
    ip_lt(a.0, b.0) || (a.0 == b.0 && a.1 < b.1)
}

pub open spec fn endpoint_le(a: Endpoint, b: Endpoint) -> bool {
    endpoint_lt(a, b) || a == b
}

pub fn endpoint_eq(a: &Endpoint, b: &Endpoint) -> (r: bool)
    ensures
        r == (*a == *b),
{
    ip_eq(&a.0, &b.0) && a.1 == b.1
}

pub fn endpoint_less_eq(a: &Endpoint, b: &Endpoint) -> (r: bool)
    ensures
        r == endpoint_le(*a, *b),
{
    ip_less(&a.0, &b.0) || (ip_eq(&a.0, &b.0) && a.1 <= b.1)
}

/// A directed flow: the 5-tuple of one direction of a conversation.
#[derive(Debug, Clone, Copy, PartialEq, Eq, Structural, Hash)]
pub struct FlowKey {
    pub src_ip: IpAddress,
    pub dst_ip: IpAddress,
    pub src_port: u16,
    pub dst_port: u16,
    pub proto: u8,
}

impl FlowKey {
    pub open spec fn src(self) -> Endpoint {
        (self.src_ip, self.src_port)
    }

    pub open spec fn dst(self) -> Endpoint {
        (self.dst_ip, self.dst_port)
    }

    /// The opposite direction of the same conversation.
    pub open spec fn reversed(self) -> FlowKey {
        FlowKey {
            src_ip: self.dst_ip,
            dst_ip: self.src_ip,
            src_port: self.dst_port,
            dst_port: self.src_port,
            proto: self.proto,
        }
    }
}

pub fn flow_key_eq(a: &FlowKey, b: &FlowKey) -> (r: bool)
    ensures
        r == (*a == *b),
{
    ip_eq(&a.src_ip, &b.src_ip) && ip_eq(&a.dst_ip, &b.dst_ip) && a.src_port == b.src_port
        && a.dst_port == b.dst_port && a.proto == b.proto
}

/// Which side of a flow is this host, classified once when the flow appears.
#[derive(Debug, Clone, Copy, PartialEq, Eq, Structural)]
pub enum Direction {
    /// This host sent it: `src` is local.
    Outbound,
    /// This host received it: `dst` is local.
    Inbound,
    /// Both endpoints are local (loopback).
    Local,
    /// Neither endpoint is known to be local.
    Unknown,
}

impl Direction {
    pub open spec fn text(self) -> Seq<char> {
        match self {
            Direction::Outbound => "outbound"@,
            Direction::Inbound => "inbound"@,
            Direction::Local => "local"@,
            Direction::Unknown => "unknown"@,
        }
    }

    /// Display name of the direction.
    pub fn label(&self) -> (r: &'static str)
        ensures
            r@ == self.text(),
    {
        match self {
            Direction::Outbound => "outbound",
            Direction::Inbound => "inbound",
            Direction::Local => "local",
            Direction::Unknown => "unknown",
        }
    }
}

/// A throughput in bytes per second, held as the bit pattern of the
/// single-precision float the capture pipeline computes; the screens order,
/// sum and render rates exactly as the float arithmetic does.
#[derive(Debug, Clone, Copy, PartialEq, Eq, Structural)]
pub struct Rate {
    pub bits: u32,
}

/// The position of a rate in the order of the float values: magnitude bits
/// for a positive value, their negation for a negative one, with both zeros
/// equal. For every value that is not a NaN this orders rates exactly as
/// float comparison does; a NaN ranks by its bit pattern.
pub open spec fn rate_rank(r: Rate) -> int {
    let mag = r.bits & 0x7fff_ffff;
    if r.bits >= 0x8000_0000 && mag != 0 {
        -(mag as int)
    } else {
        mag as int
    }
}

impl Rate {
    /// The rate's position in the value order (see `rate_rank`).
    pub fn rank(&self) -> (r: i64)
        ensures
            r == rate_rank(*self),
    {
        let mag = self.bits & 0x7fff_ffff;
        if self.bits >= 0x8000_0000 && mag != 0 {
            -(mag as i64)
        } else {
            mag as i64
        }
    }

    /// The zero rate.
    pub fn zero() -> (r: Rate)
        ensures
            r.bits == 0,
            rate_rank(r) == 0,
    {
        proof {
            assert(0u32 & 0x7fff_ffff == 0) by (bit_vector);
        }
        Rate { bits: 0 }
    }
}

/// Cumulative counters of one flow.
#[derive(Debug, Clone, Copy, PartialEq, Eq, Structural)]
pub struct TrafficStats {
    pub bytes: u64,
    pub bps: Rate,
    pub packets: u64,
}

/// Kind of application-layer host name found by packet inspection.
#[derive(Debug, Clone, Copy, PartialEq, Eq, Structural)]
pub enum AppKind {
    /// TLS server name indication.
    Sni,
    /// DNS query name.
    DnsQuery,
}

impl AppKind {
    pub open spec fn text(self) -> Seq<char> {
        match self {
            AppKind::Sni => "sni"@,
            AppKind::DnsQuery => "dns query"@,
        }
    }

    /// Label of the details row that shows the host name.
    pub fn label(&self) -> (r: &'static str)
        ensures
            r@ == self.text(),
    {
        match self {
            AppKind::Sni => "sni",
            AppKind::DnsQuery => "dns query",
        }
    }
}

} // verus!
