use vstd::prelude::*;

verus! {

/// The transport protocol of a flow.
#[derive(Debug, Clone, Copy, PartialEq, Eq, Hash, Structural)]
pub enum Transport {
    Udp,
    Tcp,
    Unknown,
}

/// A protocol flow: its transport protocol and its ports, `None` standing
/// for a port that is not fixed.
#[derive(Debug, Clone, Copy, PartialEq, Eq, Hash, Structural)]
pub struct TransportInformation {
    pub transport_protocol: Transport,
    pub dst_port: Option<u16>,
    pub src_port: Option<u16>,
}

/// The transport header found in an IP packet, as far as a flow is concerned.
#[derive(Debug, Clone, Copy, PartialEq, Eq, Structural)]
pub enum TransportHeaderSummary {
    Udp { source_port: u16, destination_port: u16 },
    Tcp { source_port: u16, destination_port: u16 },
    Other,
}

/// The transport header that `etherparse` finds in an IP packet: UDP or TCP
/// with their ports, or anything else (no transport header, another
/// protocol, or a packet that does not parse).
pub uninterp spec fn ip_transport_of(packet: Seq<u8>) -> TransportHeaderSummary;

/// `etherparse::PacketHeaders::from_ip_slice`, reduced to its transport header.
#[verifier::external_body]
fn etherparse_transport(packet: &[u8]) -> (r: TransportHeaderSummary)
    ensures
        r == ip_transport_of(packet@),
{
    let transport = match etherparse::PacketHeaders::from_ip_slice(packet) {
        Ok(headers) => headers.transport,
        Err(_) => None,
    };
    match transport {
        Some(etherparse::TransportHeader::Udp(h)) => TransportHeaderSummary::Udp {
            source_port: h.source_port,
            destination_port: h.destination_port,
        },
        Some(etherparse::TransportHeader::Tcp(h)) => TransportHeaderSummary::Tcp {
            source_port: h.source_port,
            destination_port: h.destination_port,
        },
        _ => TransportHeaderSummary::Other,
    }
}

/// The flow that a transport header belongs to.
pub open spec fn flow_of(h: TransportHeaderSummary) -> TransportInformation {
    match h {
        TransportHeaderSummary::Udp { source_port, destination_port } => TransportInformation {
            transport_protocol: Transport::Udp,
            dst_port: Some(destination_port),
            src_port: Some(source_port),
        },
        TransportHeaderSummary::Tcp { source_port, destination_port } => TransportInformation {
            transport_protocol: Transport::Tcp,
            dst_port: Some(destination_port),
            src_port: Some(source_port),
        },
        TransportHeaderSummary::Other => TransportInformation {
            transport_protocol: Transport::Unknown,
            dst_port: None,
            src_port: None,
        },
    }
}

/// The flow that a transport header belongs to.
pub fn transport_information_from(h: TransportHeaderSummary) -> (t: TransportInformation)
    ensures
        t == flow_of(h),
{
    match h {
        TransportHeaderSummary::Udp { source_port, destination_port } => TransportInformation {
            transport_protocol: Transport::Udp,
            dst_port: Some(destination_port),
            src_port: Some(source_port),
        },
        TransportHeaderSummary::Tcp { source_port, destination_port } => TransportInformation {
            transport_protocol: Transport::Tcp,
            dst_port: Some(destination_port),
            src_port: Some(source_port),
        },
        TransportHeaderSummary::Other => TransportInformation {
            transport_protocol: Transport::Unknown,
            dst_port: None,
            src_port: None,
        },
    }
}

/// The flow of an IP packet.
pub fn parse_transport_header(packet: &[u8]) -> (t: TransportInformation)
    ensures
        t == flow_of(ip_transport_of(packet@)),
        t.dst_port is Some <==> t.src_port is Some,
{
    transport_information_from(etherparse_transport(packet))
}

/// Whether two flows match: the same transport protocol, and equal
/// destination ports or equal source ports, where a port that is not fixed
/// matches nothing.
pub open spec fn flows_match(a: TransportInformation, b: TransportInformation) -> bool {
    &&& a.transport_protocol == b.transport_protocol
    &&& ((a.dst_port is Some && a.dst_port == b.dst_port) || (a.src_port is Some && a.src_port
        == b.src_port))
}

impl TransportInformation {
    /// Whether a packet's flow `other` belongs to this flow: the same transport
    /// protocol and equal destination ports or equal source ports.
    pub fn compare(&self, other: &TransportInformation) -> (r: bool)
        ensures
            r == flows_match(*self, *other),
    {
        if self.transport_protocol != other.transport_protocol {
            return false;
        }
        match (self.dst_port, other.dst_port) {
            (Some(a), Some(b)) => {
                if a == b {
                    return true;
                }
            },
            _ => {},
        }
        match (self.src_port, other.src_port) {
            (Some(a), Some(b)) => {
                if a == b {
                    return true;
                }
            },
            _ => {},
        }
        false
    }
}

/// Matching flows is symmetric: it does not matter which flow is compared
/// with which.
pub proof fn lemma_flows_match_symmetric(a: TransportInformation, b: TransportInformation)
    ensures
        flows_match(a, b) == flows_match(b, a),
{
}

} // verus!
