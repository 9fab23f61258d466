use vstd::prelude::*;

verus! {

/// Size in bytes of an encoded [`MultiLinkHeader`].
pub const MULTILINK_HEADER_SIZE: usize = 20;

/// The kind of a multilink packet, encoded in two bits of the header.
#[derive(Debug, Clone, Copy, PartialEq, Eq, Structural)]
pub enum PacketType {
    /// Sent in regular intervals to check connectivity and link quality.
    Keepalive,
    /// Encapsulates a higher level IP packet.
    Data,
    /// Encapsulates a higher level IP packet that is sent over several links.
    DataDup,
    /// Announces a (re)started peer.
    Initiate,
}

/// The two-bit code of a packet type.
pub open spec fn packet_type_code(t: PacketType) -> u8 {
    match t {
        PacketType::Keepalive => 0,
        PacketType::Data => 1,
        PacketType::DataDup => 2,
        PacketType::Initiate => 3,
    }
}

/// The packet type of a two-bit code (only the two low bits count).
pub open spec fn packet_type_of_code(code: u8) -> PacketType {
    if code % 4 == 0 {
        PacketType::Keepalive
    } else if code % 4 == 1 {
        PacketType::Data
    } else if code % 4 == 2 {
        PacketType::DataDup
    } else {
        PacketType::Initiate
    }
}

/// The 160 bit multilink protocol header.
#[derive(Debug, Clone, Copy, PartialEq, Eq, Structural)]
pub struct MultiLinkHeader {
    /// Magic byte 'C'.
    pub c: u8,
    /// Magic byte 'N'.
    pub n: u8,
    /// Magic byte 'I'.
    pub i: u8,
    /// Length of the packet, header and payload.
    pub len: u16,
    /// Id of the higher level data stream, `255` when there is none.
    pub stream_id: u8,
    /// Packet id inside the stream.
    pub stream_seq: u32,
    /// Wrapping millisecond timestamp used for round trip time measurement.
    pub timestamp: u16,
    /// Echoed timestamp of the peer, shifted by the time it was held back.
    pub timestamp_reply: u16,
    /// Wrapping per-link sequence number used for loss measurement.
    pub link_seq: u32,
    /// Id of the sending link.
    pub link_id: u8,
    /// Kind of packet.
    pub pkt_type: PacketType,
    /// Whether the receiver should reorder this packet.
    pub reorder: bool,
    /// Whether `timestamp_reply` carries a round trip time measurement.
    pub srrt_calculation: bool,
    /// The four unused bits at the end of the header.
    pub padding: u8,
}

/// Little-endian bytes of a 16 bit value.
pub open spec fn le16(x: u16) -> Seq<u8> {
    seq![(x % 256) as u8, (x / 256) as u8]
}

/// Little-endian bytes of a 32 bit value.
pub open spec fn le32(x: u32) -> Seq<u8> {
    seq![
        (x % 256) as u8,
        ((x / 256) % 256) as u8,
        ((x / 65536) % 256) as u8,
        (x / 16777216) as u8,
    ]
}

/// The 16 bit value of two little-endian bytes.
pub open spec fn from_le16(b0: u8, b1: u8) -> u16 {
    (b0 + b1 * 256) as u16
}

/// The 32 bit value of four little-endian bytes.
pub open spec fn from_le32(b0: u8, b1: u8, b2: u8, b3: u8) -> u32 {
    (b0 + b1 * 256 + b2 * 65536 + b3 * 16777216) as u32
}

/// The last header byte: packet type in bits 0-1, reorder in bit 2,
/// rtt flag in bit 3 and the padding in bits 4-7.
pub open spec fn flags_byte(h: MultiLinkHeader) -> u8 {
    (packet_type_code(h.pkt_type) + (if h.reorder { 4int } else { 0int }) + (if h.srrt_calculation {
        8int
    } else {
        0int
    }) + (h.padding % 16) * 16) as u8
}

/// The wire encoding of a header.
pub open spec fn spec_header_bytes(h: MultiLinkHeader) -> Seq<u8> {
    seq![h.c, h.n, h.i] + le16(h.len) + seq![h.stream_id] + le32(h.stream_seq) + le16(h.timestamp)
        + le16(h.timestamp_reply) + le32(h.link_seq) + seq![h.link_id, flags_byte(h)]
}

/// The header that a 20 byte sequence encodes.
pub open spec fn spec_header_from_bytes(b: Seq<u8>) -> MultiLinkHeader {
    MultiLinkHeader {
        c: b[0],
        n: b[1],
        i: b[2],
        len: from_le16(b[3], b[4]),
        stream_id: b[5],
        stream_seq: from_le32(b[6], b[7], b[8], b[9]),
        timestamp: from_le16(b[10], b[11]),
        timestamp_reply: from_le16(b[12], b[13]),
        link_seq: from_le32(b[14], b[15], b[16], b[17]),
        link_id: b[18],
        pkt_type: packet_type_of_code(b[19]),
        reorder: (b[19] / 4) % 2 == 1,
        srrt_calculation: (b[19] / 8) % 2 == 1,
        padding: b[19] / 16,
    }
}

impl MultiLinkHeader {
    /// A header holds only four bits of padding.
    pub open spec fn wf(self) -> bool {
        self.padding < 16
    }

    /// The all-zero header.
    pub fn new() -> (h: MultiLinkHeader)
        ensures
            h.wf(),
            h == spec_header_from_bytes(Seq::new(20, |k: int| 0u8)),
    {
        MultiLinkHeader {
            c: 0,
            n: 0,
            i: 0,
            len: 0,
            stream_id: 0,
            stream_seq: 0,
            timestamp: 0,
            timestamp_reply: 0,
            link_seq: 0,
            link_id: 0,
            pkt_type: PacketType::Keepalive,
            reorder: false,
            srrt_calculation: false,
            padding: 0,
        }
    }
}

fn packet_type_to_code(t: PacketType) -> (r: u8)
    ensures
        r == packet_type_code(t),
{
    match t {
        PacketType::Keepalive => 0,
        PacketType::Data => 1,
        PacketType::DataDup => 2,
        PacketType::Initiate => 3,
    }
}

fn packet_type_from_code(code: u8) -> (t: PacketType)
    ensures
        t == packet_type_of_code(code),
{
    let low = code % 4;
    if low == 0 {
        PacketType::Keepalive
    } else if low == 1 {
        PacketType::Data
    } else if low == 2 {
        PacketType::DataDup
    } else {
        PacketType::Initiate
    }
}


impl MultiLinkHeader {
    /// The 20 byte wire encoding of the header.
    pub fn into_bytes(&self) -> (b: [u8; 20])
        requires
            self.wf(),
        ensures
            b@ == spec_header_bytes(*self),
    {
        let t = packet_type_to_code(self.pkt_type);
        let r: u8 = if self.reorder { 4 } else { 0 };
        let s: u8 = if self.srrt_calculation { 8 } else { 0 };
        let flags: u8 = t + r + s + self.padding * 16;
        let b: [u8; 20] = [
            self.c,
            self.n,
            self.i,
            (self.len % 256) as u8,
            (self.len / 256) as u8,
            self.stream_id,
            (self.stream_seq % 256) as u8,
            ((self.stream_seq / 256) % 256) as u8,
            ((self.stream_seq / 65536) % 256) as u8,
            (self.stream_seq / 16777216) as u8,
            (self.timestamp % 256) as u8,
            (self.timestamp / 256) as u8,
            (self.timestamp_reply % 256) as u8,
            (self.timestamp_reply / 256) as u8,
            (self.link_seq % 256) as u8,
            ((self.link_seq / 256) % 256) as u8,
            ((self.link_seq / 65536) % 256) as u8,
            (self.link_seq / 16777216) as u8,
            self.link_id,
            flags,
        ];
        assert(b@ =~= spec_header_bytes(*self));
        b
    }

    /// The header encoded by 20 bytes.
    pub fn from_bytes(bytes: [u8; 20]) -> (h: MultiLinkHeader)
        ensures
            h == spec_header_from_bytes(bytes@),
            h.wf(),
    {
        let last = bytes[19];
        MultiLinkHeader {
            c: bytes[0],
            n: bytes[1],
            i: bytes[2],
            len: bytes[3] as u16 + (bytes[4] as u16) * 256,
            stream_id: bytes[5],
            stream_seq: bytes[6] as u32 + (bytes[7] as u32) * 256 + (bytes[8] as u32) * 65536
                + (bytes[9] as u32) * 16777216,
            timestamp: bytes[10] as u16 + (bytes[11] as u16) * 256,
            timestamp_reply: bytes[12] as u16 + (bytes[13] as u16) * 256,
            link_seq: bytes[14] as u32 + (bytes[15] as u32) * 256 + (bytes[16] as u32) * 65536
                + (bytes[17] as u32) * 16777216,
            link_id: bytes[18],
            pkt_type: packet_type_from_code(last),
            reorder: (last / 4) % 2 == 1,
            srrt_calculation: (last / 8) % 2 == 1,
            padding: last / 16,
        }
    }
}

/// Decoding the encoding of a well-formed header gives the header back.
pub proof fn lemma_header_bytes_roundtrip(h: MultiLinkHeader)
    requires
        h.wf(),
    ensures
        spec_header_bytes(h).len() == MULTILINK_HEADER_SIZE,
        spec_header_from_bytes(spec_header_bytes(h)) == h,
{
    let b = spec_header_bytes(h);
    assert(b.len() == 20);
    lemma_le16_roundtrip(h.len);
    lemma_le16_roundtrip(h.timestamp);
    lemma_le16_roundtrip(h.timestamp_reply);
    lemma_le32_roundtrip(h.stream_seq);
    lemma_le32_roundtrip(h.link_seq);
    assert(b[3] == le16(h.len)[0] && b[4] == le16(h.len)[1]);
    assert(b[6] == le32(h.stream_seq)[0] && b[9] == le32(h.stream_seq)[3]);
    assert(b[7] == le32(h.stream_seq)[1] && b[8] == le32(h.stream_seq)[2]);
    assert(b[10] == le16(h.timestamp)[0] && b[11] == le16(h.timestamp)[1]);
    assert(b[12] == le16(h.timestamp_reply)[0] && b[13] == le16(h.timestamp_reply)[1]);
    assert(b[14] == le32(h.link_seq)[0] && b[17] == le32(h.link_seq)[3]);
    assert(b[15] == le32(h.link_seq)[1] && b[16] == le32(h.link_seq)[2]);
    assert(b[19] == flags_byte(h));
    lemma_flags_roundtrip(h);
}

/// Encoding the header that 20 bytes decode to gives the bytes back.
pub proof fn lemma_bytes_header_roundtrip(b: Seq<u8>)
    requires
        b.len() == MULTILINK_HEADER_SIZE,
    ensures
        spec_header_from_bytes(b).wf(),
        spec_header_bytes(spec_header_from_bytes(b)) == b,
{
    let h = spec_header_from_bytes(b);
    lemma_from_le16_roundtrip(b[3], b[4]);
    lemma_from_le16_roundtrip(b[10], b[11]);
    lemma_from_le16_roundtrip(b[12], b[13]);
    lemma_from_le32_roundtrip(b[6], b[7], b[8], b[9]);
    lemma_from_le32_roundtrip(b[14], b[15], b[16], b[17]);
    lemma_flags_from_byte(b[19]);
    assert(spec_header_bytes(h) =~= b);
}

proof fn lemma_le16_roundtrip(x: u16)
    ensures
        from_le16(le16(x)[0], le16(x)[1]) == x,
{
}

proof fn lemma_le32_roundtrip(x: u32)
    ensures
        from_le32(le32(x)[0], le32(x)[1], le32(x)[2], le32(x)[3]) == x,
{
    assert(x == x % 256 + ((x / 256) % 256) * 256 + ((x / 65536) % 256) * 65536 + (x / 16777216)
        * 16777216) by (nonlinear_arith);
}

proof fn lemma_from_le16_roundtrip(b0: u8, b1: u8)
    ensures
        le16(from_le16(b0, b1)) == seq![b0, b1],
{
    assert(le16(from_le16(b0, b1)) =~= seq![b0, b1]);
}

proof fn lemma_from_le32_roundtrip(b0: u8, b1: u8, b2: u8, b3: u8)
    ensures
        le32(from_le32(b0, b1, b2, b3)) == seq![b0, b1, b2, b3],
{
    let x: int = b0 + b1 * 256 + b2 * 65536 + b3 * 16777216;
    assert(0 <= x < 0x1_0000_0000) by (nonlinear_arith)
        requires
            x == b0 + b1 * 256 + b2 * 65536 + b3 * 16777216,
            0 <= b0 < 256,
            0 <= b1 < 256,
            0 <= b2 < 256,
            0 <= b3 < 256,
    ;
    assert(x % 256 == b0 && (x / 256) % 256 == b1 && (x / 65536) % 256 == b2 && x / 16777216
        == b3) by (nonlinear_arith)
        requires
            x == b0 + b1 * 256 + b2 * 65536 + b3 * 16777216,
            0 <= b0 < 256,
            0 <= b1 < 256,
            0 <= b2 < 256,
            0 <= b3 < 256,
    ;
    assert(le32(from_le32(b0, b1, b2, b3)) =~= seq![b0, b1, b2, b3]);
}

proof fn lemma_flags_roundtrip(h: MultiLinkHeader)
    requires
        h.wf(),
    ensures
        packet_type_of_code(flags_byte(h)) == h.pkt_type,
        (flags_byte(h) / 4) % 2 == 1 <==> h.reorder,
        (flags_byte(h) / 8) % 2 == 1 <==> h.srrt_calculation,
        flags_byte(h) / 16 == h.padding,
{
}

proof fn lemma_flags_from_byte(f: u8)
    ensures
        flags_byte(spec_header_from_bytes(seq![0u8, 0, 0, 0, 0, 0, 0, 0, 0, 0, 0, 0, 0, 0, 0, 0, 0, 0, 0, f])) == f,
{
}


/// The header every builder starts from: magic bytes "CNI", stream 255,
/// everything else zero.
pub open spec fn spec_base_header() -> MultiLinkHeader {
    MultiLinkHeader {
        c: 0x43,
        n: 0x4E,
        i: 0x49,
        len: 0,
        stream_id: 255,
        stream_seq: 0,
        timestamp: 0,
        timestamp_reply: 0,
        link_seq: 0,
        link_id: 0,
        pkt_type: PacketType::Keepalive,
        reorder: false,
        srrt_calculation: false,
        padding: 0,
    }
}

fn build_base_multilink_header() -> (h: MultiLinkHeader)
    ensures
        h == spec_base_header(),
{
    MultiLinkHeader {
        c: 0x43,
        n: 0x4E,
        i: 0x49,
        len: 0,
        stream_id: 255,
        stream_seq: 0,
        timestamp: 0,
        timestamp_reply: 0,
        link_seq: 0,
        link_id: 0,
        pkt_type: PacketType::Keepalive,
        reorder: false,
        srrt_calculation: false,
        padding: 0,
    }
}

/// Builds the header of a data packet carrying `payload_size` bytes.
pub fn build_multilink_header(
    pkt_type: PacketType,
    stream_id: u8,
    stream_seq: u32,
    reorder: bool,
    payload_size: u16,
    timestamp: u16,
    calc_rtt: bool,
    timestamp_reply: u16,
) -> (h: MultiLinkHeader)
    requires
        payload_size + MULTILINK_HEADER_SIZE <= u16::MAX,
    ensures
        h == (MultiLinkHeader {
            len: (payload_size + MULTILINK_HEADER_SIZE) as u16,
            pkt_type,
            stream_id,
            stream_seq,
            reorder,
            srrt_calculation: calc_rtt,
            timestamp,
            timestamp_reply,
            ..spec_base_header()
        }),
        h.wf(),
{
    let mut header = build_base_multilink_header();
    header.len = MULTILINK_HEADER_SIZE as u16 + payload_size;
    header.pkt_type = pkt_type;
    header.stream_id = stream_id;
    header.stream_seq = stream_seq;
    header.reorder = reorder;
    header.srrt_calculation = calc_rtt;
    header.timestamp = timestamp;
    header.timestamp_reply = timestamp_reply;
    header
}

/// Builds the header of a keepalive packet.
pub fn build_keepalive_multilink_header(
    timestamp: u16,
    calc_rtt: bool,
    timestamp_reply: u16,
    link_seq: u32,
) -> (h: MultiLinkHeader)
    ensures
        h == (MultiLinkHeader {
            len: MULTILINK_HEADER_SIZE as u16,
            pkt_type: PacketType::Keepalive,
            srrt_calculation: calc_rtt,
            timestamp,
            timestamp_reply,
            link_seq,
            ..spec_base_header()
        }),
        h.wf(),
{
    let mut header = build_base_multilink_header();
    header.len = MULTILINK_HEADER_SIZE as u16;
    header.pkt_type = PacketType::Keepalive;
    header.stream_id = 255;
    header.stream_seq = 0;
    header.reorder = false;
    header.srrt_calculation = calc_rtt;
    header.timestamp = timestamp;
    header.timestamp_reply = timestamp_reply;
    header.link_id = 0;
    header.link_seq = link_seq;
    header
}

/// Builds the header of the packet that announces a (re)started peer.
pub fn build_initiate_multilink_header() -> (h: MultiLinkHeader)
    ensures
        h == (MultiLinkHeader {
            len: MULTILINK_HEADER_SIZE as u16,
            pkt_type: PacketType::Initiate,
            ..spec_base_header()
        }),
        h.wf(),
{
    let mut header = build_base_multilink_header();
    header.len = MULTILINK_HEADER_SIZE as u16;
    header.pkt_type = PacketType::Initiate;
    header
}

} // verus!
