use vstd::prelude::*;

verus! {

/// Seconds between the NTP epoch (1900-01-01) and the Unix epoch (1970-01-01).
pub const NTP_UNIX_OFFSET: u64 = 2208988800;

/// Length in bytes of an NTP packet without extension fields.
pub const PACKET_LEN: usize = 48;

/// The header of an NTP packet, as sent and received over UDP port 123.
#[derive(Debug, Clone, Copy, PartialEq, Eq, Structural)]
pub struct Packet {
    pub li_vn_mode: u8,
    pub stratum: u8,
    pub poll: u8,
    pub precision: u8,
    pub root_delay: u32,
    pub root_dispersion: u32,
    pub ref_id: u32,
    pub ref_timestamp: u64,
    pub orig_timestamp: u64,
    pub recv_timestamp: u64,
    pub transmit_timestamp: u64,
}

/// The big-endian unsigned value of the four bytes of `b` starting at `at`.
pub open spec fn be_u32(b: Seq<u8>, at: int) -> int {
    b[at] * 0x100_0000 + b[at + 1] * 0x1_0000 + b[at + 2] * 0x100 + b[at + 3]
}

/// The big-endian unsigned value of the eight bytes of `b` starting at `at`.
pub open spec fn be_u64(b: Seq<u8>, at: int) -> int {
    be_u32(b, at) * 0x1_0000_0000 + be_u32(b, at + 4)
}

/// The packet that the first `PACKET_LEN` bytes of `b` encode.
pub open spec fn decode_packet(b: Seq<u8>) -> Packet {
    Packet {
        li_vn_mode: b[0],
        stratum: b[1],
        poll: b[2],
        precision: b[3],
        root_delay: be_u32(b, 4) as u32,
        root_dispersion: be_u32(b, 8) as u32,
        ref_id: be_u32(b, 12) as u32,
        ref_timestamp: be_u64(b, 16) as u64,
        orig_timestamp: be_u64(b, 24) as u64,
        recv_timestamp: be_u64(b, 32) as u64,
        transmit_timestamp: be_u64(b, 40) as u64,
    }
}

/// The bytes a client sends: the mode byte first, every other byte zero.
pub open spec fn encode_request(li_vn_mode: u8) -> Seq<u8> {
    Seq::new(PACKET_LEN as nat, |i: int| if i == 0 { li_vn_mode } else { 0u8 })
}

/// The client request: LI = 0, VN = 3, Mode = 3 (client), everything else zero.
pub open spec fn client_request() -> Packet {
    Packet {
        li_vn_mode: 0x1b,
        stratum: 0,
        poll: 0,
        precision: 0,
        root_delay: 0,
        root_dispersion: 0,
        ref_id: 0,
        ref_timestamp: 0,
        orig_timestamp: 0,
        recv_timestamp: 0,
        transmit_timestamp: 0,
    }
}

/// The Unix time, in seconds, of the seconds part of an NTP timestamp; a time
/// before the Unix epoch gives 0.
pub open spec fn unix_seconds(ntp_timestamp: u64) -> int {
    let seconds = ntp_timestamp as int / 0x1_0000_0000;
    if seconds >= NTP_UNIX_OFFSET { seconds - NTP_UNIX_OFFSET } else { 0 }
}

fn read_be_u32(bytes: &[u8], at: usize) -> (r: u32)
    requires
        at + 4 <= bytes@.len(),
    ensures
        r == be_u32(bytes@, at as int),
{
    (bytes[at] as u32) * 0x100_0000 + (bytes[at + 1] as u32) * 0x1_0000 + (bytes[at + 2] as u32)
        * 0x100 + (bytes[at + 3] as u32)
}

fn read_be_u64(bytes: &[u8], at: usize) -> (r: u64)
    requires
        at + 8 <= bytes@.len(),
    ensures
        r == be_u64(bytes@, at as int),
{
    proof {
        assert(bytes@.len() == bytes.len());
    }
    let hi = read_be_u32(bytes, at);
    let lo = read_be_u32(bytes, at + 4);
    (hi as u64) * 0x1_0000_0000 + (lo as u64)
}

impl Default for Packet {
    /// The client request packet.
    fn default() -> (p: Self)
        ensures
            p == client_request(),
    {
        Self {
            li_vn_mode: 0x1b,
            stratum: 0,
            poll: 0,
            precision: 0,
            root_delay: 0,
            root_dispersion: 0,
            ref_id: 0,
            ref_timestamp: 0,
            orig_timestamp: 0,
            recv_timestamp: 0,
            transmit_timestamp: 0,
        }
    }
}

impl Packet {
    /// Encodes the packet as a client request: only the mode byte is sent,
    /// every other byte is zero.
    pub fn to_bytes(&self) -> (bytes: [u8; 48])
        ensures
            bytes@ == encode_request(self.li_vn_mode),
    {
        let mut bytes = [0u8; 48];
        bytes[0] = self.li_vn_mode;
        assert(bytes@ =~= encode_request(self.li_vn_mode));
        bytes
    }

    /// Decodes a packet from the first 48 bytes of `bytes`, whose multi-byte
    /// fields are big-endian; fails when fewer than 48 bytes are given.
    pub fn from_bytes(bytes: &[u8]) -> (r: Result<Self, &'static str>)
        ensures
            r is Err <==> bytes@.len() < PACKET_LEN,
            r matches Ok(p) ==> p == decode_packet(bytes@),
            r matches Err(e) ==> e@ == "Buffer too short"@,
    {
        if bytes.len() < 48 {
            return Err("Buffer too short");
        }
        Ok(Self {
            li_vn_mode: bytes[0],
            stratum: bytes[1],
            poll: bytes[2],
            precision: bytes[3],
            root_delay: read_be_u32(bytes, 4),
            root_dispersion: read_be_u32(bytes, 8),
            ref_id: read_be_u32(bytes, 12),
            ref_timestamp: read_be_u64(bytes, 16),
            orig_timestamp: read_be_u64(bytes, 24),
            recv_timestamp: read_be_u64(bytes, 32),
            transmit_timestamp: read_be_u64(bytes, 40),
        })
    }

    /// The Unix time of the transmit timestamp, in whole seconds; 0 for a
    /// time before the Unix epoch.
    pub fn get_unix_time(&self) -> (t: u64)
        ensures
            t == unix_seconds(self.transmit_timestamp),
    {
        let ts = self.transmit_timestamp;
        let seconds = ts >> 32;
        assert(seconds == ts / 0x1_0000_0000) by (bit_vector)
            requires
                seconds == ts >> 32,
        ;
        seconds.saturating_sub(NTP_UNIX_OFFSET)
    }
}

/// A request decodes to the packet it was encoded from, with the fields that
/// a request does not carry read as zero; in particular the default request
/// packet survives the trip.
pub proof fn law_request_roundtrip(li_vn_mode: u8)
    ensures
        decode_packet(encode_request(li_vn_mode)) == (Packet { li_vn_mode, ..client_request() }),
        decode_packet(encode_request(client_request().li_vn_mode)) == client_request(),
{
    let b = encode_request(li_vn_mode);
    assert(b[0] == li_vn_mode);
    assert forall|k: int| 1 <= k < PACKET_LEN implies b[k] == 0 by {}
}

/// The Unix time undoes the epoch shift: a transmit timestamp whose seconds
/// are `u` seconds after the Unix epoch gives `u`, whatever its fraction.
pub proof fn law_unix_time_of_timestamp(u: int, fraction: int)
    requires
        0 <= u,
        u + NTP_UNIX_OFFSET < 0x1_0000_0000,
        0 <= fraction < 0x1_0000_0000,
    ensures
        unix_seconds(((u + NTP_UNIX_OFFSET) * 0x1_0000_0000 + fraction) as u64) == u,
{
    let ts = (u + NTP_UNIX_OFFSET) * 0x1_0000_0000 + fraction;
    assert(0 <= ts < 0x1_0000_0000 * 0x1_0000_0000) by (nonlinear_arith)
        requires
            0 <= u + NTP_UNIX_OFFSET < 0x1_0000_0000,
            0 <= fraction < 0x1_0000_0000,
            ts == (u + NTP_UNIX_OFFSET) * 0x1_0000_0000 + fraction,
    ;
    assert(ts / 0x1_0000_0000 == u + NTP_UNIX_OFFSET) by (nonlinear_arith)
        requires
            0 <= fraction < 0x1_0000_0000,
            ts == (u + NTP_UNIX_OFFSET) * 0x1_0000_0000 + fraction,
    ;
}

/// The four bytes of `v`, most significant first.
pub open spec fn be_bytes_u32(v: u32) -> Seq<u8> {
    seq![
        (v / 0x100_0000) as u8,
        (v / 0x1_0000 % 0x100) as u8,
        (v / 0x100 % 0x100) as u8,
        (v % 0x100) as u8,
    ]
}

/// The eight bytes of `v`, most significant first.
pub open spec fn be_bytes_u64(v: u64) -> Seq<u8> {
    be_bytes_u32((v / 0x1_0000_0000) as u32) + be_bytes_u32((v % 0x1_0000_0000) as u32)
}

/// The 48 bytes of a packet on the wire: the four one-byte fields, then the
/// three 32-bit and the four 64-bit fields, each most significant byte first.
pub open spec fn encode_packet(p: Packet) -> Seq<u8> {
    seq![p.li_vn_mode, p.stratum, p.poll, p.precision] + be_bytes_u32(p.root_delay)
        + be_bytes_u32(p.root_dispersion) + be_bytes_u32(p.ref_id) + be_bytes_u64(p.ref_timestamp)
        + be_bytes_u64(p.orig_timestamp) + be_bytes_u64(p.recv_timestamp) + be_bytes_u64(
        p.transmit_timestamp,
    )
}

proof fn lemma_be_u32_of_bytes(v: u32, b: Seq<u8>, at: int)
    requires
        0 <= at,
        at + 4 <= b.len(),
        b.subrange(at, at + 4) == be_bytes_u32(v),
    ensures
        be_u32(b, at) == v,
{
    let w = b.subrange(at, at + 4);
    assert(b[at] == w[0] && b[at + 1] == w[1] && b[at + 2] == w[2] && b[at + 3] == w[3]);
    let x0 = v / 0x100_0000;
    let x1 = v / 0x1_0000 % 0x100;
    let x2 = v / 0x100 % 0x100;
    let x3 = v % 0x100;
    assert(x0 < 0x100 && x1 < 0x100 && x2 < 0x100 && x3 < 0x100) by (bit_vector)
        requires
            x0 == v / 0x100_0000,
            x1 == v / 0x1_0000 % 0x100,
            x2 == v / 0x100 % 0x100,
            x3 == v % 0x100,
    ;
    assert(x0 * 0x100_0000 + x1 * 0x1_0000 + x2 * 0x100 + x3 == v) by (bit_vector)
        requires
            x0 == v / 0x100_0000,
            x1 == v / 0x1_0000 % 0x100,
            x2 == v / 0x100 % 0x100,
            x3 == v % 0x100,
    ;
}

proof fn lemma_be_u64_of_bytes(v: u64, b: Seq<u8>, at: int)
    requires
        0 <= at,
        at + 8 <= b.len(),
        b.subrange(at, at + 8) == be_bytes_u64(v),
    ensures
        be_u64(b, at) == v,
{
    let hi = (v / 0x1_0000_0000) as u32;
    let lo = (v % 0x1_0000_0000) as u32;
    assert(b.subrange(at, at + 4) =~= b.subrange(at, at + 8).subrange(0, 4));
    assert(b.subrange(at + 4, at + 8) =~= b.subrange(at, at + 8).subrange(4, 8));
    assert(be_bytes_u64(v).subrange(0, 4) =~= be_bytes_u32(hi));
    assert(be_bytes_u64(v).subrange(4, 8) =~= be_bytes_u32(lo));
    lemma_be_u32_of_bytes(hi, b, at);
    lemma_be_u32_of_bytes(lo, b, at + 4);
    assert(v as int / 0x1_0000_0000 < 0x1_0000_0000 && v as int == (v as int / 0x1_0000_0000)
        * 0x1_0000_0000 + v as int % 0x1_0000_0000) by (nonlinear_arith)
        requires
            0 <= v < 0x1_0000_0000 * 0x1_0000_0000,
    ;
}

/// A packet read back from its own wire bytes is the packet itself: every
/// field goes on the wire most significant byte first, at its own offset.
pub proof fn law_packet_wire_roundtrip(p: Packet)
    ensures
        encode_packet(p).len() == PACKET_LEN,
        decode_packet(encode_packet(p)) == p,
{
    let b = encode_packet(p);
    assert(b.len() == 48);
    assert(b.subrange(4, 8) =~= be_bytes_u32(p.root_delay));
    assert(b.subrange(8, 12) =~= be_bytes_u32(p.root_dispersion));
    assert(b.subrange(12, 16) =~= be_bytes_u32(p.ref_id));
    assert(b.subrange(16, 24) =~= be_bytes_u64(p.ref_timestamp));
    assert(b.subrange(24, 32) =~= be_bytes_u64(p.orig_timestamp));
    assert(b.subrange(32, 40) =~= be_bytes_u64(p.recv_timestamp));
    assert(b.subrange(40, 48) =~= be_bytes_u64(p.transmit_timestamp));
    lemma_be_u32_of_bytes(p.root_delay, b, 4);
    lemma_be_u32_of_bytes(p.root_dispersion, b, 8);
    lemma_be_u32_of_bytes(p.ref_id, b, 12);
    lemma_be_u64_of_bytes(p.ref_timestamp, b, 16);
    lemma_be_u64_of_bytes(p.orig_timestamp, b, 24);
    lemma_be_u64_of_bytes(p.recv_timestamp, b, 32);
    lemma_be_u64_of_bytes(p.transmit_timestamp, b, 40);
}

/// A transmit time before the Unix epoch reads as 0; from the epoch on, one
/// more second of NTP time is one more second of Unix time.
pub proof fn law_unix_time_before_and_after_epoch(ts: u64)
    ensures
        ts < NTP_UNIX_OFFSET * 0x1_0000_0000 ==> unix_seconds(ts) == 0,
        ts >= NTP_UNIX_OFFSET * 0x1_0000_0000 && ts as int + 0x1_0000_0000 <= u64::MAX
            ==> unix_seconds((ts + 0x1_0000_0000) as u64) == unix_seconds(ts) + 1,
{
}

} // verus!
