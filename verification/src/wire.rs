//! The wire format: a header of 20 bytes, a chain of extensions, and the payload.
//! Numbers are big-endian. The header names the first extension; each extension starts
//! with the name of the next one and its own length. The name 0 ends the chain.
use crate::error::ParseError;
use crate::packet::{optional_bytes, Packet, PacketType, PacketView};
use crate::time::{Delay, Timestamp};
use vstd::prelude::*;
use vstd::slice::{slice_subrange, slice_to_vec};

verus! {

/// The length of the header in bytes.
pub const HEADER_SIZE: usize = 20;

/// The version of the protocol.
pub const VERSION: u8 = 1;

/// The name of the selective acknowledgement among the extensions.
pub const SELECTIVE_ACK: u8 = 1;

/// The longest selective acknowledgement that an extension can hold, in bytes.
pub const MAX_SACK_SIZE: usize = 252;

/// The number that stands for a packet type.
pub open spec fn type_code(ty: PacketType) -> u8 {
    match ty {
        PacketType::Data => 0,
        PacketType::Fin => 1,
        PacketType::State => 2,
        PacketType::Reset => 3,
        PacketType::Syn => 4,
        PacketType::Ack => 5,
    }
}

/// The packet type that a number stands for.
pub open spec fn type_of_code(code: u8) -> Option<PacketType> {
    if code == 0 {
        Some(PacketType::Data)
    } else if code == 1 {
        Some(PacketType::Fin)
    } else if code == 2 {
        Some(PacketType::State)
    } else if code == 3 {
        Some(PacketType::Reset)
    } else if code == 4 {
        Some(PacketType::Syn)
    } else if code == 5 {
        Some(PacketType::Ack)
    } else {
        None
    }
}

/// Two bytes, the higher one first.
pub open spec fn two_bytes(v: u16) -> Seq<u8> {
    seq![(v / 256) as u8, (v % 256) as u8]
}

/// Four bytes, the highest one first.
pub open spec fn four_bytes(v: u32) -> Seq<u8> {
    seq![
        (v / 16777216) as u8,
        (v / 65536 % 256) as u8,
        (v / 256 % 256) as u8,
        (v % 256) as u8,
    ]
}

/// The number in the two bytes from `at` on.
pub open spec fn u16_at(b: Seq<u8>, at: int) -> u16 {
    (b[at] * 256 + b[at + 1]) as u16
}

/// The number in the four bytes from `at` on.
pub open spec fn u32_at(b: Seq<u8>, at: int) -> u32 {
    (b[at] * 16777216 + b[at + 1] * 65536 + b[at + 2] * 256 + b[at + 3]) as u32
}

/// The header of a packet.
pub open spec fn header(p: PacketView) -> Seq<u8> {
    seq![
        (type_code(p.ty) * 16 + VERSION) as u8,
        if p.sack is Some {
            SELECTIVE_ACK
        } else {
            0
        },
    ] + two_bytes(p.connection_id) + four_bytes(p.timestamp.0) + four_bytes(
        p.timestamp_difference.0,
    ) + four_bytes(p.wnd_size) + two_bytes(p.seq_nr) + two_bytes(p.ack_nr)
}

/// The extensions of a packet.
pub open spec fn extension(p: PacketView) -> Seq<u8> {
    match p.sack {
        Some(s) => seq![0u8, s.len() as u8] + s,
        None => Seq::empty(),
    }
}

/// A packet in the wire format.
pub open spec fn encoding(p: PacketView) -> Seq<u8> {
    header(p) + extension(p) + p.payload
}

/// Whether the wire format can express a packet.
pub open spec fn is_encodable(p: PacketView) -> bool {
    p.sack matches Some(s) ==> 0 < s.len() <= MAX_SACK_SIZE && s.len() % 4 == 0
}

/// The first selective acknowledgement in the chain of extensions that starts at `at` with
/// one named `name`, and where the chain ends.
pub open spec fn extensions_at(b: Seq<u8>, name: u8, at: int) -> Result<
    (Option<Seq<u8>>, int),
    ParseError,
>
    decreases b.len() - at,
{
    if name == 0 {
        Ok((None, at))
    } else if at + 2 > b.len() || at < 0 {
        Err(ParseError::InvalidPacketLength)
    } else {
        let end = at + 2 + b[at + 1];
        if b[at + 1] == 0 || b[at + 1] % 4 != 0 || end > b.len() {
            Err(ParseError::InvalidExtensionLength)
        } else {
            match extensions_at(b, b[at], end) {
                Ok((later, chain_end)) => Ok(
                    (
                        if name == SELECTIVE_ACK {
                            Some(b.subrange(at + 2, end))
                        } else {
                            later
                        },
                        chain_end,
                    ),
                ),
                Err(e) => Err(e),
            }
        }
    }
}

/// The packet that a datagram holds.
pub open spec fn decoding(b: Seq<u8>) -> Result<PacketView, ParseError> {
    if b.len() < HEADER_SIZE {
        Err(ParseError::InvalidPacketLength)
    } else if b[0] % 16 != VERSION {
        Err(ParseError::UnsupportedVersion)
    } else {
        match type_of_code(b[0] / 16) {
            None => Err(ParseError::InvalidPacketType((b[0] / 16) as u8)),
            Some(ty) => match extensions_at(b, b[1], HEADER_SIZE as int) {
                Err(e) => Err(e),
                Ok((sack, end)) => Ok(
                    PacketView {
                        ty,
                        connection_id: u16_at(b, 2),
                        timestamp: Timestamp(u32_at(b, 4)),
                        timestamp_difference: Delay(u32_at(b, 8)),
                        wnd_size: u32_at(b, 12),
                        seq_nr: u16_at(b, 16),
                        ack_nr: u16_at(b, 18),
                        sack,
                        payload: b.subrange(end, b.len() as int),
                    },
                ),
            },
        }
    }
}

fn code_of(ty: PacketType) -> (code: u8)
    ensures
        code == type_code(ty),
{
    match ty {
        PacketType::Data => 0,
        PacketType::Fin => 1,
        PacketType::State => 2,
        PacketType::Reset => 3,
        PacketType::Syn => 4,
        PacketType::Ack => 5,
    }
}

fn type_of(code: u8) -> (ty: Option<PacketType>)
    ensures
        ty == type_of_code(code),
{
    match code {
        0 => Some(PacketType::Data),
        1 => Some(PacketType::Fin),
        2 => Some(PacketType::State),
        3 => Some(PacketType::Reset),
        4 => Some(PacketType::Syn),
        5 => Some(PacketType::Ack),
        _ => None,
    }
}

fn push_u16(out: &mut Vec<u8>, v: u16)
    ensures
        final(out)@ == old(out)@ + two_bytes(v),
{
    out.push((v / 256) as u8);
    out.push((v % 256) as u8);
    assert(out@ =~= old(out)@ + two_bytes(v));
}

fn push_u32(out: &mut Vec<u8>, v: u32)
    ensures
        final(out)@ == old(out)@ + four_bytes(v),
{
    out.push((v / 16777216) as u8);
    out.push((v / 65536 % 256) as u8);
    out.push((v / 256 % 256) as u8);
    out.push((v % 256) as u8);
    assert(out@ =~= old(out)@ + four_bytes(v));
}

fn read_u16(b: &[u8], at: usize) -> (v: u16)
    requires
        at + 2 <= b@.len(),
    ensures
        v == u16_at(b@, at as int),
{
    (b[at] as u16) * 256 + (b[at + 1] as u16)
}

fn read_u32(b: &[u8], at: usize) -> (v: u32)
    requires
        at + 4 <= b@.len(),
    ensures
        v == u32_at(b@, at as int),
{
    (b[at] as u32) * 16777216 + (b[at + 1] as u32) * 65536 + (b[at + 2] as u32) * 256 + (b[at
        + 3] as u32)
}

/// Reads the chain of extensions: the first selective acknowledgement in it, and where it ends.
fn read_extensions(b: &[u8]) -> (r: Result<(Option<Vec<u8>>, usize), ParseError>)
    requires
        b@.len() >= HEADER_SIZE,
    ensures
        match r {
            Ok((sack, end)) => extensions_at(b@, b@[1], HEADER_SIZE as int) == Ok::<
                (Option<Seq<u8>>, int),
                ParseError,
            >((optional_bytes(sack), end as int)) && HEADER_SIZE <= end <= b@.len(),
            Err(e) => extensions_at(b@, b@[1], HEADER_SIZE as int) == Err::<
                (Option<Seq<u8>>, int),
                ParseError,
            >(e),
        },
{
    let mut name: u8 = b[1];
    let mut at: usize = HEADER_SIZE;
    let mut sack: Option<Vec<u8>> = None;
    while name != 0
        invariant
            HEADER_SIZE <= at <= b@.len(),
            extensions_at(b@, b@[1], HEADER_SIZE as int) == (match extensions_at(
                b@,
                name,
                at as int,
            ) {
                Ok((later, end)) => Ok::<(Option<Seq<u8>>, int), ParseError>(
                    (
                        if sack is Some {
                            optional_bytes(sack)
                        } else {
                            later
                        },
                        end,
                    ),
                ),
                Err(e) => Err(e),
            }),
        decreases b@.len() - at,
    {
        if b.len() - at < 2 {
            return Err(ParseError::InvalidPacketLength);
        }
        let len: usize = b[at + 1] as usize;
        if len == 0 || len % 4 != 0 || b.len() - at - 2 < len {
            return Err(ParseError::InvalidExtensionLength);
        }
        let end: usize = at + 2 + len;
        if name == SELECTIVE_ACK && sack.is_none() {
            sack = Some(slice_to_vec(slice_subrange(b, at + 2, end)));
        }
        name = b[at];
        at = end;
    }
    Ok((sack, at))
}

impl Packet {
    /// The packet in the wire format, unless its selective acknowledgement cannot be expressed
    /// there.
    pub fn to_bytes(&self) -> (bytes: Option<Vec<u8>>)
        ensures
            bytes is Some <==> is_encodable(self@),
            bytes matches Some(b) ==> b@ == encoding(self@),
    {
        let mut out: Vec<u8> = Vec::new();
        let name: u8 = match &self.sack {
            Some(s) => {
                if s.len() == 0 || s.len() > MAX_SACK_SIZE || s.len() % 4 != 0 {
                    return None;
                }
                SELECTIVE_ACK
            },
            None => 0,
        };
        out.push(code_of(self.ty) * 16 + VERSION);
        out.push(name);
        push_u16(&mut out, self.connection_id);
        push_u32(&mut out, self.timestamp.0);
        push_u32(&mut out, self.timestamp_difference.0);
        push_u32(&mut out, self.wnd_size);
        push_u16(&mut out, self.seq_nr);
        push_u16(&mut out, self.ack_nr);
        assert(out@ =~= header(self@));
        if let Some(s) = &self.sack {
            out.push(0);
            out.push(s.len() as u8);
            out.extend_from_slice(s.as_slice());
        }
        assert(out@ =~= header(self@) + extension(self@));
        out.extend_from_slice(self.payload.as_slice());
        assert(out@ =~= encoding(self@));
        Some(out)
    }

    /// The packet that a datagram holds.
    pub fn try_from(bytes: &[u8]) -> (r: Result<Packet, ParseError>)
        ensures
            match r {
                Ok(p) => decoding(bytes@) == Ok::<PacketView, ParseError>(p@),
                Err(e) => decoding(bytes@) == Err::<PacketView, ParseError>(e),
            },
    {
        if bytes.len() < HEADER_SIZE {
            return Err(ParseError::InvalidPacketLength);
        }
        if bytes[0] % 16 != VERSION {
            return Err(ParseError::UnsupportedVersion);
        }
        let ty = match type_of(bytes[0] / 16) {
            Some(ty) => ty,
            None => {
                return Err(ParseError::InvalidPacketType(bytes[0] / 16));
            },
        };
        let (sack, end) = match read_extensions(bytes) {
            Ok(found) => found,
            Err(e) => {
                return Err(e);
            },
        };
        Ok(
            Packet {
                ty,
                connection_id: read_u16(bytes, 2),
                timestamp: Timestamp(read_u32(bytes, 4)),
                timestamp_difference: Delay(read_u32(bytes, 8)),
                wnd_size: read_u32(bytes, 12),
                seq_nr: read_u16(bytes, 16),
                ack_nr: read_u16(bytes, 18),
                sack,
                payload: slice_to_vec(slice_subrange(bytes, end, bytes.len())),
            },
        )
    }
}

proof fn two_bytes_hold_the_number(v: u16)
    ensures
        u16_at(two_bytes(v), 0) == v,
{
}

proof fn four_bytes_hold_the_number(v: u32)
    ensures
        u32_at(four_bytes(v), 0) == v,
{
}

/// A datagram holds the packet that was written into it: every packet that the wire format
/// can express is read back as it was.
pub proof fn decoding_undoes_encoding(p: PacketView)
    requires
        is_encodable(p),
    ensures
        decoding(encoding(p)) == Ok::<PacketView, ParseError>(p),
{
    let b = encoding(p);
    let h = header(p);
    assert(h.len() == 20);
    assert(forall|i: int| 0 <= i < 20 ==> b[i] == h[i]);
    two_bytes_hold_the_number(p.connection_id);
    two_bytes_hold_the_number(p.seq_nr);
    two_bytes_hold_the_number(p.ack_nr);
    four_bytes_hold_the_number(p.timestamp.0);
    four_bytes_hold_the_number(p.timestamp_difference.0);
    four_bytes_hold_the_number(p.wnd_size);
    assert(b[2] == two_bytes(p.connection_id)[0] && b[3] == two_bytes(p.connection_id)[1]);
    match p.sack {
        Some(s) => {
            let end = 22 + s.len() as int;
            assert(b[20] == 0 && b[21] == s.len());
            assert(b.subrange(22, end) =~= s);
            assert(extensions_at(b, 0, end) == Ok::<(Option<Seq<u8>>, int), ParseError>(
                (None, end),
            ));
            assert(b.subrange(end, b.len() as int) =~= p.payload);
        },
        None => {
            assert(b.subrange(20, b.len() as int) =~= p.payload);
        },
    }
    assert(decoding(b)->Ok_0 =~= p);
}

proof fn longer_chain(b: Seq<u8>, longer: Seq<u8>, name: u8, at: int)
    requires
        b.len() <= longer.len(),
        b == longer.subrange(0, b.len() as int),
        0 <= at <= b.len(),
        extensions_at(b, name, at) is Ok,
    ensures
        extensions_at(longer, name, at) == extensions_at(b, name, at),
        at <= extensions_at(b, name, at)->Ok_0.1 <= b.len(),
    decreases b.len() - at,
{
    if name != 0 {
        let end = at + 2 + b[at + 1];
        assert(longer[at] == b[at] && longer[at + 1] == b[at + 1]);
        longer_chain(b, longer, b[at], end);
        assert(b.subrange(at + 2, end) =~= longer.subrange(at + 2, end));
    }
}

/// A packet that is followed by further bytes is read as the same packet with a longer
/// payload. So a receive buffer can be read as a whole once the bytes received into it
/// have been found to be a packet.
pub proof fn trailing_bytes_are_payload(b: Seq<u8>, longer: Seq<u8>)
    requires
        b.len() <= longer.len(),
        b == longer.subrange(0, b.len() as int),
        decoding(b) is Ok,
    ensures
        decoding(longer) == Ok::<PacketView, ParseError>(
            PacketView {
                payload: decoding(b)->Ok_0.payload + longer.subrange(
                    b.len() as int,
                    longer.len() as int,
                ),
                ..decoding(b)->Ok_0
            },
        ),
{
    assert(forall|i: int| 0 <= i < b.len() ==> b[i] == longer[i]);
    longer_chain(b, longer, b[1], HEADER_SIZE as int);
    let end = extensions_at(b, b[1], HEADER_SIZE as int)->Ok_0.1;
    assert(longer.subrange(end, longer.len() as int) =~= b.subrange(end, b.len() as int)
        + longer.subrange(b.len() as int, longer.len() as int));
}

/// How long a packet is in the wire format.
pub proof fn encoding_length(p: PacketView)
    ensures
        encoding(p).len() == 20 + p.payload.len() + (match p.sack {
            Some(s) => 2 + s.len(),
            None => 0,
        }),
{
}

} // verus!
