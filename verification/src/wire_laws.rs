//! What calls that write and read packets do, byte by byte.
use crate::error::ParseError;
use crate::packet::{Packet, PacketType, PacketView};
use crate::wire::{
    decoding_undoes_encoding, encoding, extension, extensions_at, four_bytes, header, two_bytes,
    type_code,
};
use vstd::prelude::*;

verus! {

/// The number that the bytes of `b` from `at` up to `end` make up, the highest one first.
pub open spec fn number_at(b: Seq<u8>, at: int, end: int) -> int
    decreases end - at,
{
    if at >= end {
        0
    } else {
        number_at(b, at, end - 1) * 256 + b[end - 1]
    }
}

proof fn short_numbers(b: Seq<u8>, at: int)
    ensures
        number_at(b, at, at + 2) == b[at] * 256 + b[at + 1],
        number_at(b, at, at + 4) == b[at] * 16777216 + b[at + 1] * 65536 + b[at + 2] * 256 + b[at
            + 3],
{
    reveal_with_fuel(number_at, 5);
}

/// A packet can be written just if it carries no selective acknowledgement, or one of whole 32-bit
/// words, from 1 to 63 of them.
pub proof fn packets_that_can_be_written(p: Packet, r: Option<Vec<u8>>)
    requires
        call_ensures(Packet::to_bytes, (&p,), r),
    ensures
        r is Some <==> (p@.sack matches Some(s) ==> s.len() % 4 == 0 && 4 <= s.len() <= 4 * 63),
{
}

proof fn two_bytes_make_the_number(b: Seq<u8>, at: int, v: u16)
    requires
        b[at] == two_bytes(v)[0],
        b[at + 1] == two_bytes(v)[1],
    ensures
        number_at(b, at, at + 2) == v,
{
    short_numbers(b, at);
}

proof fn four_bytes_make_the_number(b: Seq<u8>, at: int, v: u32)
    requires
        b[at] == four_bytes(v)[0],
        b[at + 1] == four_bytes(v)[1],
        b[at + 2] == four_bytes(v)[2],
        b[at + 3] == four_bytes(v)[3],
    ensures
        number_at(b, at, at + 4) == v,
{
    short_numbers(b, at);
}

proof fn header_bytes(p: PacketView, b: Seq<u8>)
    requires
        b == encoding(p),
    ensures
        b.len() >= 20,
        b[0] == type_code(p.ty) * 16 + 1,
        b[1] == if p.sack is Some {
            1u8
        } else {
            0u8
        },
        forall|i: int| 0 <= i < 2 ==> b[2 + i] == #[trigger] two_bytes(p.connection_id)[i],
        forall|i: int| 0 <= i < 4 ==> b[4 + i] == #[trigger] four_bytes(p.timestamp.0)[i],
        forall|i: int| 0 <= i < 4 ==> b[8 + i] == #[trigger] four_bytes(p.timestamp_difference.0)[i],
        forall|i: int| 0 <= i < 4 ==> b[12 + i] == #[trigger] four_bytes(p.wnd_size)[i],
        forall|i: int| 0 <= i < 2 ==> b[16 + i] == #[trigger] two_bytes(p.seq_nr)[i],
        forall|i: int| 0 <= i < 2 ==> b[18 + i] == #[trigger] two_bytes(p.ack_nr)[i],
{
    let h = header(p);
    assert(h.len() == 20);
    assert(forall|i: int| 0 <= i < 20 ==> b[i] == h[i]);
}

/// Where in the header of a packet its fields stand.
#[verifier::spinoff_prover]
#[verifier::rlimit(30)]
pub proof fn fields_stand_in_their_places(p: Packet, r: Vec<u8>)
    requires
        call_ensures(Packet::to_bytes, (&p,), Some(r)),
    ensures
        ({
            let b = r@;
            &&& b.len() >= 20
            &&& b[0] % 16 == 1
            &&& p@.ty == PacketType::Data <==> b[0] / 16 == 0
            &&& p@.ty == PacketType::Fin <==> b[0] / 16 == 1
            &&& p@.ty == PacketType::State <==> b[0] / 16 == 2
            &&& p@.ty == PacketType::Reset <==> b[0] / 16 == 3
            &&& p@.ty == PacketType::Syn <==> b[0] / 16 == 4
            &&& p@.ty == PacketType::Ack <==> b[0] / 16 == 5
            &&& p@.sack is Some <==> b[1] == 1
            &&& p@.sack is None <==> b[1] == 0
            &&& number_at(b, 2, 4) == p@.connection_id
            &&& number_at(b, 4, 8) == p@.timestamp.0
            &&& number_at(b, 8, 12) == p@.timestamp_difference.0
            &&& number_at(b, 12, 16) == p@.wnd_size
            &&& number_at(b, 16, 18) == p@.seq_nr
            &&& number_at(b, 18, 20) == p@.ack_nr
        }),
{
    let b = r@;
    header_bytes(p@, b);
    two_bytes_make_the_number(b, 2, p@.connection_id);
    four_bytes_make_the_number(b, 4, p@.timestamp.0);
    four_bytes_make_the_number(b, 8, p@.timestamp_difference.0);
    four_bytes_make_the_number(b, 12, p@.wnd_size);
    two_bytes_make_the_number(b, 16, p@.seq_nr);
    two_bytes_make_the_number(b, 18, p@.ack_nr);
}

/// Behind the header stands the selective acknowledgement, if there is one, after the name of the
/// next extension, which is none, and its own length; and then the payload.
pub proof fn payload_stands_behind_the_header(p: Packet, r: Vec<u8>)
    requires
        call_ensures(Packet::to_bytes, (&p,), Some(r)),
    ensures
        r@.len() >= 20,
        r@.subrange(20, r@.len() as int) == (match p@.sack {
            Some(s) => seq![0u8, s.len() as u8] + s + p@.payload,
            None => p@.payload,
        }),
        p@.sack matches Some(s) ==> s.len() <= 255,
{
    let h = header(p@);
    assert(h.len() == 20);
    assert(r@.subrange(20, r@.len() as int) =~= extension(p@) + p@.payload);
    assert(Seq::<u8>::empty() + p@.payload =~= p@.payload);
}

/// A packet that is written and read again is the same packet.
pub proof fn written_packet_is_read_back(
    p: Packet,
    bytes: Vec<u8>,
    buf: &[u8],
    r: Result<Packet, ParseError>,
)
    requires
        call_ensures(Packet::to_bytes, (&p,), Some(bytes)),
        buf@ == bytes@,
        call_ensures(Packet::try_from, (buf,), r),
    ensures
        r is Ok,
        r->Ok_0@ == p@,
{
    decoding_undoes_encoding(p@);
}

/// A datagram that is no packet by its header is refused: it is shorter than a header, of another
/// version, or of a type that does not exist, and the first of these is the reason.
pub proof fn bad_headers_are_refused(buf: &[u8], r: Result<Packet, ParseError>)
    requires
        call_ensures(Packet::try_from, (buf,), r),
    ensures
        buf@.len() < 20 ==> r == Err::<Packet, ParseError>(ParseError::InvalidPacketLength),
        buf@.len() >= 20 && buf@[0] % 16 != 1 ==> r == Err::<Packet, ParseError>(
            ParseError::UnsupportedVersion,
        ),
        (r matches Err(ParseError::UnsupportedVersion)) <==> buf@.len() >= 20 && buf@[0] % 16 != 1,
        buf@.len() >= 20 && buf@[0] % 16 == 1 && buf@[0] / 16 > 5 ==> r == Err::<
            Packet,
            ParseError,
        >(ParseError::InvalidPacketType((buf@[0] / 16) as u8)),
        (r matches Err(ParseError::InvalidPacketType(_))) <==> buf@.len() >= 20 && buf@[0] % 16 == 1
            && buf@[0] / 16 > 5,
{
    if buf@.len() >= 20 {
        chain_errors(buf@, buf@[1], 20);
    }
}

proof fn chain_errors(b: Seq<u8>, name: u8, at: int)
    ensures
        extensions_at(b, name, at) matches Err(e) ==> e == ParseError::InvalidPacketLength || e
            == ParseError::InvalidExtensionLength,
    decreases b.len() - at,
{
    if name != 0 && 0 <= at && at + 2 <= b.len() {
        let end = at + 2 + b[at + 1];
        if b[at + 1] != 0 && b[at + 1] % 4 == 0 && end <= b.len() {
            chain_errors(b, b[at], end);
        }
    }
}

/// Whether the header of a datagram is one of a packet.
pub open spec fn header_is_good(b: Seq<u8>) -> bool {
    b.len() >= 20 && b[0] % 16 == 1 && b[0] / 16 <= 5
}

/// A datagram with a good header that announces no extension is a packet: the fields are read from
/// their places, and all that follows the header is payload.
pub proof fn plain_datagram_is_read(buf: &[u8], r: Result<Packet, ParseError>)
    requires
        call_ensures(Packet::try_from, (buf,), r),
        header_is_good(buf@),
        buf@[1] == 0,
    ensures
        r is Ok,
        ({
            let p = r->Ok_0@;
            let b = buf@;
            &&& b[0] / 16 == 0 <==> p.ty == PacketType::Data
            &&& b[0] / 16 == 1 <==> p.ty == PacketType::Fin
            &&& b[0] / 16 == 2 <==> p.ty == PacketType::State
            &&& b[0] / 16 == 3 <==> p.ty == PacketType::Reset
            &&& b[0] / 16 == 4 <==> p.ty == PacketType::Syn
            &&& b[0] / 16 == 5 <==> p.ty == PacketType::Ack
            &&& p.connection_id == number_at(b, 2, 4)
            &&& p.timestamp.0 == number_at(b, 4, 8)
            &&& p.timestamp_difference.0 == number_at(b, 8, 12)
            &&& p.wnd_size == number_at(b, 12, 16)
            &&& p.seq_nr == number_at(b, 16, 18)
            &&& p.ack_nr == number_at(b, 18, 20)
            &&& p.sack is None
            &&& p.payload == b.subrange(20, b.len() as int)
        }),
{
    short_numbers(buf@, 2);
    short_numbers(buf@, 4);
    short_numbers(buf@, 8);
    short_numbers(buf@, 12);
    short_numbers(buf@, 16);
    short_numbers(buf@, 18);
}

/// A datagram with a good header whose first extension is cut off, empty, or not a multiple of 32
/// bits long is refused.
pub proof fn bad_extensions_are_refused(buf: &[u8], r: Result<Packet, ParseError>)
    requires
        call_ensures(Packet::try_from, (buf,), r),
        header_is_good(buf@),
        buf@[1] != 0,
    ensures
        buf@.len() < 22 ==> r == Err::<Packet, ParseError>(ParseError::InvalidPacketLength),
        buf@.len() >= 22 && (buf@[21] == 0 || buf@[21] % 4 != 0 || 22 + buf@[21] > buf@.len())
            ==> r == Err::<Packet, ParseError>(ParseError::InvalidExtensionLength),
{
}

proof fn chain_moves(b: Seq<u8>, c: Seq<u8>, d: int, name: u8, at: int)
    requires
        0 <= d,
        20 <= at <= c.len(),
        b.len() == c.len() + d,
        forall|i: int| 20 <= i < c.len() ==> #[trigger] c[i] == b[i + d],
    ensures
        extensions_at(c, name, at) is Ok <==> extensions_at(b, name, at + d) is Ok,
        extensions_at(c, name, at) is Err ==> extensions_at(c, name, at)->Err_0 == extensions_at(
            b,
            name,
            at + d,
        )->Err_0,
        extensions_at(c, name, at) is Ok ==> extensions_at(c, name, at)->Ok_0.0 == extensions_at(
            b,
            name,
            at + d,
        )->Ok_0.0 && extensions_at(c, name, at)->Ok_0.1 + d == extensions_at(
            b,
            name,
            at + d,
        )->Ok_0.1 && at <= extensions_at(c, name, at)->Ok_0.1 <= c.len(),
    decreases c.len() - at,
{
    if name != 0 && at + 2 <= c.len() {
        assert(c[at] == b[at + d] && c[at + 1] == b[at + 1 + d]);
        let end = at + 2 + c[at + 1];
        if c[at + 1] != 0 && c[at + 1] % 4 == 0 && end <= c.len() {
            chain_moves(b, c, d, c[at], end);
            assert(c.subrange(at + 2, end) =~= b.subrange(at + 2 + d, end + d));
        }
    }
}

/// A datagram with a good first extension is read like the one without it, in whose header the next
/// extension stands first. A selective acknowledgement is taken from it, in place of any that
/// follows; any other extension is skipped.
pub proof fn first_extension_comes_off(
    buf: &[u8],
    r: Result<Packet, ParseError>,
    shorter: &[u8],
    r_shorter: Result<Packet, ParseError>,
)
    requires
        call_ensures(Packet::try_from, (buf,), r),
        call_ensures(Packet::try_from, (shorter,), r_shorter),
        header_is_good(buf@),
        buf@[1] != 0,
        buf@.len() >= 22,
        buf@[21] != 0 && buf@[21] % 4 == 0 && 22 + buf@[21] <= buf@.len(),
        shorter@ == seq![buf@[0], buf@[20]] + buf@.subrange(2, 20) + buf@.subrange(
            22 + buf@[21],
            buf@.len() as int,
        ),
    ensures
        r is Ok <==> r_shorter is Ok,
        r is Err ==> r->Err_0 == r_shorter->Err_0,
        r is Ok && buf@[1] == 1 ==> r->Ok_0@ == (PacketView {
            sack: Some(buf@.subrange(22, 22 + buf@[21])),
            ..r_shorter->Ok_0@
        }),
        r is Ok && buf@[1] != 1 ==> r->Ok_0@ == r_shorter->Ok_0@,
{
    let b = buf@;
    let c = shorter@;
    let d = 2 + b[21];
    assert(c.len() + d == b.len());
    assert forall|i: int| 20 <= i < c.len() implies #[trigger] c[i] == b[i + d] by {}
    assert(c[0] == b[0] && c[1] == b[20]);
    assert forall|i: int| 2 <= i < 20 implies #[trigger] c[i] == b[i] by {}
    chain_moves(b, c, d, c[1], 20);
    if extensions_at(c, c[1], 20) is Ok {
        let end = extensions_at(c, c[1], 20)->Ok_0.1;
        assert(c.subrange(end, c.len() as int) =~= b.subrange(end + d, b.len() as int));
    }
}

} // verus!
