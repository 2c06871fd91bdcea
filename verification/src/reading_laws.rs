//! What calls that read streams do, in terms of what they are given and what comes out.
use crate::stream::read_chunk;
use crate::utp_stream::{
    contents, contents_mut, kept_bytes, receive_buffer, stops_receiver, take_datagram, ReadBuffer,
};
use bytes::{Bytes, BytesMut};
use vstd::prelude::*;

verus! {

/// Whether `out` is what a read with room for `room` bytes takes from the front of `data`, as much
/// as there is room for, and `kept` what is left, if anything is.
pub open spec fn takes_from_the_front(
    data: Seq<u8>,
    room: nat,
    out: Seq<u8>,
    kept: Option<Seq<u8>>,
) -> bool {
    &&& out + kept_bytes(kept) == data
    &&& out.len() <= room
    &&& kept is Some <==> data.len() > room
    &&& kept is Some ==> out.len() == room
}

/// A read of what is left takes from the front of it, and delivers nothing just if nothing is left.
pub proof fn rest_is_read_from_the_front(buffer: &mut ReadBuffer, room: usize, r: Option<Bytes>)
    requires
        call_ensures(ReadBuffer::read_remaining, (buffer, room), r),
    ensures
        r is Some <==> old(buffer)@ is Some,
        r is None ==> final(buffer)@ is None,
        r is Some ==> takes_from_the_front(
            old(buffer)@->Some_0,
            room as nat,
            contents(r->Some_0),
            final(buffer)@,
        ),
{
    if r is Some {
        let data = old(buffer)@->Some_0;
        assert(contents(r->Some_0) + kept_bytes(final(buffer)@) =~= data);
    }
}

/// A read of a new datagram takes from the front of it.
pub proof fn datagram_is_read_from_the_front(
    buffer: &mut ReadBuffer,
    datagram: Bytes,
    room: usize,
    r: Bytes,
)
    requires
        call_ensures(ReadBuffer::read_datagram, (buffer, datagram, room), r),
    ensures
        takes_from_the_front(contents(datagram), room as nat, contents(r), final(buffer)@),
{
    assert(contents(r) + kept_bytes(final(buffer)@) =~= contents(datagram));
}

/// Two reads deliver what one read with room for both would, and leave the same.
pub proof fn two_reads_are_one(
    buffer: &mut ReadBuffer,
    datagram: Bytes,
    room: usize,
    r: Bytes,
    then: &mut ReadBuffer,
    room_then: usize,
    r_then: Option<Bytes>,
    single: &mut ReadBuffer,
    room_single: usize,
    r_single: Bytes,
)
    requires
        call_ensures(ReadBuffer::read_datagram, (buffer, datagram, room), r),
        call_ensures(ReadBuffer::read_remaining, (then, room_then), r_then),
        call_ensures(ReadBuffer::read_datagram, (single, datagram, room_single), r_single),
        old(then)@ == final(buffer)@,
        room_single == room + room_then,
    ensures
        contents(r) + (match r_then {
            Some(b) => contents(b),
            None => Seq::empty(),
        }) == contents(r_single),
        final(then)@ == final(single)@,
{
    let data = contents(datagram);
    if r_then is Some {
        assert(contents(r) + contents(r_then->Some_0) =~= contents(r_single));
        if final(single)@ is Some {
            assert(final(then)@->Some_0 =~= final(single)@->Some_0);
        }
    } else {
        assert(contents(r) + Seq::<u8>::empty() =~= contents(r_single));
    }
}

/// Nothing is left to be read at first.
pub proof fn new_buffer_is_empty(buffer: ReadBuffer, then: &mut ReadBuffer, room: usize, r: Option<Bytes>)
    requires
        call_ensures(ReadBuffer::new, (), buffer),
        old(then)@ == buffer@,
        call_ensures(ReadBuffer::read_remaining, (then, room), r),
    ensures
        r is None,
{
}

/// A datagram is taken from the front of the receive buffer, and what is behind it stays.
pub proof fn datagram_is_taken_from_the_front(buf: &mut BytesMut, len: usize, r: Bytes)
    requires
        call_ensures(take_datagram, (buf, len), r),
        len <= contents_mut(*old(buf)).len(),
    ensures
        contents(r).len() == len,
        contents(r) + contents_mut(*final(buf)) == contents_mut(*old(buf)),
{
    assert(contents(r) + contents_mut(*final(buf)) =~= contents_mut(*old(buf)));
}

/// A new receive buffer holds no bytes.
pub proof fn new_receive_buffer_is_empty(buf: BytesMut)
    requires
        call_ensures(receive_buffer, (), buf),
    ensures
        contents_mut(buf).len() == 0,
{
}

/// Of a packet the reader gets the start, byte for byte, as far as the room and the packet go.
pub proof fn packet_is_read_from_the_front(data: &[u8], room: usize, r: Vec<u8>)
    requires
        call_ensures(read_chunk, (data, room), r),
    ensures
        r@.len() <= room && r@.len() <= data@.len(),
        r@.len() == room || r@.len() == data@.len(),
        forall|i: int| 0 <= i < r@.len() ==> r@[i] == data@[i],
{
}

/// Shutting down leaves the receiver alone just if there is a signal and it is closed.
pub proof fn closed_signal_leaves_the_receiver_alone(signal_closed: Option<bool>, r: bool)
    requires
        call_ensures(stops_receiver, (signal_closed,), r),
    ensures
        signal_closed is None ==> r,
        signal_closed is Some ==> r == !signal_closed->Some_0,
{
}

} // verus!
