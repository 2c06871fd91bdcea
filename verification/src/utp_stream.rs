//! Reading a stream of datagrams into buffers of any size: what does not fit is kept for the
//! next read.
use bytes::{Bytes, BytesMut};
use vstd::prelude::*;

verus! {

/// How much room the receive buffer of a stream is created with, in bytes.
pub const UDP_BUFFER_SIZE: usize = 17480;

/// How many datagrams wait between the receiver and the reader of a stream.
pub const CHANNEL_LEN: usize = 100;

/// The shared byte string of the crate bytes, of which nothing is known here but what the
/// functions below say.
#[verifier::external_type_specification]
#[verifier::external_body]
pub struct ExBytes(Bytes);

/// The growable byte string of the crate bytes, of which nothing is known here but what the
/// functions below say.
#[verifier::external_type_specification]
#[verifier::external_body]
pub struct ExBytesMut(BytesMut);

/// The bytes of a shared byte string.
pub uninterp spec fn contents(b: Bytes) -> Seq<u8>;

/// The bytes of a growable byte string.
pub uninterp spec fn contents_mut(b: BytesMut) -> Seq<u8>;

/// `Bytes::len`: how many bytes there are.
#[verifier::external_body]
fn bytes_len(b: &Bytes) -> (len: usize)
    ensures
        len == contents(*b).len(),
{
    b.len()
}

/// `Bytes::split_to`: hands the first `at` bytes out and keeps the rest.
#[verifier::external_body]
fn bytes_split_to(b: &mut Bytes, at: usize) -> (front: Bytes)
    requires
        at <= contents(*old(b)).len(),
    ensures
        contents(front) == contents(*old(b)).take(at as int),
        contents(*final(b)) == contents(*old(b)).skip(at as int),
{
    b.split_to(at)
}

/// `Bytes::split_off`: keeps the first `at` bytes and hands the rest out.
#[verifier::external_body]
fn bytes_split_off(b: &mut Bytes, at: usize) -> (back: Bytes)
    requires
        at <= contents(*old(b)).len(),
    ensures
        contents(*final(b)) == contents(*old(b)).take(at as int),
        contents(back) == contents(*old(b)).skip(at as int),
{
    b.split_off(at)
}

/// `BytesMut::with_capacity`: no bytes, with room for `capacity` of them.
#[verifier::external_body]
fn bytes_mut_with_capacity(capacity: usize) -> (b: BytesMut)
    requires
        capacity <= isize::MAX,
    ensures
        contents_mut(b).len() == 0,
{
    BytesMut::with_capacity(capacity)
}

/// `BytesMut::split_to`: hands the first `at` bytes out and keeps the rest.
#[verifier::external_body]
fn bytes_mut_split_to(b: &mut BytesMut, at: usize) -> (front: BytesMut)
    requires
        at <= contents_mut(*old(b)).len(),
    ensures
        contents_mut(front) == contents_mut(*old(b)).take(at as int),
        contents_mut(*final(b)) == contents_mut(*old(b)).skip(at as int),
{
    b.split_to(at)
}

/// `BytesMut::freeze`: the same bytes, to be shared.
#[verifier::external_body]
fn bytes_mut_freeze(b: BytesMut) -> (frozen: Bytes)
    ensures
        contents(frozen) == contents_mut(b),
{
    b.freeze()
}

/// The buffer into which a stream receives: without bytes at first.
pub fn receive_buffer() -> (buf: BytesMut)
    ensures
        contents_mut(buf) == Seq::<u8>::empty(),
{
    let buf = bytes_mut_with_capacity(UDP_BUFFER_SIZE);
    assert(contents_mut(buf) =~= Seq::<u8>::empty());
    buf
}

/// Takes a datagram of `len` bytes out of the buffer into which it was received.
pub fn take_datagram(buf: &mut BytesMut, len: usize) -> (datagram: Bytes)
    requires
        len <= contents_mut(*old(buf)).len(),
    ensures
        contents(datagram) == contents_mut(*old(buf)).take(len as int),
        contents_mut(*final(buf)) == contents_mut(*old(buf)).skip(len as int),
{
    bytes_mut_freeze(bytes_mut_split_to(buf, len))
}

/// What a stream has received and not yet delivered.
pub struct ReadBuffer {
    pub remaining: Option<Bytes>,
}

impl View for ReadBuffer {
    type V = Option<Seq<u8>>;

    open spec fn view(&self) -> Option<Seq<u8>> {
        match self.remaining {
            Some(b) => Some(contents(b)),
            None => None,
        }
    }
}

/// What a reader with room for `room` bytes gets out of `data`.
pub open spec fn delivered(data: Seq<u8>, room: nat) -> Seq<u8> {
    if room < data.len() {
        data.take(room as int)
    } else {
        data
    }
}

/// What is kept of `data` for the next read.
pub open spec fn kept(data: Seq<u8>, room: nat) -> Option<Seq<u8>> {
    if room < data.len() {
        Some(data.skip(room as int))
    } else {
        None
    }
}

impl ReadBuffer {
    /// Nothing received yet.
    pub fn new() -> (b: ReadBuffer)
        ensures
            b@ == None::<Seq<u8>>,
    {
        ReadBuffer { remaining: None }
    }

    /// Delivers what is left of the last datagram, as far as `room` goes. Without anything left,
    /// the next datagram is needed.
    pub fn read_remaining(&mut self, room: usize) -> (out: Option<Bytes>)
        ensures
            match old(self)@ {
                Some(data) => {
                    &&& out matches Some(o)
                    &&& contents(o) == delivered(data, room as nat)
                    &&& final(self)@ == kept(data, room as nat)
                },
                None => out is None && final(self)@ == old(self)@,
            },
    {
        match self.remaining.take() {
            Some(mut data) => {
                if room < bytes_len(&data) {
                    let front = bytes_split_to(&mut data, room);
                    self.remaining = Some(data);
                    Some(front)
                } else {
                    Some(data)
                }
            },
            None => None,
        }
    }

    /// Delivers a datagram as far as `room` goes, and keeps the rest.
    pub fn read_datagram(&mut self, datagram: Bytes, room: usize) -> (out: Bytes)
        requires
            old(self)@ is None,
        ensures
            contents(out) == delivered(contents(datagram), room as nat),
            final(self)@ == kept(contents(datagram), room as nat),
    {
        let mut data = datagram;
        if room < bytes_len(&data) {
            self.remaining = Some(bytes_split_off(&mut data, room));
        }
        data
    }
}

/// Whether shutting a stream down stops its receiver. `signal_closed` says whether the channel
/// that signals the end is closed, if there is one: then the receiver has stopped by itself.
pub fn stops_receiver(signal_closed: Option<bool>) -> (stops: bool)
    ensures
        stops <==> signal_closed != Some(true),
{
    match signal_closed {
        Some(closed) => !closed,
        None => true,
    }
}

/// No byte of a datagram is lost, repeated or moved: what a read delivers, followed by what is
/// kept, is what there was.
pub proof fn reading_keeps_every_byte(data: Seq<u8>, room: nat)
    ensures
        delivered(data, room) + kept_bytes(kept(data, room)) == data,
        delivered(data, room).len() <= room,
{
    assert(delivered(data, room) + kept_bytes(kept(data, room)) =~= data);
}

/// The bytes that are kept, none if nothing is.
pub open spec fn kept_bytes(kept: Option<Seq<u8>>) -> Seq<u8> {
    match kept {
        Some(b) => b,
        None => Seq::empty(),
    }
}

/// What reads with room for `rooms[0]`, `rooms[1]` and so on deliver of a datagram, in all.
pub open spec fn delivered_by_all(data: Seq<u8>, rooms: Seq<nat>) -> Seq<u8>
    decreases rooms.len(),
{
    if rooms.len() == 0 {
        Seq::empty()
    } else {
        delivered(data, rooms[0]) + (match kept(data, rooms[0]) {
            Some(rest) => delivered_by_all(rest, rooms.drop_first()),
            None => Seq::empty(),
        })
    }
}

/// The room of several reads in all.
pub open spec fn total(rooms: Seq<nat>) -> nat
    decreases rooms.len(),
{
    if rooms.len() == 0 {
        0
    } else {
        rooms[0] + total(rooms.drop_first())
    }
}

/// However the room for a datagram is split up over successive reads, they deliver it in order:
/// all of it once there is room for it, and else as much of its start as there is room for.
pub proof fn successive_reads_deliver_in_order(data: Seq<u8>, rooms: Seq<nat>)
    ensures
        delivered_by_all(data, rooms) == delivered(data, total(rooms)),
    decreases rooms.len(),
{
    if rooms.len() == 0 {
        assert(delivered(data, 0) =~= Seq::<u8>::empty());
    } else {
        let rest = rooms.drop_first();
        if rooms[0] < data.len() {
            let tail = data.skip(rooms[0] as int);
            successive_reads_deliver_in_order(tail, rest);
            assert(data.take(rooms[0] as int) + delivered(tail, total(rest)) =~= delivered(
                data,
                total(rooms),
            ));
        } else {
            assert(delivered_by_all(data, rooms) =~= data);
        }
    }
}

/// What a stream has not delivered yet: the rest of the datagram that is being read, and the
/// datagrams that wait behind it.
#[verifier::ext_equal]
pub struct StreamView {
    pub kept: Option<Seq<u8>>,
    pub waiting: Seq<Seq<u8>>,
}

/// What can happen to a stream: a datagram arrives, or it is read with room for some bytes.
pub enum StreamEvent {
    Arrived(Seq<u8>),
    Read(nat),
}

/// What an event delivers. A read turns to the next datagram once nothing is left of the last one.
pub open spec fn delivered_at(stream: StreamView, event: StreamEvent) -> Seq<u8> {
    match event {
        StreamEvent::Arrived(_) => Seq::empty(),
        StreamEvent::Read(room) => match stream.kept {
            Some(data) => delivered(data, room),
            None => if stream.waiting.len() == 0 {
                Seq::empty()
            } else {
                delivered(stream.waiting[0], room)
            },
        },
    }
}

/// The stream after an event.
pub open spec fn after_event(stream: StreamView, event: StreamEvent) -> StreamView {
    match event {
        StreamEvent::Arrived(datagram) => StreamView {
            waiting: stream.waiting.push(datagram),
            ..stream
        },
        StreamEvent::Read(room) => match stream.kept {
            Some(data) => StreamView { kept: kept(data, room), ..stream },
            None => if stream.waiting.len() == 0 {
                stream
            } else {
                StreamView {
                    kept: kept(stream.waiting[0], room),
                    waiting: stream.waiting.drop_first(),
                }
            },
        },
    }
}

/// The stream after several events, one after the other.
pub open spec fn after_events(stream: StreamView, events: Seq<StreamEvent>) -> StreamView
    decreases events.len(),
{
    if events.len() == 0 {
        stream
    } else {
        after_event(after_events(stream, events.drop_last()), events.last())
    }
}

/// What several events deliver, in all.
pub open spec fn delivered_over(stream: StreamView, events: Seq<StreamEvent>) -> Seq<u8>
    decreases events.len(),
{
    if events.len() == 0 {
        Seq::empty()
    } else {
        delivered_over(stream, events.drop_last()) + delivered_at(
            after_events(stream, events.drop_last()),
            events.last(),
        )
    }
}

/// The bytes that arrive with an event.
pub open spec fn arrived_at(event: StreamEvent) -> Seq<u8> {
    match event {
        StreamEvent::Arrived(datagram) => datagram,
        StreamEvent::Read(_) => Seq::empty(),
    }
}

/// The bytes that arrive over several events, in all.
pub open spec fn arrived_over(events: Seq<StreamEvent>) -> Seq<u8>
    decreases events.len(),
{
    if events.len() == 0 {
        Seq::empty()
    } else {
        arrived_over(events.drop_last()) + arrived_at(events.last())
    }
}

/// The bytes that a stream has not delivered yet.
pub open spec fn unread(stream: StreamView) -> Seq<u8> {
    kept_bytes(stream.kept) + stream.waiting.flatten()
}

proof fn event_keeps_every_byte(stream: StreamView, event: StreamEvent)
    ensures
        delivered_at(stream, event) + unread(after_event(stream, event)) == unread(stream)
            + arrived_at(event),
{
    let next = after_event(stream, event);
    match event {
        StreamEvent::Arrived(datagram) => {
            stream.waiting.lemma_flatten_push(datagram);
        },
        StreamEvent::Read(room) => {
            match stream.kept {
                Some(data) => {
                    reading_keeps_every_byte(data, room);
                    assert(delivered(data, room) + unread(next) =~= (delivered(data, room)
                        + kept_bytes(kept(data, room))) + stream.waiting.flatten());
                },
                None => {
                    if stream.waiting.len() > 0 {
                        let data = stream.waiting[0];
                        reading_keeps_every_byte(data, room);
                        assert(delivered(data, room) + unread(next) =~= (delivered(data, room)
                            + kept_bytes(kept(data, room))) + stream.waiting.drop_first().flatten());
                    }
                },
            }
        },
    }
    assert(delivered_at(stream, event) + unread(next) =~= unread(stream) + arrived_at(event));
}

/// Over all the datagrams of a stream, however arrivals and reads alternate, no byte is lost,
/// repeated or moved: what all the reads have delivered, followed by what is kept and by what still
/// waits, is what there was, followed by what has arrived.
pub proof fn stream_delivers_in_order(stream: StreamView, events: Seq<StreamEvent>)
    ensures
        delivered_over(stream, events) + unread(after_events(stream, events)) == unread(stream)
            + arrived_over(events),
    decreases events.len(),
{
    if events.len() > 0 {
        let rest = events.drop_last();
        let last = events.last();
        let before = after_events(stream, rest);
        stream_delivers_in_order(stream, rest);
        event_keeps_every_byte(before, last);
        assert(delivered_over(stream, events) + unread(after_events(stream, events))
            =~= delivered_over(stream, rest) + (delivered_at(before, last) + unread(
            after_event(before, last),
        )));
        assert(delivered_over(stream, rest) + (unread(before) + arrived_at(last)) =~= (
        delivered_over(stream, rest) + unread(before)) + arrived_at(last));
        assert((unread(stream) + arrived_over(rest)) + arrived_at(last) =~= unread(stream)
            + arrived_over(events));
    } else {
        assert(delivered_over(stream, events) + unread(after_events(stream, events)) =~= unread(
            stream,
        ) + arrived_over(events));
    }
}

} // verus!
