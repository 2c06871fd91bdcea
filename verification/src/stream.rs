//! Reading a stream of packets, one packet at a time: what does not fit is discarded.
use vstd::prelude::*;
use vstd::slice::{slice_subrange, slice_to_vec};

verus! {

/// How many packets wait between the receiver and the reader of a stream.
pub const PACKET_CHANNEL_LEN: usize = 100;

/// What a reader with room for `room` bytes gets of a packet's `data`: the start of it, as far as
/// the room goes. The rest is discarded.
pub fn read_chunk(data: &[u8], room: usize) -> (out: Vec<u8>)
    ensures
        out@ == data@.take(
            if room <= data@.len() {
                room as int
            } else {
                data@.len() as int
            },
        ),
{
    let amt: usize = if room <= data.len() {
        room
    } else {
        data.len()
    };
    slice_to_vec(slice_subrange(data, 0, amt))
}

} // verus!
