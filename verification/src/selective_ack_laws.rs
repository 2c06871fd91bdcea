//! What calls that write and read selective acknowledgements do, bit by bit.
use crate::packet::Packet;
use crate::selective_ack::{
    bit, can_read, is_lost, lost_is_what_has_not_arrived, lost_seq_nrs, offset, selective_ack,
    stops_at,
};
use crate::socket::UtpSocket;
use crate::state::UtpSocketState;
use std::collections::BTreeMap;
use vstd::prelude::*;

verus! {

/// Whether bit `n` of `field` is set, the lowest bit of the first byte being bit 0.
pub open spec fn is_set(field: Seq<u8>, n: int) -> bool {
    (field[n / 8] >> ((n % 8) as u8)) & 1u8 == 1u8
}

/// Whether `field` says what of `arrived` lies beyond `last`: the bit for each such number is there
/// and set, no other bit is, and it takes just as many words of 32 bits as needed.
pub open spec fn says_what_arrived(field: Seq<u8>, arrived: Set<u16>, last: u16) -> bool {
    &&& field.len() % 4 == 0
    &&& forall|k: u16| #[trigger]
        arrived.contains(k) && k > last ==> k - last - 1 < 8 * field.len() && is_set(
            field,
            k - last - 1,
        )
    &&& forall|n: int|
        0 <= n < 8 * field.len() && #[trigger] is_set(field, n) ==> last + 1 + n <= 65535
            && arrived.contains((last + 1 + n) as u16)
    &&& field.len() > 0 ==> exists|k: u16| #[trigger]
        arrived.contains(k) && k > last && k - last - 1 >= 8 * field.len() - 32
}

/// A selective acknowledgement says what has arrived, whichever way it is asked for.
pub proof fn field_says_what_arrived(
    received: BTreeMap<u16, Packet>,
    last_acked: u16,
    field: Vec<u8>,
    socket: UtpSocket,
    peer: UtpSocketState,
    built: Vec<u8>,
)
    requires
        call_ensures(selective_ack, (&received, last_acked), field),
        call_ensures(UtpSocket::build_selective_ack, (&socket, &peer), built),
    ensures
        says_what_arrived(field@, received@.dom(), last_acked),
        says_what_arrived(built@, peer.out_of_order@.dom(), peer.last_acked),
{
    one_field_says_what_arrived(field@, received@.dom(), last_acked);
    assert(peer@.out_of_order.dom() =~= peer.out_of_order@.dom());
    one_field_says_what_arrived(built@, peer.out_of_order@.dom(), peer.last_acked);
}

proof fn one_field_says_what_arrived(field: Seq<u8>, arrived: Set<u16>, last: u16)
    requires
        crate::selective_ack::is_selective_ack(field, arrived, last),
    ensures
        says_what_arrived(field, arrived, last),
{
    assert forall|k: u16| #[trigger] arrived.contains(k) && k > last implies k - last - 1 < 8
        * field.len() && is_set(field, k - last - 1) by {
        assert(offset(k, last) == k - last - 1);
        assert(bit(field, k - last - 1));
    }
    assert forall|n: int| 0 <= n < 8 * field.len() && #[trigger] is_set(field, n) implies last + 1
        + n <= 65535 && arrived.contains((last + 1 + n) as u16) by {
        assert(bit(field, n));
    }
}

/// What is read out of a field as lost are, in increasing order, just the numbers after `ack_nr` and
/// below `limit` whose bit is there and is not set, whichever way it is asked for.
pub proof fn clear_bits_are_read_as_lost(
    field: Vec<u8>,
    ack_nr: u16,
    limit: u16,
    lost: Vec<u16>,
    socket: UtpSocket,
    n: u16,
)
    requires
        call_ensures(lost_seq_nrs, (&field, ack_nr, limit), lost) || call_ensures(
            UtpSocket::get_lost_seq_nr,
            (&socket, field, ack_nr, limit),
            lost,
        ),
    ensures
        forall|i: int, j: int| 0 <= i < j < lost@.len() ==> lost@[i] < lost@[j],
        lost@.contains(n) <==> ack_nr < n < limit && n - ack_nr - 1 < 8 * field@.len() && !is_set(
            field@,
            n - ack_nr - 1,
        ),
{
    assert(lost@.contains(n) <==> is_lost(field@, ack_nr, limit, n));
    assert(offset(n, ack_nr) == n - ack_nr - 1);
    assert(bit(field@, n - ack_nr - 1) == is_set(field@, n - ack_nr - 1));
}

/// A field can be read unless a bit that is not set stands for a number beyond the largest one and
/// none before it stops the reading: one that is not set and stands for a number not below
/// `limit`.
pub proof fn fields_that_can_be_read(
    field: Vec<u8>,
    ack_nr: u16,
    limit: u16,
    readable: bool,
    n: int,
)
    requires
        call_ensures(can_read, (&field, ack_nr, limit), readable),
    ensures
        ack_nr + 8 * field@.len() <= 65535 ==> readable,
        readable && 0 <= n < 8 * field@.len() && !is_set(field@, n) && ack_nr + 1 + n > 65535
            ==> exists|m: int|
            0 <= m < n && !#[trigger] is_set(field@, m) && limit <= ack_nr + 1 + m <= 65535,
        !readable ==> exists|k: int|
            0 <= k < 8 * field@.len() && !#[trigger] is_set(field@, k) && ack_nr + 1 + k > 65535
                && forall|m: int|
                0 <= m < k && !#[trigger] is_set(field@, m) ==> !(limit <= ack_nr + 1 + m <= 65535),
{
    let f = field@;
    assert forall|k: int| #[trigger] is_set(f, k) == bit(f, k) by {}
    if readable && 0 <= n < 8 * f.len() && !is_set(f, n) && ack_nr + 1 + n > 65535 {
        assert(!bit(f, n));
        let m = choose|m: int| 0 <= m < n && #[trigger] stops_at(f, ack_nr, limit, m);
        assert(!is_set(f, m));
    }
    if !readable {
        let k = choose|k: int|
            0 <= k < 8 * f.len() && !#[trigger] bit(f, k) && ack_nr + 1 + k > 65535
                && !(exists|m: int| 0 <= m < k && #[trigger] stops_at(f, ack_nr, limit, m));
        assert(!is_set(f, k));
        assert forall|m: int| 0 <= m < k && !#[trigger] is_set(f, m) implies !(limit <= ack_nr + 1
            + m <= 65535) by {
            assert(!stops_at(f, ack_nr, limit, m));
        }
    }
}

/// What is read out of a selective acknowledgement is what it was made from: as far as it reaches,
/// a number is read as lost just if it has not arrived.
pub proof fn field_is_read_as_it_was_meant(
    received: BTreeMap<u16, Packet>,
    last_acked: u16,
    limit: u16,
    field: Vec<u8>,
    lost: Vec<u16>,
    n: u16,
)
    requires
        call_ensures(selective_ack, (&received, last_acked), field),
        call_ensures(lost_seq_nrs, (&field, last_acked, limit), lost),
        limit <= last_acked + 1 + 8 * field@.len(),
    ensures
        lost@.contains(n) <==> last_acked < n < limit && !received@.contains_key(n),
{
    lost_is_what_has_not_arrived(field@, received@.dom(), last_acked, limit, n);
}

} // verus!
