//! Selective acknowledgements: a bit field that says which packets beyond the
//! last one in order have arrived. Bit `n`, counted from the lowest bit of the
//! first byte, stands for the packet `n + 1` after the last one in order.
use crate::packet::Packet;
use std::collections::BTreeMap;
use vstd::prelude::*;

verus! {

/// Bit `i` of a byte, the lowest one first.
pub open spec fn byte_bit(b: u8, i: int) -> bool {
    (b >> (i as u8)) & 1u8 == 1u8
}

/// Bit `n` of a bit field, the lowest bit of the first byte first.
pub open spec fn bit(field: Seq<u8>, n: int) -> bool {
    byte_bit(field[n / 8], n % 8)
}

/// How far `seq_nr` lies beyond the packet that follows `last_acked`.
pub open spec fn offset(seq_nr: u16, last_acked: u16) -> int {
    seq_nr - last_acked - 1
}

/// Whether the packet at offset `n` beyond `last_acked` is among `received`.
pub open spec fn arrived(received: Set<u16>, last_acked: u16, n: int) -> bool {
    &&& last_acked + 1 + n <= u16::MAX
    &&& received.contains((last_acked + 1 + n) as u16)
}

/// Whether `field` has a bit for every packet of `received` beyond `last_acked`,
/// and has just those bits set that stand for one.
pub open spec fn marks(field: Seq<u8>, received: Set<u16>, last_acked: u16) -> bool {
    &&& forall|n: int|
        0 <= n < 8 * field.len() ==> (#[trigger] bit(field, n) <==> arrived(
            received,
            last_acked,
            n,
        ))
    &&& forall|k: u16| #[trigger]
        received.contains(k) && k > last_acked ==> offset(k, last_acked) < 8 * field.len()
}

/// Whether `field` is the selective acknowledgement for `received` beyond
/// `last_acked`: it marks them, in as few 32-bit words as that takes.
pub open spec fn is_selective_ack(field: Seq<u8>, received: Set<u16>, last_acked: u16) -> bool {
    &&& field.len() % 4 == 0
    &&& marks(field, received, last_acked)
    &&& field.len() > 0 ==> exists|k: u16|
        #![trigger received.contains(k)]
        received.contains(k) && k > last_acked && offset(k, last_acked) >= 8 * (field.len() - 4)
}

proof fn set_bit(b: u8, i: u8)
    requires
        i < 8,
    ensures
        forall|j: int|
            0 <= j < 8 ==> (#[trigger] byte_bit(b | (1u8 << i), j) <==> j == i || byte_bit(b, j)),
{
    assert forall|j: int| 0 <= j < 8 implies (#[trigger] byte_bit(b | (1u8 << i), j) <==> j == i
        || byte_bit(b, j)) by {
        let k = j as u8;
        assert(((b | (1u8 << i)) >> k) & 1u8 == 1u8 <==> k == i || (b >> k) & 1u8 == 1u8)
            by (bit_vector)
            requires
                i < 8,
                k < 8,
        ;
    }
}

proof fn zero_byte()
    ensures
        forall|j: int| 0 <= j < 8 ==> !#[trigger] byte_bit(0u8, j),
{
    assert forall|j: int| 0 <= j < 8 implies !#[trigger] byte_bit(0u8, j) by {
        let k = j as u8;
        assert((0u8 >> k) & 1u8 == 0u8) by (bit_vector)
            requires
                k < 8,
        ;
    }
}

/// The selective acknowledgement for what has arrived beyond `last_acked`.
pub fn selective_ack(received: &BTreeMap<u16, Packet>, last_acked: u16) -> (sack: Vec<u8>)
    ensures
        is_selective_ack(sack@, received@.dom(), last_acked),
{
    let mut sack: Vec<u8> = Vec::new();
    let ghost mut seen: Set<u16> = Set::empty();
    for (seq_nr, _packet) in it: received.iter()
        invariant
            forall|k: u16| #[trigger]
                seen.contains(k) ==> exists|j: int| 0 <= j < it.index() && *it.seq()[j].0 == k,
            forall|j: int| 0 <= j < it.index() ==> seen.contains(*(#[trigger] it.seq()[j]).0),
            marks(sack@, seen, last_acked),
            sack.len() <= 8192,
            sack.len() > 0 ==> exists|k: u16|
                #![trigger seen.contains(k)]
                seen.contains(k) && k > last_acked && offset(k, last_acked) / 8 == sack.len() - 1,
    {
        let ghost before = seen;
        let ghost field = sack@;
        proof {
            seen = seen.insert(*seq_nr);
            if sack.len() > 0 {
                let k = choose|k: u16|
                    #![trigger before.contains(k)]
                    before.contains(k) && k > last_acked && offset(k, last_acked) / 8 == sack.len()
                        - 1;
                assert(seen.contains(k));
            }
        }
        if *seq_nr > last_acked {
            let diff: usize = (*seq_nr - last_acked) as usize - 1;
            let byte: usize = diff / 8;
            let bit_nr: usize = diff % 8;
            if byte >= sack.len() {
                sack.resize(byte + 1, 0);
            }
            let ghost grown = sack@;
            sack[byte] = sack[byte] | (1u8 << bit_nr);
            proof {
                zero_byte();
                set_bit(grown[byte as int], bit_nr as u8);
                assert forall|n: int| 0 <= n < 8 * sack.len() implies (#[trigger] bit(sack@, n)
                    <==> arrived(seen, last_acked, n)) by {
                    if n < 8 * field.len() {
                        assert(bit(field, n) == bit(grown, n));
                        assert(bit(field, n) <==> arrived(before, last_acked, n));
                    } else {
                        assert(grown[n / 8] == 0);
                        assert(!bit(grown, n));
                    }
                }
                assert(seen.contains(*seq_nr));
            }
        }
    }
    assert(seen =~= received@.dom());
    let ghost full = sack@;
    while sack.len() % 4 != 0
        invariant
            sack.len() <= 8192,
            full.len() <= sack.len() <= (full.len() + 3) / 4 * 4,
            marks(sack@, seen, last_acked),
        decreases full.len() + 4 - sack.len(),
    {
        let ghost field = sack@;
        sack.push(0);
        proof {
            zero_byte();
            assert forall|n: int| 0 <= n < 8 * sack.len() implies (#[trigger] bit(sack@, n)
                <==> arrived(seen, last_acked, n)) by {
                if n < 8 * field.len() {
                    assert(bit(field, n) == bit(sack@, n));
                } else {
                    assert(sack@[n / 8] == 0);
                    if arrived(seen, last_acked, n) {
                        let k = (last_acked + 1 + n) as u16;
                        assert(seen.contains(k));
                    }
                }
            }
        }
    }
    sack
}

/// Whether the bit field `sack`, read as the answer to everything up to `ack_nr`,
/// reports packet `n` as missing. Packets from `limit` on are not reported.
pub open spec fn is_lost(sack: Seq<u8>, ack_nr: u16, limit: u16, n: u16) -> bool {
    &&& ack_nr < n < limit
    &&& offset(n, ack_nr) < 8 * sack.len()
    &&& !bit(sack, offset(n, ack_nr))
}

/// Whether reading `sack` stops at bit `n`: it is clear, and stands for a packet
/// that is not below `limit`.
pub open spec fn stops_at(sack: Seq<u8>, ack_nr: u16, limit: u16, n: int) -> bool {
    !bit(sack, n) && limit <= ack_nr + 1 + n <= u16::MAX
}

/// Whether reading `sack` stops before a clear bit that stands for no sequence
/// number, as the sum would be beyond the largest one.
pub open spec fn is_readable(sack: Seq<u8>, ack_nr: u16, limit: u16) -> bool {
    forall|n: int|
        0 <= n < 8 * sack.len() && !#[trigger] bit(sack, n) && ack_nr + 1 + n > u16::MAX
            ==> exists|m: int| 0 <= m < n && #[trigger] stops_at(sack, ack_nr, limit, m)
}

/// Whether `lost` lists the packets that `sack` reports as missing, in order.
pub open spec fn is_lost_list(lost: Seq<u16>, sack: Seq<u8>, ack_nr: u16, limit: u16) -> bool {
    &&& forall|i: int, j: int| 0 <= i < j < lost.len() ==> lost[i] < lost[j]
    &&& forall|n: u16| #[trigger] lost.contains(n) <==> is_lost(sack, ack_nr, limit, n)
}

/// The packets below `limit` that `sack` reports as missing after `ack_nr`, in order.
pub fn lost_seq_nrs(sack: &Vec<u8>, ack_nr: u16, limit: u16) -> (lost: Vec<u16>)
    requires
        is_readable(sack@, ack_nr, limit),
    ensures
        is_lost_list(lost@, sack@, ack_nr, limit),
{
    let mut result: Vec<u16> = Vec::new();
    let mut index: usize = 0;
    while index < sack.len()
        invariant
            index <= sack.len(),
            is_readable(sack@, ack_nr, limit),
            is_lost_list_up_to(result@, sack@, ack_nr, limit, 8 * index),
        decreases sack.len() - index,
    {
        let val: u8 = sack[index];
        let mut bit_nr: u16 = 0;
        while bit_nr < 8
            invariant
                index < sack.len(),
                bit_nr <= 8,
                val == sack@[index as int],
                is_readable(sack@, ack_nr, limit),
                is_lost_list_up_to(result@, sack@, ack_nr, limit, 8 * index + bit_nr),
            decreases 8 - bit_nr,
        {
            let ghost n: int = 8 * index + bit_nr;
            assert(n / 8 == index && n % 8 == bit_nr);
            if (val >> bit_nr) & 1u8 == 0u8 {
                assert(!bit(sack@, n)) by {
                    let v = val >> (bit_nr as u8);
                    assert(v & 1u8 == 0u8 ==> v & 1u8 != 1u8) by (bit_vector);
                }
                let seq_nr: u16 = 8 * (index as u16) + bit_nr + 1 + ack_nr;
                if limit > seq_nr {
                    let ghost before = result@;
                    result.push(seq_nr);
                    proof {
                        assert(result@[before.len() as int] == seq_nr);
                        assert forall|m: u16| #[trigger] before.contains(m) implies result@.contains(
                            m,
                        ) by {
                            let i = choose|i: int| 0 <= i < before.len() && before[i] == m;
                            assert(result@[i] == m);
                        }
                        assert forall|m: u16|
                            is_lost(sack@, ack_nr, limit, m) && offset(m, ack_nr) < n
                                + 1 implies #[trigger] result@.contains(m) by {
                            if offset(m, ack_nr) < n {
                                assert(before.contains(m));
                            } else {
                                assert(m == seq_nr);
                            }
                        }
                    }
                } else {
                    assert(stops_at(sack@, ack_nr, limit, n));
                    return result;
                }
            } else {
                assert(bit(sack@, n)) by {
                    let v = val >> (bit_nr as u8);
                    assert(v & 1u8 != 0u8 ==> v & 1u8 == 1u8) by (bit_vector);
                }
                assert forall|m: u16|
                    is_lost(sack@, ack_nr, limit, m) && offset(m, ack_nr) < n
                        + 1 implies #[trigger] result@.contains(m) by {
                    assert(offset(m, ack_nr) != n);
                }
            }
            bit_nr = bit_nr + 1;
        }
        index = index + 1;
    }
    result
}

/// Whether [`lost_seq_nrs`] can read `sack`.
pub fn can_read(sack: &Vec<u8>, ack_nr: u16, limit: u16) -> (readable: bool)
    ensures
        readable == is_readable(sack@, ack_nr, limit),
{
    let mut index: usize = 0;
    while index < sack.len()
        invariant
            index <= sack.len(),
            reads_up_to(sack@, ack_nr, limit, 8 * index),
        decreases sack.len() - index,
    {
        let val: u8 = sack[index];
        let mut bit_nr: u16 = 0;
        while bit_nr < 8
            invariant
                index < sack.len(),
                bit_nr <= 8,
                val == sack@[index as int],
                reads_up_to(sack@, ack_nr, limit, 8 * index + bit_nr),
            decreases 8 - bit_nr,
        {
            let ghost n: int = 8 * index + bit_nr;
            assert(n / 8 == index && n % 8 == bit_nr);
            proof {
                let v = val >> (bit_nr as u8);
                assert(v & 1u8 == 0u8 || v & 1u8 == 1u8) by (bit_vector);
            }
            if (val >> bit_nr) & 1u8 == 0u8 {
                assert(!bit(sack@, n));
                if index >= 8192 || 8 * (index as u32) + (bit_nr as u32) + 1 + (ack_nr as u32)
                    > 65535 {
                    return false;
                }
                if limit as u32 <= 8 * (index as u32) + (bit_nr as u32) + 1 + (ack_nr as u32) {
                    assert(stops_at(sack@, ack_nr, limit, n));
                    return true;
                }
            } else {
                assert(bit(sack@, n));
            }
            bit_nr = bit_nr + 1;
        }
        index = index + 1;
    }
    true
}

/// Whether the first `end` bits of `sack` can be read and reading does not stop there.
spec fn reads_up_to(sack: Seq<u8>, ack_nr: u16, limit: u16, end: int) -> bool {
    &&& forall|m: int| 0 <= m < end && !#[trigger] bit(sack, m) ==> ack_nr + 1 + m <= u16::MAX
    &&& forall|m: int| 0 <= m < end ==> !#[trigger] stops_at(sack, ack_nr, limit, m)
}

/// Whether `lost` lists what the first `end` bits of `sack` report as missing, in
/// order, and reading did not stop before `end`.
spec fn is_lost_list_up_to(
    lost: Seq<u16>,
    sack: Seq<u8>,
    ack_nr: u16,
    limit: u16,
    end: int,
) -> bool {
    &&& forall|i: int, j: int| 0 <= i < j < lost.len() ==> lost[i] < lost[j]
    &&& forall|i: int|
        0 <= i < lost.len() ==> is_lost(sack, ack_nr, limit, #[trigger] lost[i]) && offset(
            lost[i],
            ack_nr,
        ) < end
    &&& forall|n: u16|
        is_lost(sack, ack_nr, limit, n) && offset(n, ack_nr) < end ==> #[trigger] lost.contains(n)
    &&& forall|m: int| 0 <= m < end ==> !#[trigger] stops_at(sack, ack_nr, limit, m)
}

proof fn same_bits_same_byte(a: u8, b: u8)
    requires
        forall|j: int| 0 <= j < 8 ==> (#[trigger] byte_bit(a, j) <==> byte_bit(b, j)),
    ensures
        a == b,
{
    assert(byte_bit(a, 0) <==> byte_bit(b, 0));
    assert(byte_bit(a, 1) <==> byte_bit(b, 1));
    assert(byte_bit(a, 2) <==> byte_bit(b, 2));
    assert(byte_bit(a, 3) <==> byte_bit(b, 3));
    assert(byte_bit(a, 4) <==> byte_bit(b, 4));
    assert(byte_bit(a, 5) <==> byte_bit(b, 5));
    assert(byte_bit(a, 6) <==> byte_bit(b, 6));
    assert(byte_bit(a, 7) <==> byte_bit(b, 7));
    assert(a == b) by (bit_vector)
        requires
            (a >> 0u8) & 1u8 == 1u8 <==> (b >> 0u8) & 1u8 == 1u8,
            (a >> 1u8) & 1u8 == 1u8 <==> (b >> 1u8) & 1u8 == 1u8,
            (a >> 2u8) & 1u8 == 1u8 <==> (b >> 2u8) & 1u8 == 1u8,
            (a >> 3u8) & 1u8 == 1u8 <==> (b >> 3u8) & 1u8 == 1u8,
            (a >> 4u8) & 1u8 == 1u8 <==> (b >> 4u8) & 1u8 == 1u8,
            (a >> 5u8) & 1u8 == 1u8 <==> (b >> 5u8) & 1u8 == 1u8,
            (a >> 6u8) & 1u8 == 1u8 <==> (b >> 6u8) & 1u8 == 1u8,
            (a >> 7u8) & 1u8 == 1u8 <==> (b >> 7u8) & 1u8 == 1u8,
    ;
}

/// There is one selective acknowledgement for what has arrived: any two are equal.
pub proof fn selective_ack_is_unique(a: Seq<u8>, b: Seq<u8>, received: Set<u16>, last_acked: u16)
    requires
        is_selective_ack(a, received, last_acked),
        is_selective_ack(b, received, last_acked),
    ensures
        a == b,
{
    assert(a.len() == b.len());
    assert forall|i: int| 0 <= i < a.len() implies a[i] == b[i] by {
        assert forall|j: int| 0 <= j < 8 implies (#[trigger] byte_bit(a[i], j) <==> byte_bit(
            b[i],
            j,
        )) by {
            let n = 8 * i + j;
            assert(n / 8 == i && n % 8 == j);
            assert(bit(a, n) <==> bit(b, n));
        }
        same_bits_same_byte(a[i], b[i]);
    }
    assert(a =~= b);
}

/// What the sender reads out of a selective acknowledgement is what the receiver
/// is missing: as far as the field reaches, a packet is reported lost if and only
/// if it has not arrived.
pub proof fn lost_is_what_has_not_arrived(
    field: Seq<u8>,
    received: Set<u16>,
    last_acked: u16,
    limit: u16,
    n: u16,
)
    requires
        is_selective_ack(field, received, last_acked),
        limit <= last_acked + 1 + 8 * field.len(),
    ensures
        is_lost(field, last_acked, limit, n) <==> last_acked < n < limit && !received.contains(n),
{
    if last_acked < n < limit {
        let k = offset(n, last_acked);
        assert(bit(field, k) <==> arrived(received, last_acked, k));
    }
}

/// A bit field whose last bit still stands for a sequence number is readable.
pub proof fn readable_below_the_wrap(field: Seq<u8>, ack_nr: u16, limit: u16)
    requires
        ack_nr + 8 * field.len() <= u16::MAX,
    ensures
        is_readable(field, ack_nr, limit),
{
}

} // verus!
