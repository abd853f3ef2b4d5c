//! The framing of a datagram, read far enough to tell how deep it nests:
//! bundles within bundles, and arrays within arrays. A datagram that nests
//! too deep is turned away before anything is built from it.

use vstd::prelude::*;

verus! {

/// The largest datagram that is taken in, in bytes.
pub const MAX_DATAGRAM: usize = 65536;

/// How deep bundles may stand in bundles, and arrays in arrays.
pub const MAX_DEPTH: usize = 32;

/// The next position at or after `p` that is a multiple of four.
pub open spec fn aligned(p: int) -> int {
    if p % 4 == 0 {
        p
    } else {
        p + (4 - p % 4)
    }
}

/// The position of the first zero byte from `from` on and before `end`, or
/// `end` where there is none.
pub open spec fn first_zero(data: Seq<u8>, from: int, end: int) -> int
    decreases end - from,
{
    if from >= end {
        end
    } else if data[from] == 0 {
        from
    } else {
        first_zero(data, from + 1, end)
    }
}

/// The number that the four bytes at `at` hold, the first byte weighing most.
pub open spec fn be32(data: Seq<u8>, at: int) -> int {
    data[at] * 0x1000000 + data[at + 1] * 0x10000 + data[at + 2] * 0x100 + data[at + 3]
}

/// The eight bytes that a bundle starts with: `#bundle` and a zero byte.
pub open spec fn bundle_tag() -> Seq<u8> {
    seq![0x23u8, 0x62u8, 0x75u8, 0x6eu8, 0x64u8, 0x6cu8, 0x65u8, 0x00u8]
}

/// Whether the bytes from `s` to `e` start as a bundle does.
pub open spec fn starts_bundle(data: Seq<u8>, s: int, e: int) -> bool {
    s + 8 <= e && data.subrange(s, s + 8) == bundle_tag()
}

/// Whether the type tags from `from` to `to` never open more than `limit`
/// arrays at once, `open` of them being open at `from`.
pub open spec fn tags_within(data: Seq<u8>, from: int, to: int, open: nat, limit: nat) -> bool
    decreases to - from,
{
    if from >= to {
        true
    } else if data[from] == 0x5b {
        open < limit && tags_within(data, from + 1, to, open + 1, limit)
    } else if data[from] == 0x5d {
        tags_within(data, from + 1, to, if open > 0 { (open - 1) as nat } else { 0 }, limit)
    } else {
        tags_within(data, from + 1, to, open, limit)
    }
}

/// Whether the message from `s` to `e` nests its arrays at most `limit` deep.
/// Its type tags follow the address: they start at the multiple of four after
/// the zero byte that ends the address, and end before the next zero byte.
pub open spec fn message_within(data: Seq<u8>, s: int, e: int, limit: nat) -> bool {
    let tags = aligned(first_zero(data, s, e) + 1);
    tags > e || tags_within(data, tags, first_zero(data, tags, e), 0, limit)
}

/// Whether the packet from `s` to `e` sets bundles at most `budget` deep and
/// arrays at most `limit` deep.
pub open spec fn packet_within(data: Seq<u8>, s: int, e: int, budget: nat, limit: nat) -> bool
    decreases budget, e - s,
{
    if starts_bundle(data, s, e) {
        budget > 0 && elements_within(data, aligned(s + 8) + 8, e, (budget - 1) as nat, limit)
    } else if s < e && data[s] == 0x2f {
        message_within(data, s, e, limit)
    } else {
        true
    }
}

/// Whether each element of a bundle, from `p` to `e`, is within the depths.
/// An element is four bytes of length and then that many bytes of packet; the
/// elements end where the bytes left are too few for the next one.
pub open spec fn elements_within(data: Seq<u8>, p: int, e: int, budget: nat, limit: nat) -> bool
    decreases budget, e - p,
{
    if p < 0 || p + 4 > e || be32(data, p) > e - (p + 4) {
        true
    } else {
        let q = p + 4;
        let size = be32(data, p);
        packet_within(data, q, q + size, budget, limit) && elements_within(
            data,
            q + size,
            e,
            budget,
            limit,
        )
    }
}

/// Whether a datagram sets neither bundles nor arrays more than
/// [`MAX_DEPTH`] deep.
pub open spec fn shallow(data: Seq<u8>) -> bool {
    packet_within(data, 0, data.len() as int, MAX_DEPTH as nat, MAX_DEPTH as nat)
}

fn align(p: usize) -> (r: usize)
    requires
        p <= MAX_DATAGRAM + 8,
    ensures
        r == aligned(p as int),
        p <= r < p + 4,
{
    if p % 4 == 0 {
        p
    } else {
        p + (4 - p % 4)
    }
}

fn find_zero(data: &[u8], from: usize, end: usize) -> (z: usize)
    requires
        end <= data@.len(),
    ensures
        z == first_zero(data@, from as int, end as int),
        from <= end ==> from <= z <= end,
{
    if from >= end {
        return end;
    }
    let mut i: usize = from;
    while i < end && data[i] != 0
        invariant
            from <= i <= end <= data@.len(),
            first_zero(data@, i as int, end as int) == first_zero(data@, from as int, end as int),
        decreases end - i,
    {
        i += 1;
    }
    i
}

fn tags_shallow(data: &[u8], from: usize, to: usize, limit: usize) -> (ok: bool)
    requires
        to <= data@.len(),
    ensures
        ok == tags_within(data@, from as int, to as int, 0, limit as nat),
{
    let mut i: usize = from;
    let mut open: usize = 0;
    while i < to
        invariant
            to <= data@.len(),
            open <= limit,
            tags_within(data@, i as int, to as int, open as nat, limit as nat) == tags_within(
                data@,
                from as int,
                to as int,
                0,
                limit as nat,
            ),
        decreases to - i,
    {
        let b = data[i];
        if b == 0x5b {
            if open >= limit {
                return false;
            }
            open += 1;
        } else if b == 0x5d {
            if open > 0 {
                open -= 1;
            }
        }
        i += 1;
    }
    true
}

fn message_shallow(data: &[u8], s: usize, e: usize, limit: usize) -> (ok: bool)
    requires
        s <= e <= data@.len() <= MAX_DATAGRAM,
    ensures
        ok == message_within(data@, s as int, e as int, limit as nat),
{
    let z = find_zero(data, s, e);
    let tags = align(z + 1);
    if tags > e {
        return true;
    }
    let end = find_zero(data, tags, e);
    tags_shallow(data, tags, end, limit)
}

fn starts_as_bundle(data: &[u8], s: usize, e: usize) -> (r: bool)
    requires
        s <= e <= data@.len() <= MAX_DATAGRAM,
    ensures
        r == starts_bundle(data@, s as int, e as int),
{
    if e - s < 8 {
        return false;
    }
    let r = data[s] == 0x23 && data[s + 1] == 0x62 && data[s + 2] == 0x75 && data[s + 3] == 0x6e
        && data[s + 4] == 0x64 && data[s + 5] == 0x6c && data[s + 6] == 0x65 && data[s + 7]
        == 0x00;
    proof {
        let part = data@.subrange(s as int, s + 8);
        if r {
            assert(part =~= bundle_tag());
        } else {
            assert(part[0] == data@[s as int]);
            assert(part[1] == data@[s + 1]);
            assert(part[2] == data@[s + 2]);
            assert(part[3] == data@[s + 3]);
            assert(part[4] == data@[s + 4]);
            assert(part[5] == data@[s + 5]);
            assert(part[6] == data@[s + 6]);
            assert(part[7] == data@[s + 7]);
        }
    }
    r
}

fn packet_shallow(data: &[u8], s: usize, e: usize, budget: usize, limit: usize) -> (ok: bool)
    requires
        s <= e <= data@.len() <= MAX_DATAGRAM,
    ensures
        ok == packet_within(data@, s as int, e as int, budget as nat, limit as nat),
    decreases budget,
{
    if starts_as_bundle(data, s, e) {
        if budget == 0 {
            return false;
        }
        let start = align(s + 8) + 8;
        let mut p: usize = start;
        while p + 4 <= e
            invariant
                s <= e <= data@.len() <= MAX_DATAGRAM,
                budget > 0,
                starts_bundle(data@, s as int, e as int),
                start == aligned(s + 8) + 8,
                start <= p <= MAX_DATAGRAM + 20,
                elements_within(
                    data@,
                    p as int,
                    e as int,
                    (budget - 1) as nat,
                    limit as nat,
                ) == elements_within(
                    data@,
                    start as int,
                    e as int,
                    (budget - 1) as nat,
                    limit as nat,
                ),
            decreases e - p,
        {
            let size: usize = (data[p] as usize) * 0x1000000 + (data[p + 1] as usize) * 0x10000
                + (data[p + 2] as usize) * 0x100 + (data[p + 3] as usize);
            let q = p + 4;
            if size > e - q {
                return true;
            }
            if !packet_shallow(data, q, q + size, budget - 1, limit) {
                return false;
            }
            p = q + size;
        }
        true
    } else if s < e && data[s] == 0x2f {
        message_shallow(data, s, e, limit)
    } else {
        true
    }
}

/// Whether a datagram is taken in: not too long, and not too deep.
pub open spec fn admitted(data: Seq<u8>) -> bool {
    data.len() <= MAX_DATAGRAM && shallow(data)
}

/// Tells whether a datagram is taken in: not longer than [`MAX_DATAGRAM`]
/// bytes, and with neither bundles nor arrays more than [`MAX_DEPTH`] deep.
pub fn is_admitted(data: &[u8]) -> (ok: bool)
    ensures
        ok == admitted(data@),
{
    data.len() <= MAX_DATAGRAM && packet_shallow(data, 0, data.len(), MAX_DEPTH, MAX_DEPTH)
}

} // verus!
