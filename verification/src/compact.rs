//! Length prefixes: how the encoding announces the number of items of a
//! sequence.
//!
//! A prefix takes one, two, four or five bytes, the shortest that holds the
//! length, and the two low bits of its first byte say which. The remaining
//! bits hold the length, least significant byte first.

use vstd::prelude::*;

verus! {

/// The largest number of items that a length prefix can announce.
pub const MAX_ITEMS: u32 = 0xffff_ffff;

/// `whole` begins with `part`.
pub open spec fn starts_with(whole: Seq<u8>, part: Seq<u8>) -> bool {
    part.len() <= whole.len() && whole.take(part.len() as int) =~= part
}

/// The length prefix of a sequence of `n` items, for `n` up to `MAX_ITEMS`.
pub open spec fn compact_len(n: nat) -> Seq<u8> {
    if n < 0x40 {
        seq![(4 * n) as u8]
    } else if n < 0x4000 {
        let w: nat = 4 * n + 1;
        seq![(w % 256) as u8, (w / 256) as u8]
    } else if n < 0x4000_0000 {
        let w: nat = 4 * n + 2;
        seq![
            (w % 256) as u8,
            (w / 0x100 % 256) as u8,
            (w / 0x1_0000 % 256) as u8,
            (w / 0x100_0000) as u8,
        ]
    } else {
        seq![
            3u8,
            (n % 256) as u8,
            (n / 0x100 % 256) as u8,
            (n / 0x1_0000 % 256) as u8,
            (n / 0x100_0000 % 256) as u8,
        ]
    }
}

/// A length prefix is one, two, four or five bytes long, and the two low bits
/// of its first byte tell which.
pub proof fn lemma_compact_len_shape(n: nat)
    requires
        n <= MAX_ITEMS,
    ensures
        compact_len(n).len() == (if n < 0x40 {
            1nat
        } else if n < 0x4000 {
            2nat
        } else if n < 0x4000_0000 {
            4nat
        } else {
            5nat
        }),
        compact_len(n)[0] % 4 == (if n < 0x40 {
            0int
        } else if n < 0x4000 {
            1int
        } else if n < 0x4000_0000 {
            2int
        } else {
            3int
        }),
{
}

/// The number that four little-endian bytes stand for.
pub open spec fn le_value(b0: u8, b1: u8, b2: u8, b3: u8) -> nat {
    (b0 + 0x100 * b1 + 0x1_0000 * b2 + 0x100_0000 * b3) as nat
}

/// The length that a length prefix announces.
pub open spec fn compact_value(prefix: Seq<u8>) -> nat {
    if prefix[0] % 4 == 0 {
        (prefix[0] / 4) as nat
    } else if prefix[0] % 4 == 1 {
        le_value(prefix[0], prefix[1], 0, 0) / 4
    } else if prefix[0] % 4 == 2 {
        le_value(prefix[0], prefix[1], prefix[2], prefix[3]) / 4
    } else {
        le_value(prefix[1], prefix[2], prefix[3], prefix[4])
    }
}

/// A number below 2^32 is the value of its four little-endian bytes.
pub proof fn lemma_le_value(w: nat)
    requires
        w <= MAX_ITEMS,
    ensures
        w / 0x100_0000 < 256,
        le_value(
            (w % 256) as u8,
            (w / 0x100 % 256) as u8,
            (w / 0x1_0000 % 256) as u8,
            (w / 0x100_0000) as u8,
        ) == w,
{
    let q1 = w / 0x100;
    let q2 = q1 / 0x100;
    let q3 = q2 / 0x100;
    assert(w == 0x100 * q1 + w % 0x100);
    assert(q1 == 0x100 * q2 + q1 % 0x100);
    assert(q2 == 0x100 * q3 + q2 % 0x100);
    assert(q2 == w / 0x1_0000);
    assert(q3 == w / 0x100_0000);
}

/// A length prefix announces the length it was made for.
pub proof fn lemma_compact_value_of_len(n: nat)
    requires
        n <= MAX_ITEMS,
    ensures
        compact_value(compact_len(n)) == n,
{
    lemma_compact_len_shape(n);
    if n < 0x40 {
    } else if n < 0x4000 {
        let w: nat = 4 * n + 1;
        lemma_le_value(w);
        assert(w / 0x1_0000 == 0);
        assert(w / 0x100 % 256 == w / 0x100);
    } else if n < 0x4000_0000 {
        let w: nat = 4 * n + 2;
        lemma_le_value(w);
    } else {
        lemma_le_value(n);
    }
}

/// No two lengths have prefixes of which one begins the other: a byte string
/// begins with the length prefix of at most one length.
pub proof fn lemma_compact_len_unique(bytes: Seq<u8>, n: nat, m: nat)
    requires
        n <= MAX_ITEMS,
        m <= MAX_ITEMS,
        starts_with(bytes, compact_len(n)),
        starts_with(bytes, compact_len(m)),
    ensures
        n == m,
{
    lemma_compact_len_shape(n);
    lemma_compact_len_shape(m);
    let a = compact_len(n);
    let b = compact_len(m);
    assert(a[0] == bytes.take(a.len() as int)[0]);
    assert(b[0] == bytes.take(b.len() as int)[0]);
    assert(a.len() == b.len());
    assert(a =~= b);
    lemma_compact_value_of_len(n);
    lemma_compact_value_of_len(m);
}

/// Where a byte string is a head followed by a tail, it begins with the head
/// and the tail is what is left.
pub proof fn lemma_head_and_tail(whole: Seq<u8>, head: Seq<u8>, tail: Seq<u8>)
    requires
        whole == head + tail,
    ensures
        starts_with(whole, head),
        whole.skip(head.len() as int) == tail,
{
    assert(whole.take(head.len() as int) =~= head);
    assert(whole.skip(head.len() as int) =~= tail);
}

/// Four bytes are the little-endian bytes of the number they stand for.
pub proof fn lemma_le_value_bytes(b0: u8, b1: u8, b2: u8, b3: u8)
    ensures
        le_value(b0, b1, b2, b3) <= MAX_ITEMS,
        le_value(b0, b1, b2, b3) % 256 == b0,
        le_value(b0, b1, b2, b3) / 0x100 % 256 == b1,
        le_value(b0, b1, b2, b3) / 0x1_0000 % 256 == b2,
        le_value(b0, b1, b2, b3) / 0x100_0000 == b3,
        le_value(b0, b1, b2, b3) % 4 == b0 % 4,
{
    let w = le_value(b0, b1, b2, b3);
    let q1: int = b1 + 0x100 * b2 + 0x1_0000 * b3;
    let q2: int = b2 + 0x100 * b3;
    assert(w == 0x100 * q1 + b0);
    assert(w / 0x100 == q1);
    assert(q1 == 0x100 * q2 + b1);
    assert(w / 0x1_0000 == q2);
    assert(w / 0x100_0000 == b3);
}

/// A prefix is well formed when it has the length that its first byte
/// announces and is the shortest prefix for its value.
pub open spec fn canonical_prefix(prefix: Seq<u8>) -> bool {
    &&& prefix.len() >= 1
    &&& prefix[0] % 4 == 0 ==> prefix.len() == 1
    &&& prefix[0] % 4 == 1 ==> prefix.len() == 2 && compact_value(prefix) >= 0x40
    &&& prefix[0] % 4 == 2 ==> prefix.len() == 4 && compact_value(prefix) >= 0x4000
    &&& prefix[0] % 4 == 3 ==> prefix.len() == 5 && prefix[0] == 3 && compact_value(prefix)
        >= 0x4000_0000
}

/// A well-formed prefix is the length prefix of the length it announces.
pub proof fn lemma_compact_len_of_value(prefix: Seq<u8>)
    requires
        canonical_prefix(prefix),
    ensures
        compact_value(prefix) <= MAX_ITEMS,
        compact_len(compact_value(prefix)) == prefix,
{
    let n = compact_value(prefix);
    if prefix[0] % 4 == 0 {
        assert(compact_len(n) =~= prefix);
    } else if prefix[0] % 4 == 1 {
        lemma_le_value_bytes(prefix[0], prefix[1], 0, 0);
        let w = le_value(prefix[0], prefix[1], 0, 0);
        assert(w == 4 * n + 1);
        assert(w / 0x100 == prefix[1]);
        assert(compact_len(n) =~= prefix);
    } else if prefix[0] % 4 == 2 {
        lemma_le_value_bytes(prefix[0], prefix[1], prefix[2], prefix[3]);
        let w = le_value(prefix[0], prefix[1], prefix[2], prefix[3]);
        assert(w == 4 * n + 2);
        assert(compact_len(n) =~= prefix);
    } else {
        lemma_le_value_bytes(prefix[1], prefix[2], prefix[3], prefix[4]);
        assert(n / 0x100_0000 % 256 == n / 0x100_0000);
        assert(compact_len(n) =~= prefix);
    }
}

/// A length prefix is well formed.
pub proof fn lemma_compact_len_canonical(n: nat)
    requires
        n <= MAX_ITEMS,
    ensures
        canonical_prefix(compact_len(n)),
{
    lemma_compact_len_shape(n);
    lemma_compact_value_of_len(n);
}

/// What begins with a length prefix begins with a well-formed prefix: the
/// first bytes, as many as the first byte announces.
pub proof fn lemma_starts_with_compact_len(rest: Seq<u8>, n: nat)
    requires
        n <= MAX_ITEMS,
        starts_with(rest, compact_len(n)),
    ensures
        canonical_prefix(rest.take(compact_len(n).len() as int)),
        compact_value(rest.take(compact_len(n).len() as int)) == n,
        rest.len() >= compact_len(n).len(),
        rest[0] == compact_len(n)[0],
{
    lemma_compact_len_canonical(n);
    lemma_compact_value_of_len(n);
    assert(rest[0] == rest.take(compact_len(n).len() as int)[0]);
}

/// Appends the length prefix of `n` items to `out`.
pub(crate) fn push_compact(out: &mut Vec<u8>, n: u32)
    ensures
        final(out)@ == old(out)@ + compact_len(n as nat),
{
    if n < 0x40 {
        out.push((4 * n) as u8);
        proof {
            assert(final(out)@ =~= old(out)@ + compact_len(n as nat));
        }
    } else if n < 0x4000 {
        let w: u32 = 4 * n + 1;
        out.push((w % 256) as u8);
        out.push((w / 256) as u8);
        proof {
            assert(out@ =~= old(out)@ + compact_len(n as nat));
        }
    } else if n < 0x4000_0000 {
        let w: u32 = 4 * n + 2;
        out.push((w % 256) as u8);
        out.push((w / 0x100 % 256) as u8);
        out.push((w / 0x1_0000 % 256) as u8);
        out.push((w / 0x100_0000) as u8);
        proof {
            assert(out@ =~= old(out)@ + compact_len(n as nat));
        }
    } else {
        out.push(3u8);
        out.push((n % 256) as u8);
        out.push((n / 0x100 % 256) as u8);
        out.push((n / 0x1_0000 % 256) as u8);
        out.push((n / 0x100_0000 % 256) as u8);
        proof {
            assert(out@ =~= old(out)@ + compact_len(n as nat));
        }
    }
}

/// Reads the length prefix that starts at `pos`: the length it announces and
/// the position after it, or `None` where no length prefix starts there.
pub(crate) fn read_compact(bytes: &[u8], pos: usize) -> (r: Option<(u32, usize)>)
    requires
        pos <= bytes@.len(),
    ensures
        match r {
            Some((n, next)) => pos < next <= bytes@.len() && bytes@.subrange(
                pos as int,
                next as int,
            ) == compact_len(n as nat),
            None => forall|m: nat|
                m <= MAX_ITEMS ==> !starts_with(bytes@.skip(pos as int), #[trigger] compact_len(m)),
        },
{
    let len = bytes.len();
    let ghost rest = bytes@.skip(pos as int);
    if pos >= len {
        return None;
    }
    let avail = len - pos;
    let b0 = bytes[pos];
    let mode = b0 % 4;
    let width: usize = if mode == 0 {
        1
    } else if mode == 1 {
        2
    } else if mode == 2 {
        4
    } else {
        5
    };
    proof {
        assert(rest[0] == b0);
        assert forall|m: nat| m <= MAX_ITEMS && starts_with(rest, #[trigger] compact_len(m)) implies {
            &&& compact_len(m).len() == width
            &&& width <= avail
            &&& canonical_prefix(rest.take(width as int))
            &&& compact_value(rest.take(width as int)) == m
        } by {
            lemma_starts_with_compact_len(rest, m);
            lemma_compact_len_shape(m);
        }
    }
    if avail < width {
        return None;
    }
    let ghost prefix = bytes@.subrange(pos as int, pos + width);
    proof {
        assert(prefix =~= rest.take(width as int));
    }
    let n: u32 = if mode == 0 {
        (b0 / 4) as u32
    } else if mode == 1 {
        let w: u32 = b0 as u32 + 0x100 * (bytes[pos + 1] as u32);
        proof {
            assert(w == le_value(prefix[0], prefix[1], 0, 0));
        }
        w / 4
    } else if mode == 2 {
        let w: u64 = b0 as u64 + 0x100 * (bytes[pos + 1] as u64) + 0x1_0000 * (bytes[pos
            + 2] as u64) + 0x100_0000 * (bytes[pos + 3] as u64);
        proof {
            assert(w == le_value(prefix[0], prefix[1], prefix[2], prefix[3]));
        }
        (w / 4) as u32
    } else {
        let w: u64 = bytes[pos + 1] as u64 + 0x100 * (bytes[pos + 2] as u64) + 0x1_0000 * (bytes[pos
            + 3] as u64) + 0x100_0000 * (bytes[pos + 4] as u64);
        proof {
            assert(w == le_value(prefix[1], prefix[2], prefix[3], prefix[4]));
        }
        w as u32
    };
    assert(n == compact_value(prefix));
    let shortest = if mode == 0 {
        true
    } else if mode == 1 {
        n >= 0x40
    } else if mode == 2 {
        n >= 0x4000
    } else {
        b0 == 3 && n >= 0x4000_0000
    };
    if !shortest {
        return None;
    }
    proof {
        lemma_compact_len_of_value(prefix);
    }
    Some((n, pos + width))
}

} // verus!
