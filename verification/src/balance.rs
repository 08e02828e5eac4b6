//! Balances in the encoding: fixed-width little-endian numbers, and the
//! optional transfer bounds made of them.

use crate::compact::starts_with;
use vstd::bytes::{
    lemma_auto_spec_u128_to_from_le_bytes, lemma_auto_spec_u32_to_from_le_bytes,
    lemma_auto_spec_u64_to_from_le_bytes, spec_u128_from_le_bytes, spec_u128_to_le_bytes,
    spec_u32_from_le_bytes, spec_u32_to_le_bytes, spec_u64_from_le_bytes, spec_u64_to_le_bytes,
    u128_from_le_bytes, u128_to_le_bytes, u32_from_le_bytes, u32_to_le_bytes, u64_from_le_bytes,
    u64_to_le_bytes,
};
use vstd::prelude::*;
use vstd::slice::slice_subrange;

verus! {

/// A balance with a fixed-width little-endian encoding.
pub trait BalanceBytes: Sized {
    /// The number of bytes that a balance takes.
    spec fn width() -> nat;

    /// The bytes of a balance, least significant first.
    spec fn le_bytes(&self) -> Seq<u8>;

    /// Every balance takes `width()` bytes, and no two balances have the
    /// same bytes.
    proof fn lemma_le_bytes(a: Self, b: Self)
        ensures
            a.le_bytes().len() == Self::width(),
            a.le_bytes() == b.le_bytes() ==> a == b,
    ;

    /// The number of bytes that a balance takes.
    fn byte_width() -> (width: usize)
        ensures
            width == Self::width(),
    ;

    /// Appends the bytes of the balance to `out`.
    fn write_le_bytes(&self, out: &mut Vec<u8>)
        ensures
            final(out)@ == old(out)@ + self.le_bytes(),
    ;

    /// The balance that `bytes` stand for.
    fn read_le_bytes(bytes: &[u8]) -> (balance: Self)
        requires
            bytes@.len() == Self::width(),
        ensures
            balance.le_bytes() == bytes@,
    ;
}

impl BalanceBytes for u128 {
    open spec fn width() -> nat {
        16
    }

    open spec fn le_bytes(&self) -> Seq<u8> {
        spec_u128_to_le_bytes(*self)
    }

    proof fn lemma_le_bytes(a: Self, b: Self) {
        lemma_auto_spec_u128_to_from_le_bytes();
        assert(spec_u128_to_le_bytes(a).len() == 16 && spec_u128_to_le_bytes(b).len() == 16);
        assert(spec_u128_from_le_bytes(spec_u128_to_le_bytes(a)) == a);
        assert(spec_u128_from_le_bytes(spec_u128_to_le_bytes(b)) == b);
    }

    fn byte_width() -> (width: usize) {
        16
    }

    fn write_le_bytes(&self, out: &mut Vec<u8>) {
        let item = u128_to_le_bytes(*self);
        out.extend_from_slice(item.as_slice());
        proof {
            assert(out@ =~= old(out)@ + self.le_bytes());
        }
    }

    fn read_le_bytes(bytes: &[u8]) -> (balance: Self) {
        proof {
            lemma_auto_spec_u128_to_from_le_bytes();
            assert(spec_u128_to_le_bytes(spec_u128_from_le_bytes(bytes@)) == bytes@);
        }
        u128_from_le_bytes(bytes)
    }
}

impl BalanceBytes for u64 {
    open spec fn width() -> nat {
        8
    }

    open spec fn le_bytes(&self) -> Seq<u8> {
        spec_u64_to_le_bytes(*self)
    }

    proof fn lemma_le_bytes(a: Self, b: Self) {
        lemma_auto_spec_u64_to_from_le_bytes();
        assert(spec_u64_to_le_bytes(a).len() == 8 && spec_u64_to_le_bytes(b).len() == 8);
        assert(spec_u64_from_le_bytes(spec_u64_to_le_bytes(a)) == a);
        assert(spec_u64_from_le_bytes(spec_u64_to_le_bytes(b)) == b);
    }

    fn byte_width() -> (width: usize) {
        8
    }

    fn write_le_bytes(&self, out: &mut Vec<u8>) {
        let item = u64_to_le_bytes(*self);
        out.extend_from_slice(item.as_slice());
        proof {
            assert(out@ =~= old(out)@ + self.le_bytes());
        }
    }

    fn read_le_bytes(bytes: &[u8]) -> (balance: Self) {
        proof {
            lemma_auto_spec_u64_to_from_le_bytes();
            assert(spec_u64_to_le_bytes(spec_u64_from_le_bytes(bytes@)) == bytes@);
        }
        u64_from_le_bytes(bytes)
    }
}

impl BalanceBytes for u32 {
    open spec fn width() -> nat {
        4
    }

    open spec fn le_bytes(&self) -> Seq<u8> {
        spec_u32_to_le_bytes(*self)
    }

    proof fn lemma_le_bytes(a: Self, b: Self) {
        lemma_auto_spec_u32_to_from_le_bytes();
        assert(spec_u32_to_le_bytes(a).len() == 4 && spec_u32_to_le_bytes(b).len() == 4);
        assert(spec_u32_from_le_bytes(spec_u32_to_le_bytes(a)) == a);
        assert(spec_u32_from_le_bytes(spec_u32_to_le_bytes(b)) == b);
    }

    fn byte_width() -> (width: usize) {
        4
    }

    fn write_le_bytes(&self, out: &mut Vec<u8>) {
        let item = u32_to_le_bytes(*self);
        out.extend_from_slice(item.as_slice());
        proof {
            assert(out@ =~= old(out)@ + self.le_bytes());
        }
    }

    fn read_le_bytes(bytes: &[u8]) -> (balance: Self) {
        proof {
            lemma_auto_spec_u32_to_from_le_bytes();
            assert(spec_u32_to_le_bytes(spec_u32_from_le_bytes(bytes@)) == bytes@);
        }
        u32_from_le_bytes(bytes)
    }
}

/// An optional transfer bound: a tag byte, then the bound if there is one.
pub open spec fn bound_bytes<B: BalanceBytes>(bound: Option<B>) -> Seq<u8> {
    match bound {
        None => seq![0u8],
        Some(balance) => seq![1u8] + balance.le_bytes(),
    }
}

/// A byte string begins with the encoding of at most one transfer bound.
pub proof fn lemma_bound_bytes_unique<B: BalanceBytes>(bytes: Seq<u8>, a: Option<B>, b: Option<B>)
    requires
        starts_with(bytes, bound_bytes(a)),
        starts_with(bytes, bound_bytes(b)),
    ensures
        a == b,
{
    let ea = bound_bytes(a);
    let eb = bound_bytes(b);
    assert(ea[0] == bytes.take(ea.len() as int)[0]);
    assert(eb[0] == bytes.take(eb.len() as int)[0]);
    if a is Some && b is Some {
        B::lemma_le_bytes(a->0, b->0);
        B::lemma_le_bytes(b->0, a->0);
        assert(ea.skip(1) =~= (a->0).le_bytes());
        assert(eb.skip(1) =~= (b->0).le_bytes());
        assert(ea =~= eb);
    }
}

/// Appends the encoding of an optional transfer bound to `out`.
pub(crate) fn push_bound<B: BalanceBytes>(out: &mut Vec<u8>, bound: &Option<B>)
    ensures
        final(out)@ == old(out)@ + bound_bytes(*bound),
{
    match bound {
        None => {
            out.push(0u8);
            proof {
                assert(out@ =~= old(out)@ + bound_bytes(*bound));
            }
        },
        Some(balance) => {
            out.push(1u8);
            balance.write_le_bytes(out);
            proof {
                assert(out@ =~= old(out)@ + bound_bytes(*bound));
            }
        },
    }
}

/// Reads the optional transfer bound that starts at `pos`: the bound and the
/// position after it, or `None` where no bound starts there.
pub(crate) fn read_bound<B: BalanceBytes>(bytes: &[u8], pos: usize) -> (r: Option<(Option<B>, usize)>)
    requires
        pos <= bytes@.len(),
    ensures
        match r {
            Some((bound, next)) => pos < next <= bytes@.len() && bytes@.subrange(
                pos as int,
                next as int,
            ) == bound_bytes(bound),
            None => forall|bound: Option<B>|
                !starts_with(bytes@.skip(pos as int), #[trigger] bound_bytes(bound)),
        },
{
    let len = bytes.len();
    let width = B::byte_width();
    let ghost rest = bytes@.skip(pos as int);
    proof {
        assert forall|bound: Option<B>| starts_with(rest, #[trigger] bound_bytes(bound)) implies {
            &&& rest.len() >= 1
            &&& bound is None ==> rest[0] == 0
            &&& bound is Some ==> rest[0] == 1 && rest.len() >= 1 + width
        } by {
            let e = bound_bytes(bound);
            assert(e[0] == rest.take(e.len() as int)[0]);
            if bound is Some {
                B::lemma_le_bytes(bound->0, bound->0);
            }
        }
    }
    if pos >= len {
        return None;
    }
    let tag = bytes[pos];
    assert(rest[0] == tag);
    if tag == 0 {
        proof {
            assert(bytes@.subrange(pos as int, pos + 1) =~= bound_bytes(None::<B>));
        }
        Some((None, pos + 1))
    } else if tag == 1 {
        if len - pos - 1 < width {
            return None;
        }
        let next = pos + 1 + width;
        let balance = B::read_le_bytes(slice_subrange(bytes, pos + 1, next));
        proof {
            assert(bytes@.subrange(pos as int, next as int) =~= bound_bytes(Some(balance)));
        }
        Some((Some(balance), next))
    } else {
        None
    }
}

} // verus!
