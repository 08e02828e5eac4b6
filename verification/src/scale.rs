//! The canonical byte encoding of a release schedule.
//!
//! A schedule is laid out field by field: the percentages as a length prefix
//! and one byte each; the durations as a length prefix and eight
//! little-endian bytes each; then each transfer bound as a tag byte, followed
//! by the balance's little-endian bytes when the bound is set (sixteen for a
//! 128-bit balance). Every schedule has exactly one encoding and every byte
//! string decodes to at most one schedule, so nodes that store the same
//! schedule store the same bytes.

use crate::balance::{
    bound_bytes, lemma_bound_bytes_unique, push_bound, read_bound, BalanceBytes,
};
use crate::compact::{
    compact_len, lemma_compact_len_shape, lemma_compact_len_unique, lemma_head_and_tail,
    push_compact, read_compact, starts_with, MAX_ITEMS,
};
use crate::types::{BalanceReleaseSetting, ReleasePlan};
use vstd::bytes::{
    lemma_auto_spec_u64_to_from_le_bytes, spec_u64_from_le_bytes, spec_u64_to_le_bytes,
    u64_from_le_bytes, u64_to_le_bytes,
};
use vstd::prelude::*;
use vstd::slice::{slice_subrange, slice_to_vec};

verus! {

/// The durations laid end to end, eight little-endian bytes each.
pub open spec fn durations_bytes(durations: Seq<u64>) -> Seq<u8> {
    Seq::new(8 * durations.len(), |k: int| spec_u64_to_le_bytes(durations[k / 8])[k % 8])
}

/// What follows the percentages' length prefix in an encoding.
pub open spec fn after_percentages_len<B: BalanceBytes>(plan: ReleasePlan<B>) -> Seq<u8> {
    plan.release_percentages + after_percentages(plan)
}

/// What follows the percentages in an encoding.
pub open spec fn after_percentages<B: BalanceBytes>(plan: ReleasePlan<B>) -> Seq<u8> {
    compact_len(plan.release_durations.len()) + after_durations_len(plan)
}

/// What follows the durations' length prefix in an encoding.
pub open spec fn after_durations_len<B: BalanceBytes>(plan: ReleasePlan<B>) -> Seq<u8> {
    durations_bytes(plan.release_durations) + after_durations(plan)
}

/// What follows the durations in an encoding: the two bounds.
pub open spec fn after_durations<B: BalanceBytes>(plan: ReleasePlan<B>) -> Seq<u8> {
    bound_bytes(plan.min_transfer_balance) + bound_bytes(plan.max_transfer_balance)
}

/// The canonical encoding of a plan: its four fields in order.
pub open spec fn encoding<B: BalanceBytes>(plan: ReleasePlan<B>) -> Seq<u8> {
    compact_len(plan.release_percentages.len()) + after_percentages_len(plan)
}

/// A plan can be encoded when a length prefix can announce each of its
/// sequences.
pub open spec fn encodable<B: BalanceBytes>(plan: ReleasePlan<B>) -> bool {
    plan.release_percentages.len() <= MAX_ITEMS && plan.release_durations.len() <= MAX_ITEMS
}

/// `bytes` is the encoding of `plan`.
pub open spec fn is_encoding_of<B: BalanceBytes>(bytes: Seq<u8>, plan: ReleasePlan<B>) -> bool {
    encodable(plan) && encoding(plan) == bytes
}

/// The plan that `bytes` encodes, if it encodes one. No byte string encodes
/// two plans (`lemma_encoding_unique`).
pub open spec fn decoding<B: BalanceBytes>(bytes: Seq<u8>) -> Option<ReleasePlan<B>> {
    if exists|plan: ReleasePlan<B>| is_encoding_of(bytes, plan) {
        Some(choose|plan: ReleasePlan<B>| is_encoding_of(bytes, plan))
    } else {
        None
    }
}

/// Durations are eight bytes each, and the bytes of the `i`-th stand at
/// offset `8 * i`.
pub proof fn lemma_durations_bytes_at(durations: Seq<u64>, i: int)
    requires
        0 <= i < durations.len(),
    ensures
        durations_bytes(durations).len() == 8 * durations.len(),
        durations_bytes(durations).subrange(8 * i, 8 * i + 8) == spec_u64_to_le_bytes(
            durations[i],
        ),
{
    lemma_auto_spec_u64_to_from_le_bytes();
    let whole = durations_bytes(durations);
    let part = whole.subrange(8 * i, 8 * i + 8);
    let item = spec_u64_to_le_bytes(durations[i]);
    assert forall|j: int| 0 <= j < 8 implies part[j] == item[j] by {
        assert((8 * i + j) / 8 == i && (8 * i + j) % 8 == j);
    }
    assert(part =~= item);
}

/// Two sequences of durations with the same bytes are the same sequence.
pub proof fn lemma_durations_bytes_unique(a: Seq<u64>, b: Seq<u64>)
    requires
        a.len() == b.len(),
        durations_bytes(a) == durations_bytes(b),
    ensures
        a == b,
{
    lemma_auto_spec_u64_to_from_le_bytes();
    assert forall|i: int| 0 <= i < a.len() implies a[i] == b[i] by {
        lemma_durations_bytes_at(a, i);
        lemma_durations_bytes_at(b, i);
        assert(spec_u64_from_le_bytes(spec_u64_to_le_bytes(a[i])) == a[i]);
        assert(spec_u64_from_le_bytes(spec_u64_to_le_bytes(b[i])) == b[i]);
    }
    assert(a =~= b);
}

/// Appends the bytes of the durations to `out`.
fn push_durations(out: &mut Vec<u8>, durations: &Vec<u64>)
    ensures
        final(out)@ == old(out)@ + durations_bytes(durations@),
{
    let mut i: usize = 0;
    while i < durations.len()
        invariant
            i <= durations.len(),
            out@ == old(out)@ + durations_bytes(durations@.take(i as int)),
        decreases durations.len() - i,
    {
        let item = u64_to_le_bytes(durations[i]);
        let ghost before = out@;
        out.extend_from_slice(item.as_slice());
        proof {
            let shorter = durations@.take(i as int);
            let longer = durations@.take(i + 1);
            assert(out@ == before + item@);
            assert forall|k: int| 0 <= k < 8 * (i + 1) implies durations_bytes(longer)[k] == (
            durations_bytes(shorter) + item@)[k] by {
                if k < 8 * i {
                    assert(longer[k / 8] == shorter[k / 8]);
                } else {
                    assert(k / 8 == i && k % 8 == k - 8 * i);
                }
            }
            assert(durations_bytes(longer) =~= durations_bytes(shorter) + item@);
            assert(out@ =~= old(out)@ + durations_bytes(longer));
        }
        i = i + 1;
    }
    proof {
        assert(durations@.take(i as int) =~= durations@);
    }
}

/// Reads `count` durations, eight bytes each, from `pos` on.
fn read_durations(bytes: &[u8], pos: usize, count: u32) -> (durations: Vec<u64>)
    requires
        pos + 8 * count <= bytes@.len(),
    ensures
        durations@.len() == count,
        durations_bytes(durations@) == bytes@.subrange(pos as int, pos + 8 * count),
{
    let len = bytes.len();
    let mut durations: Vec<u64> = Vec::new();
    let mut i: usize = 0;
    while i < count as usize
        invariant
            i <= count,
            len == bytes@.len(),
            pos + 8 * count <= len,
            durations@.len() == i,
            forall|j: int|
                0 <= j < i ==> spec_u64_to_le_bytes(#[trigger] durations@[j]) == bytes@.subrange(
                    pos + 8 * j,
                    pos + 8 * j + 8,
                ),
        decreases count - i,
    {
        let start = pos + 8 * i;
        let item = slice_subrange(bytes, start, start + 8);
        let duration = u64_from_le_bytes(item);
        proof {
            lemma_auto_spec_u64_to_from_le_bytes();
            assert(spec_u64_to_le_bytes(spec_u64_from_le_bytes(item@)) == item@);
        }
        durations.push(duration);
        i = i + 1;
    }
    proof {
        lemma_auto_spec_u64_to_from_le_bytes();
        let whole = bytes@.subrange(pos as int, pos + 8 * count);
        assert forall|k: int| 0 <= k < 8 * count implies durations_bytes(durations@)[k]
            == whole[k] by {
            let j = k / 8;
            assert(0 <= j < count && k == 8 * j + k % 8);
            assert(spec_u64_to_le_bytes(durations@[j]) == bytes@.subrange(
                pos + 8 * j,
                pos + 8 * j + 8,
            ));
            assert(bytes@.subrange(pos + 8 * j, pos + 8 * j + 8)[k % 8] == bytes@[pos + k]);
        }
        assert(durations_bytes(durations@) =~= whole);
    }
    durations
}

/// In an encoding, the percentages' length prefix comes first; once it is
/// read, the plan's percentages are known, and the rest begins with the
/// durations' length prefix.
pub proof fn lemma_percentages_stage<B: BalanceBytes>(
    bytes: Seq<u8>,
    plan: ReleasePlan<B>,
    count: nat,
    start: int,
)
    requires
        is_encoding_of(bytes, plan),
        count <= MAX_ITEMS,
        0 <= start <= bytes.len(),
        bytes.subrange(0, start) == compact_len(count),
    ensures
        plan.release_percentages.len() == count,
        start + count <= bytes.len(),
        plan.release_percentages == bytes.subrange(start, start + count),
        after_percentages(plan) == bytes.skip(start + count),
{
    let head = compact_len(plan.release_percentages.len());
    lemma_head_and_tail(bytes, head, after_percentages_len(plan));
    assert(bytes.take(start) =~= bytes.subrange(0, start));
    lemma_compact_len_unique(bytes, plan.release_percentages.len(), count);
    lemma_head_and_tail(
        after_percentages_len(plan),
        plan.release_percentages,
        after_percentages(plan),
    );
    assert(bytes.skip(start).take(count as int) =~= bytes.subrange(start, start + count));
    assert(bytes.skip(start).skip(count as int) =~= bytes.skip(start + count));
}

/// Once the durations' length prefix is read, the bytes of the plan's
/// durations are known, and the rest holds the two bounds.
pub proof fn lemma_durations_stage<B: BalanceBytes>(
    bytes: Seq<u8>,
    plan: ReleasePlan<B>,
    at: int,
    count: nat,
    start: int,
)
    requires
        encodable(plan),
        0 <= at <= start <= bytes.len(),
        after_percentages(plan) == bytes.skip(at),
        count <= MAX_ITEMS,
        bytes.subrange(at, start) == compact_len(count),
    ensures
        plan.release_durations.len() == count,
        start + 8 * count <= bytes.len(),
        durations_bytes(plan.release_durations) == bytes.subrange(start, start + 8 * count),
        after_durations(plan) == bytes.skip(start + 8 * count),
{
    let rest = bytes.skip(at);
    let head = compact_len(plan.release_durations.len());
    lemma_head_and_tail(rest, head, after_durations_len(plan));
    assert(rest.take(start - at) =~= bytes.subrange(at, start));
    lemma_compact_len_unique(rest, plan.release_durations.len(), count);
    assert(rest.skip(start - at) =~= bytes.skip(start));
    lemma_head_and_tail(
        after_durations_len(plan),
        durations_bytes(plan.release_durations),
        after_durations(plan),
    );
    assert(bytes.skip(start).take(8 * count as int) =~= bytes.subrange(start, start + 8 * count));
    assert(bytes.skip(start).skip(8 * count as int) =~= bytes.skip(start + 8 * count));
}

/// Once both bounds are read, they are the plan's bounds, and nothing is left.
pub proof fn lemma_bounds_stage<B: BalanceBytes>(
    bytes: Seq<u8>,
    plan: ReleasePlan<B>,
    at: int,
    min: Option<B>,
    mid: int,
    max: Option<B>,
    end: int,
)
    requires
        0 <= at <= mid <= end <= bytes.len(),
        after_durations(plan) == bytes.skip(at),
        bytes.subrange(at, mid) == bound_bytes(min),
        bytes.subrange(mid, end) == bound_bytes(max),
    ensures
        plan.min_transfer_balance == min,
        plan.max_transfer_balance == max,
        end == bytes.len(),
{
    lemma_min_bound_stage(bytes, plan, at, min, mid);
    let rest = bytes.skip(mid);
    assert(rest.take(end - mid) =~= bytes.subrange(mid, end));
    assert(rest.take(rest.len() as int) =~= rest);
    lemma_bound_bytes_unique(rest, plan.max_transfer_balance, max);
}

/// Once the first bound is read, it is the plan's lower bound, and the rest
/// is the plan's upper bound.
pub proof fn lemma_min_bound_stage<B: BalanceBytes>(
    bytes: Seq<u8>,
    plan: ReleasePlan<B>,
    at: int,
    min: Option<B>,
    mid: int,
)
    requires
        0 <= at <= mid <= bytes.len(),
        after_durations(plan) == bytes.skip(at),
        bytes.subrange(at, mid) == bound_bytes(min),
    ensures
        plan.min_transfer_balance == min,
        bound_bytes(plan.max_transfer_balance) == bytes.skip(mid),
{
    let rest = bytes.skip(at);
    lemma_head_and_tail(
        rest,
        bound_bytes(plan.min_transfer_balance),
        bound_bytes(plan.max_transfer_balance),
    );
    assert(rest.take(mid - at) =~= bytes.subrange(at, mid));
    lemma_bound_bytes_unique(rest, plan.min_transfer_balance, min);
    assert(rest.skip(mid - at) =~= bytes.skip(mid));
}

/// Two plans with the same encoding are the same plan: decoding the
/// encoding of a plan can give nothing but that plan.
pub proof fn lemma_encoding_unique<B: BalanceBytes>(a: ReleasePlan<B>, b: ReleasePlan<B>)
    requires
        encodable(a),
        encodable(b),
        encoding(a) == encoding(b),
    ensures
        a == b,
{
    let bytes = encoding(b);
    let head = compact_len(b.release_percentages.len());
    lemma_head_and_tail(bytes, head, after_percentages_len(b));
    lemma_compact_len_shape(b.release_percentages.len());
    let start = head.len() as int;
    assert(bytes.subrange(0, start) =~= head);
    lemma_percentages_stage(bytes, a, b.release_percentages.len(), start);
    lemma_percentages_stage(bytes, b, b.release_percentages.len(), start);
    let at = start + b.release_percentages.len();
    let prefix = compact_len(b.release_durations.len());
    lemma_head_and_tail(bytes.skip(at), prefix, after_durations_len(b));
    lemma_compact_len_shape(b.release_durations.len());
    let from = at + prefix.len();
    assert(bytes.subrange(at, from) =~= bytes.skip(at).take(prefix.len() as int));
    lemma_durations_stage(bytes, a, at, b.release_durations.len(), from);
    lemma_durations_stage(bytes, b, at, b.release_durations.len(), from);
    lemma_durations_bytes_unique(a.release_durations, b.release_durations);
    let bounds = from + 8 * b.release_durations.len();
    let min = bound_bytes(b.min_transfer_balance);
    let max = bound_bytes(b.max_transfer_balance);
    lemma_head_and_tail(bytes.skip(bounds), min, max);
    let mid = bounds + min.len();
    assert(bytes.subrange(bounds, mid) =~= bytes.skip(bounds).take(min.len() as int));
    assert(bytes.skip(bounds).skip(min.len() as int) =~= bytes.skip(mid));
    assert(bytes.subrange(mid, bytes.len() as int) =~= bytes.skip(mid));
    lemma_bounds_stage(
        bytes,
        a,
        bounds,
        b.min_transfer_balance,
        mid,
        b.max_transfer_balance,
        bytes.len() as int,
    );
}

/// Round trip: decoding the encoding of a plan gives that plan back, for
/// every plan that can be encoded: with empty sequences or many stages, with
/// bounds or without.
pub proof fn lemma_round_trip<B: BalanceBytes>(plan: ReleasePlan<B>)
    requires
        encodable(plan),
    ensures
        decoding::<B>(encoding(plan)) == Some(plan),
{
    let bytes = encoding(plan);
    assert(is_encoding_of(bytes, plan));
    let chosen = choose|other: ReleasePlan<B>| is_encoding_of(bytes, other);
    lemma_encoding_unique(chosen, plan);
}

impl<Balance: BalanceBytes> BalanceReleaseSetting<Balance> {
    /// Whether the setting can be encoded: whether a length prefix can
    /// announce each of its sequences.
    pub fn can_encode(&self) -> (ok: bool)
        ensures
            ok == encodable(self@),
    {
        self.release_percentages().len() <= MAX_ITEMS as usize && self.release_durations().len()
            <= MAX_ITEMS as usize
    }

    /// Encodes the setting. The result is the one canonical encoding of its
    /// value, and decodes to that value.
    pub fn encode(&self) -> (bytes: Vec<u8>)
        requires
            encodable(self@),
        ensures
            bytes@ == encoding(self@),
            decoding::<Balance>(bytes@) == Some(self@),
    {
        let percentages = self.release_percentages();
        let durations = self.release_durations();
        let mut out: Vec<u8> = Vec::new();
        push_compact(&mut out, percentages.len() as u32);
        out.extend_from_slice(percentages.as_slice());
        push_compact(&mut out, durations.len() as u32);
        push_durations(&mut out, durations);
        push_bound(&mut out, self.min_transfer_balance());
        push_bound(&mut out, self.max_transfer_balance());
        proof {
            assert(out@ =~= encoding(self@));
            lemma_round_trip(self@);
        }
        out
    }

    /// Decodes a setting from `bytes`, which must be an encoding from its
    /// first byte to its last.
    ///
    /// Returns the setting whose encoding `bytes` is, the only one there is,
    /// and `None` exactly when `bytes` is the encoding of no setting: when
    /// bytes are missing or left over, a length prefix is not the shortest
    /// for its length, or a bound's tag is neither 0 nor 1.
    pub fn decode(bytes: &[u8]) -> (r: Option<Self>)
        ensures
            match r {
                Some(setting) => decoding::<Balance>(bytes@) == Some(setting@),
                None => decoding::<Balance>(bytes@) is None,
            },
            match r {
                Some(setting) => is_encoding_of(bytes@, setting@) && forall|plan: ReleasePlan<Balance>|
                    #[trigger] is_encoding_of(bytes@, plan) ==> plan == setting@,
                None => forall|plan: ReleasePlan<Balance>| !#[trigger] is_encoding_of(bytes@, plan),
            },
    {
        let (percentages, d_at) = match decode_percentages::<Balance>(bytes) {
            Some(read) => read,
            None => {
                return None;
            },
        };
        let (durations, b_at) = match decode_durations::<Balance>(bytes, d_at) {
            Some(read) => read,
            None => {
                return None;
            },
        };
        let (min, max) = match decode_bounds::<Balance>(bytes, b_at) {
            Some(read) => read,
            None => {
                return None;
            },
        };
        let setting = BalanceReleaseSetting::new(percentages, durations, min, max);
        proof {
            lemma_assemble(bytes@, d_at as int, b_at as int, setting@);
            assert forall|plan: ReleasePlan<Balance>| #[trigger]
                is_encoding_of(bytes@, plan) implies plan == setting@ by {
                assert(after_percentages(plan) == bytes@.skip(d_at as int));
                assert(after_durations(plan) == bytes@.skip(b_at as int));
            }
            assert(is_encoding_of(bytes@, setting@));
        }
        Some(setting)
    }
}

/// A byte string cut in three, where the parts are the percentages, the
/// durations and the bounds of a plan, is the encoding of that plan.
proof fn lemma_assemble<B: BalanceBytes>(bytes: Seq<u8>, d_at: int, b_at: int, plan: ReleasePlan<B>)
    requires
        0 <= d_at <= b_at <= bytes.len(),
        bytes.subrange(0, d_at) == compact_len(plan.release_percentages.len())
            + plan.release_percentages,
        bytes.subrange(d_at, b_at) == compact_len(plan.release_durations.len()) + durations_bytes(
            plan.release_durations,
        ),
        bytes.skip(b_at) == after_durations(plan),
    ensures
        bytes == encoding(plan),
{
    let first = bytes.subrange(0, d_at);
    let second = bytes.subrange(d_at, b_at);
    let third = bytes.skip(b_at);
    assert(bytes =~= first + (second + third));
    assert(after_percentages(plan) =~= second + third);
    assert(encoding(plan) =~= first + after_percentages(plan));
}

/// Reads the percentages from the start of `bytes`: the percentages and the
/// position after them, or `None` where `bytes` is no encoding.
fn decode_percentages<B: BalanceBytes>(bytes: &[u8]) -> (r: Option<(Vec<u8>, usize)>)
    ensures
        match r {
            Some((percentages, at)) => {
                &&& at <= bytes@.len()
                &&& percentages@.len() <= MAX_ITEMS
                &&& bytes@.subrange(0, at as int) == compact_len(percentages@.len())
                    + percentages@
                &&& forall|plan: ReleasePlan<B>| #[trigger]
                    is_encoding_of(bytes@, plan) ==> plan.release_percentages == percentages@
                        && after_percentages(plan) == bytes@.skip(at as int)
            },
            None => forall|plan: ReleasePlan<B>| !#[trigger] is_encoding_of(bytes@, plan),
        },
{
    let len = bytes.len();
    proof {
        assert(bytes@.skip(0) =~= bytes@);
        assert forall|plan: ReleasePlan<B>| #[trigger]
            is_encoding_of(bytes@, plan) implies starts_with(
            bytes@.skip(0),
            compact_len(plan.release_percentages.len()),
        ) by {
            lemma_head_and_tail(
                bytes@,
                compact_len(plan.release_percentages.len()),
                after_percentages_len(plan),
            );
        }
    }
    let (count, start) = match read_compact(bytes, 0) {
        Some(read) => read,
        None => {
            return None;
        },
    };
    proof {
        assert forall|plan: ReleasePlan<B>| #[trigger] is_encoding_of(bytes@, plan) implies {
            &&& start + count <= len
            &&& plan.release_percentages == bytes@.subrange(start as int, start + count)
            &&& after_percentages(plan) == bytes@.skip(start + count)
        } by {
            lemma_percentages_stage(bytes@, plan, count as nat, start as int);
        }
    }
    if count as usize > len - start {
        return None;
    }
    let at = start + count as usize;
    let percentages = slice_to_vec(slice_subrange(bytes, start, at));
    proof {
        assert(bytes@.subrange(0, at as int) =~= bytes@.subrange(0, start as int)
            + percentages@);
    }
    Some((percentages, at))
}

/// Reads the durations from `at` on: the durations and the position after
/// them, or `None` where no encoding goes on like this.
fn decode_durations<B: BalanceBytes>(bytes: &[u8], at: usize) -> (r: Option<(Vec<u64>, usize)>)
    requires
        at <= bytes@.len(),
    ensures
        match r {
            Some((durations, next)) => {
                &&& at <= next <= bytes@.len()
                &&& durations@.len() <= MAX_ITEMS
                &&& bytes@.subrange(at as int, next as int) == compact_len(durations@.len())
                    + durations_bytes(durations@)
                &&& forall|plan: ReleasePlan<B>|
                    encodable(plan) && #[trigger] after_percentages(plan) == bytes@.skip(
                        at as int,
                    ) ==> plan.release_durations == durations@ && after_durations(plan)
                        == bytes@.skip(next as int)
            },
            None => forall|plan: ReleasePlan<B>|
                encodable(plan) ==> #[trigger] after_percentages(plan) != bytes@.skip(at as int),
        },
{
    let len = bytes.len();
    proof {
        assert forall|plan: ReleasePlan<B>|
            encodable(plan) && #[trigger] after_percentages(plan) == bytes@.skip(
                at as int,
            ) implies starts_with(bytes@.skip(at as int), compact_len(plan.release_durations.len())) by {
            lemma_head_and_tail(
                after_percentages(plan),
                compact_len(plan.release_durations.len()),
                after_durations_len(plan),
            );
        }
    }
    let (count, start) = match read_compact(bytes, at) {
        Some(read) => read,
        None => {
            return None;
        },
    };
    proof {
        assert forall|plan: ReleasePlan<B>|
            encodable(plan) && #[trigger] after_percentages(plan) == bytes@.skip(
                at as int,
            ) implies {
            &&& plan.release_durations.len() == count
            &&& start + 8 * count <= len
            &&& durations_bytes(plan.release_durations) == bytes@.subrange(
                start as int,
                start + 8 * count,
            )
            &&& after_durations(plan) == bytes@.skip(start + 8 * count)
        } by {
            lemma_durations_stage(bytes@, plan, at as int, count as nat, start as int);
        }
    }
    if count as usize > (len - start) / 8 {
        return None;
    }
    let durations = read_durations(bytes, start, count);
    let next = start + 8 * (count as usize);
    proof {
        assert forall|plan: ReleasePlan<B>|
            encodable(plan) && #[trigger] after_percentages(plan) == bytes@.skip(
                at as int,
            ) implies plan.release_durations == durations@ by {
            lemma_durations_bytes_unique(plan.release_durations, durations@);
        }
        assert(bytes@.subrange(at as int, next as int) =~= bytes@.subrange(at as int, start as int)
            + bytes@.subrange(start as int, next as int));
    }
    Some((durations, next))
}

/// Reads the two bounds from `at` to the end of `bytes`, or `None` where no
/// encoding ends like this.
fn decode_bounds<B: BalanceBytes>(bytes: &[u8], at: usize) -> (r: Option<(Option<B>, Option<B>)>)
    requires
        at <= bytes@.len(),
    ensures
        match r {
            Some((min, max)) => {
                &&& bytes@.skip(at as int) == bound_bytes(min) + bound_bytes(max)
                &&& forall|plan: ReleasePlan<B>| #[trigger]
                    after_durations(plan) == bytes@.skip(at as int) ==> plan.min_transfer_balance
                        == min && plan.max_transfer_balance == max
            },
            None => forall|plan: ReleasePlan<B>| #[trigger]
                after_durations(plan) != bytes@.skip(at as int),
        },
{
    let len = bytes.len();
    proof {
        assert forall|plan: ReleasePlan<B>| #[trigger]
            after_durations(plan) == bytes@.skip(at as int) implies starts_with(
            bytes@.skip(at as int),
            bound_bytes(plan.min_transfer_balance),
        ) by {
            lemma_head_and_tail(
                after_durations(plan),
                bound_bytes(plan.min_transfer_balance),
                bound_bytes(plan.max_transfer_balance),
            );
        }
    }
    let (min, mid) = match read_bound(bytes, at) {
        Some(read) => read,
        None => {
            return None;
        },
    };
    proof {
        assert forall|plan: ReleasePlan<B>| #[trigger]
            after_durations(plan) == bytes@.skip(at as int) implies {
            &&& plan.min_transfer_balance == min
            &&& starts_with(bytes@.skip(mid as int), bound_bytes(plan.max_transfer_balance))
        } by {
            lemma_min_bound_stage(bytes@, plan, at as int, min, mid as int);
            let rest = bytes@.skip(mid as int);
            assert(rest.take(rest.len() as int) =~= rest);
        }
    }
    let (max, end) = match read_bound(bytes, mid) {
        Some(read) => read,
        None => {
            return None;
        },
    };
    proof {
        assert forall|plan: ReleasePlan<B>| #[trigger]
            after_durations(plan) == bytes@.skip(at as int) implies {
            &&& plan.max_transfer_balance == max
            &&& end == len
        } by {
            lemma_bounds_stage(bytes@, plan, at as int, min, mid as int, max, end as int);
        }
    }
    if end != len {
        return None;
    }
    proof {
        assert(bytes@.skip(at as int) =~= bytes@.subrange(at as int, mid as int) + bytes@.subrange(
            mid as int,
            end as int,
        ));
    }
    Some((min, max))
}

} // verus!
