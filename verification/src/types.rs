//! The schedule model: one round's release plan.

use vstd::prelude::*;
use vstd::std_specs::cmp::PartialEqSpec;

verus! {

/// A percentage point released at one stage.
pub type BalanceReleasePercentage = u8;

/// Milliseconds after the start of the round at which a stage is released.
pub type BalanceReleaseDuration = u64;

/// Identifier of a sale round; each round has at most one schedule.
pub type RoundId = u32;

/// Identifier of a signing account.
pub type AccountId = u64;

/// The mathematical value of a release schedule. Stage `i` releases
/// `release_percentages[i]` percent once `release_durations[i]` milliseconds
/// have passed.
pub struct ReleasePlan<Balance> {
    pub release_percentages: Seq<u8>,
    pub release_durations: Seq<u64>,
    pub min_transfer_balance: Option<Balance>,
    pub max_transfer_balance: Option<Balance>,
}

/// The sum of a sequence of percentage points, as a mathematical integer.
pub open spec fn total_percentage(percentages: Seq<u8>) -> nat
    decreases percentages.len(),
{
    if percentages.len() == 0 {
        0
    } else {
        total_percentage(percentages.drop_last()) + percentages.last() as nat
    }
}

/// A plan is fully allocated when its percentages add up to exactly 100:
/// nothing is left over and nothing is promised twice.
pub open spec fn fully_allocated(percentages: Seq<u8>) -> bool {
    total_percentage(percentages) == 100
}

/// Computes the sum of the percentage points. The accumulator is wide enough
/// for any sequence that fits in memory, so the sum is exact.
pub fn sum_percentages(percentages: &Vec<BalanceReleasePercentage>) -> (total: u128)
    ensures
        total == total_percentage(percentages@),
{
    let mut total: u128 = 0;
    let mut i: usize = 0;
    while i < percentages.len()
        invariant
            i <= percentages.len(),
            total == total_percentage(percentages@.take(i as int)),
            total <= 255 * i,
        decreases percentages.len() - i,
    {
        proof {
            assert(percentages@.take(i + 1).drop_last() =~= percentages@.take(i as int));
        }
        total = total + percentages[i] as u128;
        i = i + 1;
    }
    proof {
        assert(percentages@.take(i as int) =~= percentages@);
    }
    total
}

/// One round's release plan: a pure data holder. It is not validated here;
/// the registry validates a schedule before it stores one.
#[derive(Clone, Debug, Eq)]
pub struct BalanceReleaseSetting<Balance> {
    /// Percentages released at each stage
    pub release_percentages: Vec<BalanceReleasePercentage>,
    /// Durations in milliseconds required before each stage is released
    pub release_durations: Vec<BalanceReleaseDuration>,
    /// Minimum balance to transfer
    pub min_transfer_balance: Option<Balance>,
    /// Maximum balance to transfer
    pub max_transfer_balance: Option<Balance>,
}

impl<Balance> View for BalanceReleaseSetting<Balance> {
    type V = ReleasePlan<Balance>;

    open spec fn view(&self) -> ReleasePlan<Balance> {
        ReleasePlan {
            release_percentages: self.release_percentages@,
            release_durations: self.release_durations@,
            min_transfer_balance: self.min_transfer_balance,
            max_transfer_balance: self.max_transfer_balance,
        }
    }
}

impl<Balance: PartialEq> PartialEq for BalanceReleaseSetting<Balance> {
    /// Two settings are equal when all four fields are, the sequences item by
    /// item and in order.
    fn eq(&self, other: &Self) -> (equal: bool) {
        let percentages = self.release_percentages == other.release_percentages;
        let durations = self.release_durations == other.release_durations;
        proof {
            if self.release_percentages.eq_spec(&other.release_percentages) {
                assert(self.release_percentages@ =~= other.release_percentages@);
            }
            if self.release_durations.eq_spec(&other.release_durations) {
                assert(self.release_durations@ =~= other.release_durations@);
            }
        }
        percentages && durations && self.min_transfer_balance == other.min_transfer_balance
            && self.max_transfer_balance == other.max_transfer_balance
    }
}

impl<Balance: PartialEq> vstd::std_specs::cmp::PartialEqSpecImpl for BalanceReleaseSetting<Balance> {
    open spec fn obeys_eq_spec() -> bool {
        Balance::obeys_eq_spec()
    }

    open spec fn eq_spec(&self, other: &Self) -> bool {
        &&& self.release_percentages@ == other.release_percentages@
        &&& self.release_durations@ == other.release_durations@
        &&& PartialEqSpec::eq_spec(&self.min_transfer_balance, &other.min_transfer_balance)
        &&& PartialEqSpec::eq_spec(&self.max_transfer_balance, &other.max_transfer_balance)
    }
}

/// Equality is structural: with balances that compare by value, two settings
/// are `==` exactly when they have the same value, that is, when all four
/// fields are equal, the sequences item by item and in order.
pub proof fn lemma_equality_is_structural(
    a: BalanceReleaseSetting<u128>,
    b: BalanceReleaseSetting<u128>,
)
    ensures
        BalanceReleaseSetting::<u128>::obeys_eq_spec(),
        a.eq_spec(&b) <==> a@ == b@,
{
}

impl<Balance> BalanceReleaseSetting<Balance> {
    /// Builds a setting from its four fields, taken as they are.
    pub fn new(
        release_percentages: Vec<BalanceReleasePercentage>,
        release_durations: Vec<BalanceReleaseDuration>,
        min_transfer_balance: Option<Balance>,
        max_transfer_balance: Option<Balance>,
    ) -> (setting: Self)
        ensures
            setting@ == (ReleasePlan {
                release_percentages: release_percentages@,
                release_durations: release_durations@,
                min_transfer_balance,
                max_transfer_balance,
            }),
    {
        BalanceReleaseSetting {
            release_percentages,
            release_durations,
            min_transfer_balance,
            max_transfer_balance,
        }
    }

    /// The percentages, one per stage, in stage order.
    pub fn release_percentages(&self) -> (percentages: &Vec<BalanceReleasePercentage>)
        ensures
            percentages@ == self@.release_percentages,
    {
        &self.release_percentages
    }

    /// The durations, one per stage, in stage order.
    pub fn release_durations(&self) -> (durations: &Vec<BalanceReleaseDuration>)
        ensures
            durations@ == self@.release_durations,
    {
        &self.release_durations
    }

    /// The lower bound on a transfer, if one is set.
    pub fn min_transfer_balance(&self) -> (bound: &Option<Balance>)
        ensures
            *bound == self@.min_transfer_balance,
    {
        &self.min_transfer_balance
    }

    /// The upper bound on a transfer, if one is set.
    pub fn max_transfer_balance(&self) -> (bound: &Option<Balance>)
        ensures
            *bound == self@.max_transfer_balance,
    {
        &self.max_transfer_balance
    }

    /// The sum of the percentages of all stages.
    pub fn total_release_percentage(&self) -> (total: u128)
        ensures
            total == total_percentage(self@.release_percentages),
    {
        sum_percentages(&self.release_percentages)
    }
}

} // verus!
