//! The round registry and the privileged operation that fills it.
//!
//! The ledger state is an explicit value, [`Pallet`]: the registry of release
//! schedules keyed by round, a stored number, and the log of events. Every
//! operation is a step from one state to the next that either takes full
//! effect or leaves the state as it was.

use crate::balance::BalanceBytes;
use crate::scale::encoding;
use crate::types::{
    fully_allocated, sum_percentages, AccountId, BalanceReleaseDuration,
    BalanceReleasePercentage, BalanceReleaseSetting, ReleasePlan, RoundId,
};
use std::collections::HashMap;
use vstd::prelude::*;

verus! {

/// Who sent a call.
#[derive(Clone, Copy, Debug, PartialEq, Eq, Structural)]
pub enum Origin {
    /// The chain's governing authority.
    Root,
    /// An ordinary account that signed the call.
    Signed(AccountId),
    /// Nobody: the call carries no signature.
    Unsigned,
}

/// What the operations report to outside subscribers.
#[derive(Clone, Copy, Debug, PartialEq, Eq, Structural)]
pub enum Event {
    /// A number was stored by an account. [something, who]
    SomethingStored(u32, AccountId),
    /// A private sale round was created. [round_id]
    RoundCreated(RoundId),
}

/// The failures that belong to this module.
#[derive(Clone, Copy, Debug, PartialEq, Eq, Structural)]
pub enum Error {
    /// No number has been stored yet.
    NoneValue,
    /// The stored number cannot be incremented.
    StorageOverflow,
    /// The release percentages do not add up to 100.
    InvalidTotalBalanceReleasePercentage,
}

/// Why a call was turned down.
#[derive(Clone, Copy, Debug, PartialEq, Eq, Structural)]
pub enum DispatchError {
    /// The caller lacks the privilege that the call requires.
    BadOrigin,
    /// The call broke one of this module's rules.
    Module(Error),
}

/// The mathematical value of the ledger state.
pub struct PalletState<Balance> {
    /// The stored number, if any.
    pub something: Option<u32>,
    /// The registry: the schedule of each round that was created.
    pub rounds: Map<RoundId, ReleasePlan<Balance>>,
    /// The events emitted so far, oldest first.
    pub events: Seq<Event>,
}

/// The account that signed a call, or the refusal of a call that none signed.
pub open spec fn signer_of(origin: Origin) -> Result<AccountId, DispatchError> {
    match origin {
        Origin::Signed(who) => Ok(who),
        _ => Err(DispatchError::BadOrigin),
    }
}

/// The answer to a request to create a round. The privilege is tested first,
/// the schedule second.
pub open spec fn create_round_result(privileged: bool, percentages: Seq<u8>) -> Result<
    (),
    DispatchError,
> {
    if !privileged {
        Err(DispatchError::BadOrigin)
    } else if !fully_allocated(percentages) {
        Err(DispatchError::Module(Error::InvalidTotalBalanceReleasePercentage))
    } else {
        Ok(())
    }
}

/// The state after a request to create a round. An accepted request writes
/// the plan at `round_id`, in place of whatever stood there, and appends one
/// event; a rejected one changes nothing.
pub open spec fn create_round_state<Balance>(
    before: PalletState<Balance>,
    privileged: bool,
    round_id: RoundId,
    plan: ReleasePlan<Balance>,
) -> PalletState<Balance> {
    if create_round_result(privileged, plan.release_percentages) is Ok {
        PalletState {
            something: before.something,
            rounds: before.rounds.insert(round_id, plan),
            events: before.events.push(Event::RoundCreated(round_id)),
        }
    } else {
        before
    }
}

/// Every schedule in the registry is fully allocated.
pub open spec fn registry_valid<Balance>(rounds: Map<RoundId, ReleasePlan<Balance>>) -> bool {
    forall|round_id: RoundId| #[trigger]
        rounds.contains_key(round_id) ==> fully_allocated(rounds[round_id].release_percentages)
}

/// Decides whether a round may be created: whether the caller is privileged
/// and the percentages add up to 100, in that order. It reads nothing but its
/// arguments, so a host that keeps the registry elsewhere can ask it before it
/// writes.
pub fn authorize_round(privileged: bool, percentages: &Vec<BalanceReleasePercentage>) -> (result:
    Result<(), DispatchError>)
    ensures
        result == create_round_result(privileged, percentages@),
{
    if !privileged {
        return Err(DispatchError::BadOrigin);
    }
    let total_percentage = sum_percentages(percentages);
    if total_percentage != 100 {
        return Err(DispatchError::Module(Error::InvalidTotalBalanceReleasePercentage));
    }
    Ok(())
}

/// The account that signed a call; a call that no account signed is turned
/// down.
pub fn ensure_signed(origin: Origin) -> (result: Result<AccountId, DispatchError>)
    ensures
        result == signer_of(origin),
{
    match origin {
        Origin::Signed(who) => Ok(who),
        _ => Err(DispatchError::BadOrigin),
    }
}

/// The number that follows the stored one, or the reason why there is none.
pub open spec fn incremented(stored: Option<u32>) -> Result<u32, Error> {
    match stored {
        None => Err(Error::NoneValue),
        Some(number) => if number == u32::MAX {
            Err(Error::StorageOverflow)
        } else {
            Ok((number + 1) as u32)
        },
    }
}

/// Increments the stored number. Fails when no number is stored, and when the
/// stored number is the largest there is.
pub fn increment_stored(stored: Option<u32>) -> (result: Result<u32, Error>)
    ensures
        result == incremented(stored),
{
    match stored {
        None => Err(Error::NoneValue),
        Some(number) => {
            if number == u32::MAX {
                Err(Error::StorageOverflow)
            } else {
                Ok(number + 1)
            }
        },
    }
}

/// The ledger state that the operations work on.
pub struct Pallet<Balance> {
    something: Option<u32>,
    rounds: HashMap<RoundId, BalanceReleaseSetting<Balance>>,
    events: Vec<Event>,
}

impl<Balance> View for Pallet<Balance> {
    type V = PalletState<Balance>;

    closed spec fn view(&self) -> PalletState<Balance> {
        PalletState {
            something: self.something,
            rounds: Map::new(
                |round_id: RoundId| self.rounds@.contains_key(round_id),
                |round_id: RoundId| self.rounds@[round_id]@,
            ),
            events: self.events@,
        }
    }
}

impl<Balance> Pallet<Balance> {
    /// The invariant of the state: the registry holds accepted schedules only.
    pub open spec fn inv(&self) -> bool {
        registry_valid(self@.rounds)
    }

    /// The state at genesis: no number, no round, no event.
    pub fn new() -> (pallet: Self)
        ensures
            pallet.inv(),
            pallet@.something is None,
            pallet@.rounds == Map::<RoundId, ReleasePlan<Balance>>::empty(),
            pallet@.events == Seq::<Event>::empty(),
    {
        let pallet = Pallet { something: None, rounds: HashMap::new(), events: Vec::new() };
        proof {
            broadcast use vstd::std_specs::hash::group_hash_axioms;

            assert(pallet@.rounds =~= Map::<RoundId, ReleasePlan<Balance>>::empty());
        }
        pallet
    }

    /// Stores a number on behalf of the account that signed the call, and
    /// reports it. A call that no account signed is turned down.
    pub fn do_something(&mut self, origin: Origin, something: u32) -> (result: Result<
        (),
        DispatchError,
    >)
        ensures
            old(self).inv() ==> final(self).inv(),
            match signer_of(origin) {
                Ok(who) => result == Ok::<(), DispatchError>(()) && final(self)@ == (PalletState {
                    something: Some(something),
                    rounds: old(self)@.rounds,
                    events: old(self)@.events.push(Event::SomethingStored(something, who)),
                }),
                Err(e) => result == Err::<(), DispatchError>(e) && final(self)@ == old(self)@,
            },
    {
        match ensure_signed(origin) {
            Ok(who) => {
                self.something = Some(something);
                self.events.push(Event::SomethingStored(something, who));
                proof {
                    assert(final(self)@.rounds =~= old(self)@.rounds);
                }
                Ok(())
            },
            Err(refusal) => Err(refusal),
        }
    }

    /// Increments the stored number on behalf of a signed call. Fails when no
    /// account signed the call, when no number is stored, and when the stored
    /// number is the largest there is; a failed call changes nothing.
    pub fn cause_error(&mut self, origin: Origin) -> (result: Result<(), DispatchError>)
        ensures
            old(self).inv() ==> final(self).inv(),
            final(self)@.rounds == old(self)@.rounds,
            final(self)@.events == old(self)@.events,
            match (signer_of(origin), incremented(old(self)@.something)) {
                (Err(refusal), _) => result == Err::<(), DispatchError>(refusal) && final(self)@
                    == old(self)@,
                (Ok(_), Err(failure)) => result == Err::<(), DispatchError>(
                    DispatchError::Module(failure),
                ) && final(self)@ == old(self)@,
                (Ok(_), Ok(number)) => {
                    &&& result == Ok::<(), DispatchError>(())
                    &&& final(self)@.something == Some(number)
                },
            },
    {
        match ensure_signed(origin) {
            Ok(_) => {},
            Err(refusal) => {
                return Err(refusal);
            },
        }
        match increment_stored(self.something) {
            Ok(number) => {
                self.something = Some(number);
                proof {
                    assert(final(self)@.rounds =~= old(self)@.rounds);
                }
                Ok(())
            },
            Err(failure) => Err(DispatchError::Module(failure)),
        }
    }

    /// Creates the release schedule of a round.
    ///
    /// `privileged` is the verdict of the host's privileged-origin check on
    /// the caller. An unprivileged call is turned down before anything else is
    /// looked at. A privileged one is accepted exactly when the percentages
    /// add up to 100; the schedule is then stored at `round_id`, replacing a
    /// schedule that was stored there before, and one `RoundCreated` event is
    /// emitted. A call that is turned down changes nothing.
    pub fn force_create_round(
        &mut self,
        privileged: bool,
        round_id: RoundId,
        balance_release_percentages: Vec<BalanceReleasePercentage>,
        balance_release_durations: Vec<BalanceReleaseDuration>,
        min_transfer_balance: Option<Balance>,
        max_transfer_balance: Option<Balance>,
    ) -> (result: Result<(), DispatchError>)
        ensures
            old(self).inv() ==> final(self).inv(),
            result == create_round_result(privileged, balance_release_percentages@),
            final(self)@ == create_round_state(
                old(self)@,
                privileged,
                round_id,
                (ReleasePlan {
                    release_percentages: balance_release_percentages@,
                    release_durations: balance_release_durations@,
                    min_transfer_balance,
                    max_transfer_balance,
                }),
            ),
    {
        match authorize_round(privileged, &balance_release_percentages) {
            Ok(()) => {},
            Err(refusal) => {
                return Err(refusal);
            },
        }
        let balance_release_setting = BalanceReleaseSetting::new(
            balance_release_percentages,
            balance_release_durations,
            min_transfer_balance,
            max_transfer_balance,
        );
        proof {
            broadcast use vstd::std_specs::hash::group_hash_axioms;

        }
        self.rounds.insert(round_id, balance_release_setting);
        self.events.push(Event::RoundCreated(round_id));
        proof {
            assert(final(self)@.rounds =~= old(self)@.rounds.insert(
                round_id,
                balance_release_setting@,
            ));
        }
        Ok(())
    }

    /// The schedule of a round, if the round was created.
    pub fn round(&self, round_id: RoundId) -> (setting: Option<&BalanceReleaseSetting<Balance>>)
        ensures
            match setting {
                Some(found) => self@.rounds.contains_key(round_id) && found@
                    == self@.rounds[round_id],
                None => !self@.rounds.contains_key(round_id),
            },
    {
        proof {
            broadcast use vstd::std_specs::hash::group_hash_axioms;

        }
        self.rounds.get(&round_id)
    }

    /// The number of rounds in the registry.
    pub fn round_count(&self) -> (count: usize)
        ensures
            self@.rounds.dom().finite(),
            count == self@.rounds.dom().len(),
    {
        proof {
            broadcast use vstd::std_specs::hash::group_hash_axioms;

            assert(self@.rounds.dom() =~= self.rounds@.dom());
        }
        self.rounds.len()
    }

    /// The stored number, if any.
    pub fn something(&self) -> (stored: Option<u32>)
        ensures
            stored == self@.something,
    {
        self.something
    }

    /// The events emitted so far, oldest first.
    pub fn events(&self) -> (log: &Vec<Event>)
        ensures
            log@ == self@.events,
    {
        &self.events
    }
}

/// A call by an unprivileged caller never changes the registry and never
/// emits an event: it leaves the whole state as it was, whatever the
/// schedule.
pub proof fn lemma_unprivileged_call_changes_nothing<Balance>(
    before: PalletState<Balance>,
    round_id: RoundId,
    plan: ReleasePlan<Balance>,
)
    ensures
        create_round_result(false, plan.release_percentages) == Err::<(), DispatchError>(
            DispatchError::BadOrigin,
        ),
        create_round_state(before, false, round_id, plan) == before,
{
}

/// A rejected call, for whatever reason, leaves the state as it was.
pub proof fn lemma_rejected_call_changes_nothing<Balance>(
    before: PalletState<Balance>,
    privileged: bool,
    round_id: RoundId,
    plan: ReleasePlan<Balance>,
)
    requires
        create_round_result(privileged, plan.release_percentages) is Err,
    ensures
        create_round_state(before, privileged, round_id, plan) == before,
{
}

/// A schedule is accepted exactly when the caller is privileged and the
/// percentages add up to 100, and an accepted call keeps the registry valid:
/// every schedule in it adds up to 100.
pub proof fn lemma_accepted_schedules_total_hundred<Balance>(
    before: PalletState<Balance>,
    privileged: bool,
    round_id: RoundId,
    plan: ReleasePlan<Balance>,
)
    requires
        registry_valid(before.rounds),
    ensures
        create_round_result(privileged, plan.release_percentages) is Ok <==> privileged
            && crate::types::total_percentage(plan.release_percentages) == 100,
        registry_valid(create_round_state(before, privileged, round_id, plan).rounds),
{
}

/// Creating a round twice with the same schedule stores what creating it once
/// stores: the registry has the same keys and the same values, so it neither
/// grows nor holds a duplicate. Each accepted call still emits its own event.
pub proof fn lemma_create_round_idempotent<Balance>(
    before: PalletState<Balance>,
    round_id: RoundId,
    plan: ReleasePlan<Balance>,
)
    requires
        fully_allocated(plan.release_percentages),
    ensures
        ({
            let once = create_round_state(before, true, round_id, plan);
            let twice = create_round_state(once, true, round_id, plan);
            &&& twice.rounds == once.rounds
            &&& twice.rounds.dom() == once.rounds.dom()
            &&& twice.rounds[round_id] == plan
            &&& twice.something == once.something
            &&& twice.events == once.events.push(Event::RoundCreated(round_id))
        }),
{
    let once = create_round_state(before, true, round_id, plan);
    let twice = create_round_state(once, true, round_id, plan);
    assert(twice.rounds =~= once.rounds);
}

/// Creating a round twice with the same schedule stores the same bytes: the
/// stored schedule has one encoding, and it is the encoding of the schedule
/// that was given.
pub proof fn lemma_recreated_round_has_same_bytes<Balance: BalanceBytes>(
    before: PalletState<Balance>,
    round_id: RoundId,
    plan: ReleasePlan<Balance>,
)
    requires
        fully_allocated(plan.release_percentages),
    ensures
        ({
            let once = create_round_state(before, true, round_id, plan);
            let twice = create_round_state(once, true, round_id, plan);
            &&& encoding(twice.rounds[round_id]) == encoding(once.rounds[round_id])
            &&& encoding(twice.rounds[round_id]) == encoding(plan)
        }),
{
}

/// Creating a round again with another schedule overwrites: the registry is
/// what it would be had only the second schedule been created, and holds the
/// second schedule at the round.
pub proof fn lemma_create_round_overwrites<Balance>(
    before: PalletState<Balance>,
    round_id: RoundId,
    first: ReleasePlan<Balance>,
    second: ReleasePlan<Balance>,
)
    requires
        fully_allocated(first.release_percentages),
        fully_allocated(second.release_percentages),
    ensures
        ({
            let after_first = create_round_state(before, true, round_id, first);
            let after_second = create_round_state(after_first, true, round_id, second);
            &&& after_second.rounds == create_round_state(before, true, round_id, second).rounds
            &&& after_second.rounds[round_id] == second
        }),
{
    let after_first = create_round_state(before, true, round_id, first);
    let after_second = create_round_state(after_first, true, round_id, second);
    assert(after_second.rounds =~= create_round_state(before, true, round_id, second).rounds);
}

/// A call to create a round touches no other round, removes none, and only
/// ever appends to the event log: a round that is present stays present, and
/// the events emitted before the call are still there, in order, after it.
pub proof fn lemma_create_round_frame<Balance>(
    before: PalletState<Balance>,
    privileged: bool,
    round_id: RoundId,
    plan: ReleasePlan<Balance>,
)
    ensures
        ({
            let after = create_round_state(before, privileged, round_id, plan);
            &&& after.something == before.something
            &&& before.rounds.dom().subset_of(after.rounds.dom())
            &&& forall|other: RoundId|
                other != round_id ==> (after.rounds.contains_key(other)
                    <==> #[trigger] before.rounds.contains_key(other))
            &&& forall|other: RoundId|
                other != round_id && #[trigger] before.rounds.contains_key(other)
                    ==> after.rounds[other] == before.rounds[other]
            &&& before.events.is_prefix_of(after.events)
            &&& after.events.len() <= before.events.len() + 1
        }),
{
}

} // verus!
