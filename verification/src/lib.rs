//! Staged token release schedules for private sale rounds.
//!
//! A privileged authority registers, for a round identifier, a release
//! schedule: stages of (percentage, duration) pairs with optional transfer
//! bounds. The schedule model lives in [`types`], its canonical byte encoding
//! in [`scale`] (with length prefixes in [`compact`] and balances in
//! [`balance`]), and the round registry with its creation protocol in
//! [`pallet`].

pub mod balance;
pub mod compact;
pub mod pallet;
pub mod scale;
pub mod types;

pub use balance::BalanceBytes;
pub use pallet::{
    authorize_round, ensure_signed, increment_stored, DispatchError, Error, Event, Origin, Pallet,
    PalletState,
};
pub use types::{
    AccountId, BalanceReleaseDuration, BalanceReleasePercentage, BalanceReleaseSetting,
    ReleasePlan, RoundId,
};
