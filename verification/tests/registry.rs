use private_sales::{
    authorize_round, ensure_signed, BalanceReleaseSetting, DispatchError, Error, Event, Origin,
    Pallet,
};

fn quarters() -> (Vec<u8>, Vec<u64>) {
    (vec![25, 25, 25, 25], vec![0, 1000, 2000, 3000])
}

#[test]
fn privileged_caller_creates_round() {
    let mut pallet: Pallet<u128> = Pallet::new();
    let (percentages, durations) = quarters();
    let result = pallet.force_create_round(true, 1, percentages.clone(), durations.clone(), None, None);
    assert_eq!(result, Ok(()));
    let expected = BalanceReleaseSetting::new(percentages, durations, None, None);
    assert_eq!(pallet.round(1), Some(&expected));
    assert_eq!(pallet.round_count(), 1);
    assert_eq!(pallet.events(), &vec![Event::RoundCreated(1)]);
    assert_eq!(pallet.round(2), None);
}

#[test]
fn total_of_ninety_is_rejected() {
    let mut pallet: Pallet<u128> = Pallet::new();
    let result = pallet.force_create_round(true, 1, vec![50, 40], vec![0, 1000], None, None);
    assert_eq!(
        result,
        Err(DispatchError::Module(Error::InvalidTotalBalanceReleasePercentage))
    );
    assert_eq!(pallet.round(1), None);
    assert_eq!(pallet.round_count(), 0);
    assert!(pallet.events().is_empty());
}

#[test]
fn unprivileged_caller_is_rejected() {
    let mut pallet: Pallet<u128> = Pallet::new();
    let (percentages, durations) = quarters();
    let result = pallet.force_create_round(false, 1, percentages, durations, None, None);
    assert_eq!(result, Err(DispatchError::BadOrigin));
    assert_eq!(pallet.round(1), None);
    assert_eq!(pallet.round_count(), 0);
    assert!(pallet.events().is_empty());
}

#[test]
fn unprivileged_caller_leaves_existing_rounds_alone() {
    let mut pallet: Pallet<u128> = Pallet::new();
    let (percentages, durations) = quarters();
    assert_eq!(
        pallet.force_create_round(true, 7, percentages.clone(), durations.clone(), Some(5), None),
        Ok(())
    );
    let result = pallet.force_create_round(false, 7, vec![100], vec![0], None, None);
    assert_eq!(result, Err(DispatchError::BadOrigin));
    let expected = BalanceReleaseSetting::new(percentages, durations, Some(5), None);
    assert_eq!(pallet.round(7), Some(&expected));
    assert_eq!(pallet.events(), &vec![Event::RoundCreated(7)]);
}

#[test]
fn privilege_is_tested_before_the_schedule() {
    let mut pallet: Pallet<u128> = Pallet::new();
    let result = pallet.force_create_round(false, 1, vec![50, 40], vec![0, 1000], None, None);
    assert_eq!(result, Err(DispatchError::BadOrigin));
    assert_eq!(authorize_round(false, &vec![50, 40]), Err(DispatchError::BadOrigin));
    assert_eq!(authorize_round(false, &vec![100]), Err(DispatchError::BadOrigin));
}

#[test]
fn creating_a_round_again_overwrites() {
    let mut pallet: Pallet<u128> = Pallet::new();
    let (percentages, durations) = quarters();
    assert_eq!(pallet.force_create_round(true, 1, percentages, durations, None, None), Ok(()));
    assert_eq!(
        pallet.force_create_round(true, 1, vec![60, 40], vec![10, 20], Some(1), Some(9)),
        Ok(())
    );
    let second = BalanceReleaseSetting::new(vec![60, 40], vec![10, 20], Some(1), Some(9));
    assert_eq!(pallet.round(1), Some(&second));
    assert_eq!(pallet.round_count(), 1);
    assert_eq!(
        pallet.events(),
        &vec![Event::RoundCreated(1), Event::RoundCreated(1)]
    );
}

#[test]
fn creating_the_same_round_twice_stores_the_same_bytes() {
    let mut pallet: Pallet<u128> = Pallet::new();
    let (percentages, durations) = quarters();
    assert_eq!(
        pallet.force_create_round(true, 3, percentages.clone(), durations.clone(), Some(2), Some(8)),
        Ok(())
    );
    let once = pallet.round(3).map(|setting| setting.encode());
    assert_eq!(
        pallet.force_create_round(true, 3, percentages, durations, Some(2), Some(8)),
        Ok(())
    );
    let twice = pallet.round(3).map(|setting| setting.encode());
    assert!(once.is_some());
    assert_eq!(once, twice);
    assert_eq!(pallet.round_count(), 1);
}

#[test]
fn rounds_are_kept_apart() {
    let mut pallet: Pallet<u128> = Pallet::new();
    assert_eq!(pallet.force_create_round(true, 1, vec![100], vec![0], None, None), Ok(()));
    assert_eq!(pallet.force_create_round(true, 2, vec![30, 70], vec![5, 6], None, Some(4)), Ok(()));
    assert_eq!(pallet.round_count(), 2);
    assert_eq!(pallet.round(1), Some(&BalanceReleaseSetting::new(vec![100], vec![0], None, None)));
    assert_eq!(
        pallet.round(2),
        Some(&BalanceReleaseSetting::new(vec![30, 70], vec![5, 6], None, Some(4)))
    );
    assert_eq!(
        pallet.events(),
        &vec![Event::RoundCreated(1), Event::RoundCreated(2)]
    );
}

#[test]
fn only_a_total_of_exactly_hundred_is_accepted() {
    let invalid = Err(DispatchError::Module(Error::InvalidTotalBalanceReleasePercentage));
    assert_eq!(authorize_round(true, &vec![100]), Ok(()));
    assert_eq!(authorize_round(true, &vec![25, 25, 25, 25]), Ok(()));
    assert_eq!(authorize_round(true, &vec![0, 100, 0]), Ok(()));
    assert_eq!(authorize_round(true, &vec![99]), invalid);
    assert_eq!(authorize_round(true, &vec![101]), invalid);
    assert_eq!(authorize_round(true, &vec![50, 40]), invalid);
    assert_eq!(authorize_round(true, &vec![]), invalid);
    assert_eq!(authorize_round(true, &vec![0]), invalid);
}

#[test]
fn a_total_that_wraps_to_hundred_is_rejected() {
    // 200 + 156 = 356, which is 100 modulo 256.
    let invalid = Err(DispatchError::Module(Error::InvalidTotalBalanceReleasePercentage));
    assert_eq!(authorize_round(true, &vec![200, 156]), invalid);
    let mut pallet: Pallet<u128> = Pallet::new();
    assert_eq!(
        pallet.force_create_round(true, 1, vec![200, 156], vec![0, 1], None, None),
        invalid
    );
    assert_eq!(pallet.round_count(), 0);
}

#[test]
fn lengths_and_bounds_are_stored_as_given() {
    let mut pallet: Pallet<u128> = Pallet::new();
    assert_eq!(
        pallet.force_create_round(true, 9, vec![40, 60], vec![1, 2, 3], Some(10), Some(3)),
        Ok(())
    );
    let stored = pallet.round(9).expect("the round was created");
    assert_eq!(stored.release_percentages(), &vec![40, 60]);
    assert_eq!(stored.release_durations(), &vec![1, 2, 3]);
    assert_eq!(stored.min_transfer_balance(), &Some(10));
    assert_eq!(stored.max_transfer_balance(), &Some(3));
    assert_eq!(stored.total_release_percentage(), 100);
}

#[test]
fn total_release_percentage_is_exact() {
    let setting: BalanceReleaseSetting<u128> =
        BalanceReleaseSetting::new(vec![255, 255, 255], vec![], None, None);
    assert_eq!(setting.total_release_percentage(), 765);
    let empty: BalanceReleaseSetting<u128> = BalanceReleaseSetting::new(vec![], vec![], None, None);
    assert_eq!(empty.total_release_percentage(), 0);
}

#[test]
fn settings_compare_field_by_field() {
    let a: BalanceReleaseSetting<u128> = BalanceReleaseSetting::new(vec![60, 40], vec![1, 2], None, Some(1));
    assert_eq!(a, BalanceReleaseSetting::new(vec![60, 40], vec![1, 2], None, Some(1)));
    assert_ne!(a, BalanceReleaseSetting::new(vec![40, 60], vec![1, 2], None, Some(1)));
    assert_ne!(a, BalanceReleaseSetting::new(vec![60, 40], vec![2, 1], None, Some(1)));
    assert_ne!(a, BalanceReleaseSetting::new(vec![60, 40], vec![1, 2], Some(1), Some(1)));
    assert_ne!(a, BalanceReleaseSetting::new(vec![60, 40], vec![1, 2], None, None));
    assert_eq!(a.clone(), a);
    assert!(format!("{:?}", a).contains("release_percentages"));
}

#[test]
fn new_state_is_empty() {
    let pallet: Pallet<u64> = Pallet::new();
    assert_eq!(pallet.something(), None);
    assert_eq!(pallet.round_count(), 0);
    assert!(pallet.events().is_empty());
}

#[test]
fn signed_call_stores_a_number() {
    let mut pallet: Pallet<u128> = Pallet::new();
    assert_eq!(pallet.do_something(Origin::Signed(11), 42), Ok(()));
    assert_eq!(pallet.something(), Some(42));
    assert_eq!(pallet.events(), &vec![Event::SomethingStored(42, 11)]);
}

#[test]
fn unsigned_call_stores_nothing() {
    let mut pallet: Pallet<u128> = Pallet::new();
    assert_eq!(pallet.do_something(Origin::Unsigned, 42), Err(DispatchError::BadOrigin));
    assert_eq!(pallet.do_something(Origin::Root, 42), Err(DispatchError::BadOrigin));
    assert_eq!(pallet.something(), None);
    assert!(pallet.events().is_empty());
}

#[test]
fn increment_needs_a_stored_number() {
    let mut pallet: Pallet<u128> = Pallet::new();
    assert_eq!(
        pallet.cause_error(Origin::Signed(1)),
        Err(DispatchError::Module(Error::NoneValue))
    );
    assert_eq!(pallet.cause_error(Origin::Root), Err(DispatchError::BadOrigin));
    assert_eq!(pallet.something(), None);
}

#[test]
fn increment_adds_one() {
    let mut pallet: Pallet<u128> = Pallet::new();
    assert_eq!(pallet.do_something(Origin::Signed(1), 41), Ok(()));
    assert_eq!(pallet.cause_error(Origin::Signed(2)), Ok(()));
    assert_eq!(pallet.something(), Some(42));
    assert_eq!(pallet.events(), &vec![Event::SomethingStored(41, 1)]);
}

#[test]
fn increment_stops_at_the_largest_number() {
    let mut pallet: Pallet<u128> = Pallet::new();
    assert_eq!(pallet.do_something(Origin::Signed(1), u32::MAX), Ok(()));
    assert_eq!(
        pallet.cause_error(Origin::Signed(1)),
        Err(DispatchError::Module(Error::StorageOverflow))
    );
    assert_eq!(pallet.something(), Some(u32::MAX));
}

#[test]
fn only_a_signed_origin_has_a_signer() {
    assert_eq!(ensure_signed(Origin::Signed(5)), Ok(5));
    assert_eq!(ensure_signed(Origin::Root), Err(DispatchError::BadOrigin));
    assert_eq!(ensure_signed(Origin::Unsigned), Err(DispatchError::BadOrigin));
}

#[test]
fn stored_number_is_incremented_by_one() {
    assert_eq!(private_sales::increment_stored(None), Err(Error::NoneValue));
    assert_eq!(private_sales::increment_stored(Some(0)), Ok(1));
    assert_eq!(private_sales::increment_stored(Some(u32::MAX - 1)), Ok(u32::MAX));
    assert_eq!(private_sales::increment_stored(Some(u32::MAX)), Err(Error::StorageOverflow));
}
