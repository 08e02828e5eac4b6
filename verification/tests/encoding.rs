use parity_scale_codec::{Decode, DecodeAll, Encode};
use private_sales::{BalanceBytes, BalanceReleaseSetting};

type Fields = (Vec<u8>, Vec<u64>, Option<u128>, Option<u128>);

fn setting(fields: &Fields) -> BalanceReleaseSetting<u128> {
    BalanceReleaseSetting::new(fields.0.clone(), fields.1.clone(), fields.2, fields.3)
}

fn fields(setting: &BalanceReleaseSetting<u128>) -> Fields {
    (
        setting.release_percentages().clone(),
        setting.release_durations().clone(),
        *setting.min_transfer_balance(),
        *setting.max_transfer_balance(),
    )
}

fn samples() -> Vec<Fields> {
    vec![
        (vec![], vec![], None, None),
        (vec![100], vec![0], None, None),
        (vec![25, 25, 25, 25], vec![0, 1000, 2000, 3000], None, None),
        (vec![60, 40], vec![u64::MAX, 1], Some(0), None),
        (vec![60, 40], vec![7], None, Some(u128::MAX)),
        (vec![1, 2, 3], vec![], Some(1_000_000_000_000), Some(5)),
        (vec![0; 63], vec![9; 63], Some(1), Some(2)),
        (vec![1; 64], vec![3; 64], None, None),
        (vec![2; 16383], vec![0x0102_0304_0506_0708; 2], None, Some(77)),
        (vec![3; 16384], vec![5; 16384], Some(8), None),
        (vec![4; 70000], vec![], None, None),
    ]
}

#[test]
fn four_quarters_encode_to_known_bytes() {
    let plan = BalanceReleaseSetting::<u128>::new(
        vec![25, 25, 25, 25],
        vec![0, 1000, 2000, 3000],
        None,
        None,
    );
    let mut expected: Vec<u8> = vec![0x10, 25, 25, 25, 25, 0x10];
    expected.extend_from_slice(&[0, 0, 0, 0, 0, 0, 0, 0]);
    expected.extend_from_slice(&[0xe8, 0x03, 0, 0, 0, 0, 0, 0]);
    expected.extend_from_slice(&[0xd0, 0x07, 0, 0, 0, 0, 0, 0]);
    expected.extend_from_slice(&[0xb8, 0x0b, 0, 0, 0, 0, 0, 0]);
    expected.extend_from_slice(&[0, 0]);
    assert_eq!(plan.encode(), expected);
    assert_eq!(BalanceReleaseSetting::<u128>::decode(&expected), Some(plan));
}

#[test]
fn empty_setting_encodes_to_four_bytes() {
    let plan = BalanceReleaseSetting::<u128>::new(vec![], vec![], None, None);
    assert_eq!(plan.encode(), vec![0, 0, 0, 0]);
    assert_eq!(BalanceReleaseSetting::<u128>::decode(&[0, 0, 0, 0]), Some(plan));
}

#[test]
fn bounds_encode_with_a_tag() {
    let plan = BalanceReleaseSetting::<u128>::new(vec![100], vec![], Some(0x0102), None);
    let mut expected: Vec<u8> = vec![0x04, 100, 0x00, 0x01, 0x02, 0x01];
    expected.extend_from_slice(&[0; 14]);
    expected.push(0x00);
    assert_eq!(plan.encode(), expected);
    let both = BalanceReleaseSetting::<u128>::new(vec![], vec![], Some(1), Some(u128::MAX));
    let mut expected: Vec<u8> = vec![0, 0, 1, 1];
    expected.extend_from_slice(&[0; 15]);
    expected.push(1);
    expected.extend_from_slice(&[0xff; 16]);
    assert_eq!(both.encode(), expected);
}

#[test]
fn length_prefix_is_the_shortest_for_its_length() {
    let encode = |count: usize| {
        BalanceReleaseSetting::<u128>::new(vec![0; count], vec![], None, None).encode()
    };
    assert_eq!(encode(0)[..1], [0x00]);
    assert_eq!(encode(1)[..1], [0x04]);
    assert_eq!(encode(63)[..1], [0xfc]);
    assert_eq!(encode(63).len(), 1 + 63 + 3);
    assert_eq!(encode(64)[..2], [0x01, 0x01]);
    assert_eq!(encode(64).len(), 2 + 64 + 3);
    assert_eq!(encode(16383)[..2], [0xfd, 0xff]);
    assert_eq!(encode(16383).len(), 2 + 16383 + 3);
    assert_eq!(encode(16384)[..4], [0x02, 0x00, 0x01, 0x00]);
    assert_eq!(encode(16384).len(), 4 + 16384 + 3);
    assert_eq!(encode(70000)[..4], [0xc2, 0x45, 0x04, 0x00]);
}

#[test]
fn decoding_an_encoding_gives_the_setting_back() {
    for sample in samples() {
        let plan = setting(&sample);
        let bytes = plan.encode();
        assert_eq!(BalanceReleaseSetting::<u128>::decode(&bytes), Some(plan));
    }
}

#[test]
fn encoding_a_decoded_setting_gives_the_bytes_back() {
    for sample in samples() {
        let bytes = sample.encode();
        let decoded = BalanceReleaseSetting::<u128>::decode(&bytes).expect("a valid encoding");
        assert_eq!(decoded.encode(), bytes);
    }
}

#[test]
fn encoding_agrees_with_the_codec() {
    for sample in samples() {
        assert_eq!(setting(&sample).encode(), sample.encode());
    }
}

#[test]
fn decoding_agrees_with_the_codec_on_encodings() {
    for sample in samples() {
        let bytes = sample.encode();
        let ours = BalanceReleaseSetting::<u128>::decode(&bytes).map(|s| fields(&s));
        assert_eq!(ours, Some(sample));
    }
}

#[test]
fn missing_bytes_are_rejected() {
    let bytes = BalanceReleaseSetting::<u128>::new(
        vec![60, 40],
        vec![1, 2],
        Some(3),
        Some(4),
    )
    .encode();
    for cut in 0..bytes.len() {
        assert_eq!(BalanceReleaseSetting::<u128>::decode(&bytes[..cut]), None);
    }
    assert!(BalanceReleaseSetting::<u128>::decode(&bytes).is_some());
}

#[test]
fn left_over_bytes_are_rejected() {
    let mut bytes = BalanceReleaseSetting::<u128>::new(vec![100], vec![5], None, None).encode();
    bytes.push(0);
    assert_eq!(BalanceReleaseSetting::<u128>::decode(&bytes), None);
}

#[test]
fn unknown_bound_tag_is_rejected() {
    assert_eq!(BalanceReleaseSetting::<u128>::decode(&[0, 0, 2, 0]), None);
    assert_eq!(BalanceReleaseSetting::<u128>::decode(&[0, 0, 0, 2]), None);
    assert_eq!(BalanceReleaseSetting::<u128>::decode(&[0, 0, 0, 0xff]), None);
}

#[test]
fn overlong_length_prefix_is_rejected() {
    // Length zero written in two, four and five bytes.
    assert_eq!(BalanceReleaseSetting::<u128>::decode(&[0x01, 0x00, 0, 0, 0]), None);
    assert_eq!(BalanceReleaseSetting::<u128>::decode(&[0x02, 0, 0, 0, 0, 0, 0]), None);
    assert_eq!(BalanceReleaseSetting::<u128>::decode(&[0x03, 0, 0, 0, 0, 0, 0, 0]), None);
    // A five-byte prefix whose first byte announces more than four bytes.
    assert_eq!(BalanceReleaseSetting::<u128>::decode(&[0x07, 0, 0, 0, 0x40, 0, 0, 0]), None);
    // The same in the durations' prefix.
    assert_eq!(BalanceReleaseSetting::<u128>::decode(&[0, 0x01, 0x00, 0, 0]), None);
}

#[test]
fn announced_items_must_be_there() {
    // 2^30 percentages announced, none given.
    assert_eq!(BalanceReleaseSetting::<u128>::decode(&[0x03, 0, 0, 0, 0x40, 0, 0, 0]), None);
    // Two durations announced, one given.
    assert_eq!(
        BalanceReleaseSetting::<u128>::decode(&[0, 0x08, 1, 0, 0, 0, 0, 0, 0, 0, 0, 0]),
        None
    );
    assert_eq!(BalanceReleaseSetting::<u128>::decode(&[]), None);
}

fn fields_of<B: Copy>(setting: &BalanceReleaseSetting<B>) -> (Vec<u8>, Vec<u64>, Option<B>, Option<B>) {
    (
        setting.release_percentages().clone(),
        setting.release_durations().clone(),
        *setting.min_transfer_balance(),
        *setting.max_transfer_balance(),
    )
}

fn compare_with_the_codec_on_arbitrary_bytes<B>(rounds: u32, longest: u64) -> u32
where
    B: BalanceBytes + Decode + Copy + PartialEq + std::fmt::Debug,
{
    let palette: [u8; 12] = [0, 0, 0, 1, 1, 2, 3, 4, 7, 8, 0x40, 0xff];
    let mut state: u64 = 0x2545_f491_4f6c_dd1d;
    let mut accepted: u32 = 0;
    for _ in 0..rounds {
        let mut next = || {
            state ^= state << 13;
            state ^= state >> 7;
            state ^= state << 17;
            state
        };
        let len = (next() % longest) as usize;
        let mut bytes: Vec<u8> = Vec::with_capacity(len);
        for _ in 0..len {
            bytes.push(palette[(next() % 12) as usize]);
        }
        let ours = BalanceReleaseSetting::<B>::decode(&bytes).map(|s| fields_of(&s));
        let theirs =
            <(Vec<u8>, Vec<u64>, Option<B>, Option<B>)>::decode_all(&mut &bytes[..]).ok();
        assert_eq!(ours, theirs);
        if let Some(found) = ours {
            let again = BalanceReleaseSetting::new(found.0, found.1, found.2, found.3);
            assert_eq!(again.encode(), bytes);
            accepted += 1;
        }
    }
    accepted
}

#[test]
fn decoding_agrees_with_the_codec_on_arbitrary_bytes() {
    assert!(compare_with_the_codec_on_arbitrary_bytes::<u128>(40_000, 24) > 0);
}

#[test]
fn decoding_agrees_with_the_codec_for_narrower_balances() {
    assert!(compare_with_the_codec_on_arbitrary_bytes::<u64>(40_000, 20) > 0);
    assert!(compare_with_the_codec_on_arbitrary_bytes::<u32>(40_000, 16) > 0);
}

#[test]
fn narrower_balances_take_their_own_width() {
    let plan = BalanceReleaseSetting::<u64>::new(vec![100], vec![], Some(0x0102), None);
    assert_eq!(
        plan.encode(),
        vec![0x04, 100, 0x00, 0x01, 0x02, 0x01, 0, 0, 0, 0, 0, 0, 0x00]
    );
    assert_eq!(plan.encode(), (vec![100u8], Vec::<u64>::new(), Some(0x0102u64), None::<u64>).encode());
    assert_eq!(BalanceReleaseSetting::<u64>::decode(&plan.encode()), Some(plan));
    let plan = BalanceReleaseSetting::<u32>::new(vec![], vec![9], None, Some(7));
    assert_eq!(
        plan.encode(),
        vec![0x00, 0x04, 9, 0, 0, 0, 0, 0, 0, 0, 0x00, 0x01, 7, 0, 0, 0]
    );
    assert_eq!(plan.encode(), (Vec::<u8>::new(), vec![9u64], None::<u32>, Some(7u32)).encode());
    assert_eq!(BalanceReleaseSetting::<u32>::decode(&plan.encode()), Some(plan));
    // Bytes of a 128-bit bound are too many for a 64-bit one.
    let wide = BalanceReleaseSetting::<u128>::new(vec![], vec![], Some(1), None).encode();
    assert_eq!(BalanceReleaseSetting::<u64>::decode(&wide), None);
}

#[test]
fn settings_of_ordinary_size_can_be_encoded() {
    for sample in samples() {
        assert!(setting(&sample).can_encode());
    }
}
