use meme_icrc::numbers::{nat_to_u128, nat_to_u64, Nat};

fn digits(digits: &[u32]) -> Nat {
    Nat { digits: digits.to_vec() }
}

#[test]
fn numbers_that_fit_in_u64() {
    assert_eq!(nat_to_u64(digits(&[])), Ok(0));
    assert_eq!(nat_to_u64(digits(&[5, 0, 0, 0, 0, 0])), Ok(5));
    assert_eq!(nat_to_u64(digits(&[1, 2])), Ok(8_589_934_593));
    assert_eq!(nat_to_u64(digits(&[u32::MAX, u32::MAX])), Ok(u64::MAX));
}

#[test]
fn numbers_too_large_for_u64() {
    let error = Err("Nat does not fit in u64".to_string());
    assert_eq!(nat_to_u64(digits(&[0, 0, 1])), error);
    assert_eq!(nat_to_u64(digits(&[0, 0, 0, 0, 0, 1])), error);
}

#[test]
fn numbers_that_fit_in_u128() {
    assert_eq!(nat_to_u128(digits(&[0, 0, 1])), Ok(1 << 64));
    assert_eq!(nat_to_u128(digits(&[u32::MAX; 4])), Ok(u128::MAX));
}

#[test]
fn numbers_too_large_for_u128() {
    let error = Err("Nat does not fit in u128".to_string());
    assert_eq!(nat_to_u128(digits(&[0, 0, 0, 0, 1])), error);
    assert_eq!(nat_to_u128(digits(&[u32::MAX; 7])), error);
}

#[test]
fn round_trip() {
    for value in [0, 1, 0xffff_ffff, 0x1_0000_0000, 123_456_789_012_345, u64::MAX] {
        assert_eq!(nat_to_u64(Nat::from_u64(value)), Ok(value));
        assert_eq!(nat_to_u128(Nat::from_u64(value).duplicate()), Ok(value as u128));
    }
}
