use borsh::BorshSerialize;

use multisig::codec::{
    read_bool_at, read_le_at, read_pubkey_at, read_pubkeys_at, read_u128_at, read_u32_at,
    read_u64_at, write_bools, write_bytes, write_le, write_pubkey, write_pubkeys, write_u128,
    write_u32, write_u64,
};
use multisig::Pubkey;

#[test]
fn integers_are_little_endian_as_borsh_writes_them() {
    let mut out = Vec::new();
    write_u32(&mut out, 0x0102_0304);
    assert_eq!(out, 0x0102_0304u32.try_to_vec().unwrap());
    let mut out = Vec::new();
    write_u64(&mut out, 0x1122_3344_5566_7788);
    assert_eq!(out, 0x1122_3344_5566_7788u64.try_to_vec().unwrap());
    let mut out = Vec::new();
    write_u128(&mut out, u128::MAX - 5);
    assert_eq!(out, (u128::MAX - 5).try_to_vec().unwrap());
    assert_eq!(out, (u128::MAX - 5).to_le_bytes().to_vec());
}

#[test]
fn write_le_keeps_the_low_bytes() {
    let mut out = vec![9u8];
    write_le(&mut out, 0x0102_0304, 2);
    assert_eq!(out, vec![9, 0x04, 0x03]);
}

#[test]
fn integers_read_back() {
    let mut out = vec![0xAA];
    write_u64(&mut out, 42);
    write_u128(&mut out, 7 << 100);
    write_u32(&mut out, u32::MAX);
    assert_eq!(read_u64_at(&out, 1), Some((42, 9)));
    assert_eq!(read_u128_at(&out, 9), Some((7 << 100, 25)));
    assert_eq!(read_u32_at(&out, 25), Some((u32::MAX, 29)));
    assert_eq!(read_u32_at(&out, 26), None);
    assert_eq!(read_le_at(&out, 0, 1), Some((0xAA, 1)));
    assert_eq!(read_le_at(&out, 29, 0), Some((0, 29)));
    assert_eq!(read_le_at(&out, 30, 0), None);
}

#[test]
fn bools_are_one_byte_zero_or_one() {
    let mut out = Vec::new();
    write_bools(&mut out, &vec![true, false, true]);
    assert_eq!(out, vec![true, false, true].try_to_vec().unwrap());
    assert_eq!(read_bool_at(&[1], 0), Some((true, 1)));
    assert_eq!(read_bool_at(&[0], 0), Some((false, 1)));
    assert_eq!(read_bool_at(&[2], 0), None);
    assert_eq!(read_bool_at(&[], 0), None);
}

#[test]
fn byte_lists_are_length_then_bytes() {
    let mut out = Vec::new();
    write_bytes(&mut out, &vec![5, 6, 7]);
    assert_eq!(out, vec![3, 0, 0, 0, 5, 6, 7]);
    assert_eq!(out, vec![5u8, 6, 7].try_to_vec().unwrap());
}

#[test]
fn addresses_are_their_bytes() {
    let k = Pubkey::new_from_array([3; 32]);
    let mut out = Vec::new();
    write_pubkey(&mut out, &k);
    assert_eq!(out, vec![3u8; 32]);
    let (back, next) = read_pubkey_at(&out, 0).unwrap();
    assert_eq!(back, k);
    assert_eq!(next, 32);
    assert_eq!(read_pubkey_at(&out, 1), None);
}

#[test]
fn address_lists_read_back() {
    let keys = vec![Pubkey::new_from_array([1; 32]), Pubkey::new_from_array([2; 32])];
    let mut out = Vec::new();
    write_pubkeys(&mut out, &keys);
    let arrays: Vec<[u8; 32]> = keys.iter().map(|k| k.bytes).collect();
    assert_eq!(out, arrays.try_to_vec().unwrap());
    assert_eq!(read_pubkeys_at(&out, 0), Some((keys, 68)));
    assert_eq!(read_pubkeys_at(&out[..67], 0), None);
}
