use pool_state::{Key, PackError, PoolAccount, ACCOUNT_LEN};

fn sample_key(seed: u8) -> Key {
    let mut bytes = [0u8; 32];
    for (i, b) in bytes.iter_mut().enumerate() {
        *b = seed.wrapping_mul(13).wrapping_add(i as u8);
    }
    Key::new_from_array(bytes)
}

fn pack_account(a: &PoolAccount) -> Vec<u8> {
    let mut buf = vec![0u8; PoolAccount::LEN];
    a.pack_into_slice(&mut buf);
    buf
}

#[test]
fn account_len_is_40() {
    assert_eq!(PoolAccount::LEN, 40);
    assert_eq!(ACCOUNT_LEN, 40);
    let a = PoolAccount { mint_address: sample_key(1), amount: 77 };
    assert_eq!(pack_account(&a).len(), 40);
}

#[test]
fn account_amount_one_is_little_endian() {
    let m = sample_key(2);
    let a = PoolAccount { mint_address: m, amount: 1 };
    let mut expected = m.to_bytes().to_vec();
    expected.extend_from_slice(&[0x01, 0, 0, 0, 0, 0, 0, 0]);
    assert_eq!(pack_account(&a), expected);
}

#[test]
fn account_amount_256_is_little_endian() {
    let m = sample_key(3);
    let a = PoolAccount { mint_address: m, amount: 256 };
    let mut expected = m.to_bytes().to_vec();
    expected.extend_from_slice(&[0x00, 0x01, 0, 0, 0, 0, 0, 0]);
    assert_eq!(pack_account(&a), expected);
}

#[test]
fn account_amount_mixed_bytes() {
    let a = PoolAccount { mint_address: sample_key(4), amount: 0x0102_0304_0506_0708 };
    let packed = pack_account(&a);
    assert_eq!(&packed[32..], &[0x08, 0x07, 0x06, 0x05, 0x04, 0x03, 0x02, 0x01]);
}

#[test]
fn account_round_trip_extremes() {
    for amount in [0u64, 1, 256, u64::MAX, 1_000_000_007] {
        let a = PoolAccount { mint_address: sample_key(5), amount };
        assert_eq!(PoolAccount::unpack_from_slice(&pack_account(&a)).unwrap(), a);
    }
}

#[test]
fn account_decode_short_input_fails() {
    let buf = [0xFFu8; 39];
    assert_eq!(PoolAccount::unpack_from_slice(&buf), Err(PackError::InvalidAccountData));
    assert_eq!(PoolAccount::unpack_from_slice(&buf[..33]), Err(PackError::InvalidAccountData));
}

#[test]
fn account_decode_ignores_trailing_bytes() {
    let mut buf = [0x55u8; 50];
    buf[32..40].copy_from_slice(&[0x10, 0x27, 0, 0, 0, 0, 0, 0]);
    let a = PoolAccount::unpack_from_slice(&buf).unwrap();
    assert_eq!(a.amount, 10_000);
    assert_eq!(&a.mint_address.to_bytes()[..], &buf[..32]);
    assert_eq!(a, PoolAccount::unpack_from_slice(&buf[..40]).unwrap());
}

#[test]
fn account_pack_leaves_trailing_bytes() {
    let a = PoolAccount { mint_address: sample_key(6), amount: u64::MAX };
    let mut buf = vec![0x33u8; 42];
    a.pack_into_slice(&mut buf);
    assert_eq!(&buf[32..40], &[0xFF; 8]);
    assert_eq!(&buf[40..], &[0x33, 0x33]);
}
