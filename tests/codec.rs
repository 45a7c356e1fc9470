use nft_ledger::principal::Principal;
use nft_ledger::token_identifier::{
    decode_own_token_bytes, decode_own_token_id, decode_token_bytes, decode_token_id,
    encode_token_bytes, encode_token_id, CanisterId, DecodeError, TokenIndex,
};
use nft_ledger::types::{pid2aid, User};

fn registry() -> CanisterId {
    CanisterId(Principal::from_slice(&[0, 0, 0, 0, 0, 0x30, 0x00, 0x4e, 0x01, 0x01]))
}

fn other_registry() -> CanisterId {
    CanisterId(Principal::from_slice(&[0, 0, 0, 0, 0, 0x30, 0x00, 0x4f, 0x01, 0x01]))
}

#[test]
fn byte_layout_is_magic_registry_index_check() {
    let b = encode_token_bytes(&registry(), &TokenIndex(0x01020304));
    let mut expected: Vec<u8> = vec![10, 116, 105, 100, 0, 0, 0, 0, 0, 0x30, 0x00, 0x4e, 0x01, 0x01, 1, 2, 3, 4];
    let sum: u32 = expected.iter().map(|x| *x as u32).sum();
    expected.push((sum % 256) as u8);
    assert_eq!(b, expected);
}

#[test]
fn bytes_round_trip() {
    for idx in [0u32, 1, 255, 256, 65_535, 0x8000_0000, u32::MAX] {
        let b = encode_token_bytes(&registry(), &TokenIndex(idx));
        let o = decode_token_bytes(&b).ok().unwrap();
        assert_eq!(o.index.get_value(), idx);
        assert_eq!(o.canister.0.as_slice(), registry().0.as_slice());
    }
}

#[test]
fn empty_registry_round_trips() {
    let empty = CanisterId(Principal::from_slice(&[]));
    let b = encode_token_bytes(&empty, &TokenIndex(7));
    assert_eq!(b.len(), 9);
    let o = decode_token_bytes(&b).ok().unwrap();
    assert_eq!(o.index.0, 7);
    assert_eq!(o.canister.0.len(), 0);
}

#[test]
fn foreign_identifier_is_rejected() {
    let b = encode_token_bytes(&other_registry(), &TokenIndex(5));
    assert!(matches!(decode_own_token_bytes(&registry(), &b), Err(DecodeError::ForeignRegistry)));
    assert_eq!(decode_own_token_bytes(&other_registry(), &b).ok().unwrap().0, 5);
}

#[test]
fn every_flipped_byte_is_rejected() {
    let b = encode_token_bytes(&registry(), &TokenIndex(42));
    for k in 0..b.len() {
        for delta in [1u8, 0x80, 0xff] {
            let mut c = b.clone();
            c[k] = c[k].wrapping_add(delta);
            assert!(decode_token_bytes(&c).is_err(), "byte {} changed by {}", k, delta);
        }
    }
}

#[test]
fn malformed_bytes_give_each_error() {
    assert!(matches!(decode_token_bytes(&vec![10, 116, 105, 100]), Err(DecodeError::TooShort)));
    let mut b = encode_token_bytes(&registry(), &TokenIndex(1));
    b[0] = 11;
    assert!(matches!(decode_token_bytes(&b), Err(DecodeError::BadMagic)));
    let mut b = encode_token_bytes(&registry(), &TokenIndex(1));
    let last = b.len() - 1;
    b[last] = b[last].wrapping_add(1);
    assert!(matches!(decode_token_bytes(&b), Err(DecodeError::BadChecksum)));
    let mut long: Vec<u8> = vec![10, 116, 105, 100];
    long.extend(std::iter::repeat(7u8).take(30));
    long.extend([0, 0, 0, 1]);
    let sum: u32 = long.iter().map(|x| *x as u32).sum();
    long.push((sum % 256) as u8);
    assert!(matches!(decode_token_bytes(&long), Err(DecodeError::RegistryTooLong)));
}

#[test]
fn text_identifier_is_principal_text_of_bytes() {
    let t = encode_token_id(&registry(), &TokenIndex(3));
    let b = encode_token_bytes(&registry(), &TokenIndex(3));
    assert_eq!(t, candid::Principal::from_slice(&b).to_text());
    assert_ne!(t.as_bytes(), &b[..]);
}

#[test]
fn principal_text_reads_back() {
    for bytes in [vec![], vec![4u8], vec![0u8; 29], vec![1, 2, 3, 255]] {
        let t = candid::Principal::from_slice(&bytes).to_text();
        assert_eq!(candid::Principal::from_text(&t).unwrap().as_slice(), &bytes[..]);
    }
}

#[test]
fn text_round_trip() {
    let t = encode_token_id(&registry(), &TokenIndex(77));
    let o = decode_token_id(&t).ok().unwrap();
    assert_eq!(o.index.get_value(), 77);
    assert_eq!(o.canister.0.as_slice(), registry().0.as_slice());
    assert_eq!(decode_own_token_id(&registry(), &t).ok().unwrap().0, 77);
}

#[test]
fn text_of_another_registry_is_rejected() {
    let t = encode_token_id(&other_registry(), &TokenIndex(77));
    assert!(matches!(decode_own_token_id(&registry(), &t), Err(DecodeError::ForeignRegistry)));
}

#[test]
fn garbled_text_is_rejected() {
    assert!(matches!(decode_token_id(&String::from("not a principal")), Err(DecodeError::InvalidText)));
    let t = encode_token_id(&registry(), &TokenIndex(77));
    let mut chars: Vec<char> = t.chars().collect();
    chars[0] = if chars[0] == 'a' { 'b' } else { 'a' };
    let garbled: String = chars.into_iter().collect();
    assert!(decode_token_id(&garbled).is_err());
}

#[test]
fn plain_principal_text_is_not_an_identifier() {
    let t = candid::Principal::from_slice(&[1, 2, 3]).to_text();
    assert!(matches!(decode_token_id(&t), Err(DecodeError::TooShort)));
}

#[test]
fn account_identifier_of_principal() {
    let p = Principal::from_slice(&[9, 8, 7, 6]);
    let a = pid2aid(&p);
    let expected = ic_ledger_types::AccountIdentifier::new(
        &candid::Principal::from_slice(&[9, 8, 7, 6]),
        &ic_ledger_types::Subaccount([0u8; 32]),
    )
    .to_string();
    assert_eq!(a, expected);
    assert_eq!(a.len(), 64);
    assert_eq!(User::aid(User::principal(p)), expected);
    assert_eq!(User::aid(User::address(String::from("abc"))), "abc");
}

#[test]
fn principal_bytes_and_equality() {
    let a = Principal::from_slice(&[1, 2, 3]);
    let b = Principal::from_slice(&[1, 2, 3]);
    let c = Principal::from_slice(&[1, 2, 3, 0]);
    assert!(a == b);
    assert!(a != c);
    assert!(a.same_bytes(&b));
    assert!(!a.same_bytes(&c));
    assert_eq!(c.as_slice(), vec![1, 2, 3, 0]);
    assert_eq!(Principal::anonymous().as_slice(), vec![4]);
    assert_eq!(Principal::from_slice(&[7u8; 29]).len(), 29);
}
