use q_native::addr::Addr;
use q_native::error::TokenError;
use q_native::keys::make_balance_key;
use q_native::store::LedgerStore;
use q_native::token::{
    burn_tokens, mint_tokens, perform_transfer, try_approve, try_transfer, try_transfer_from,
    TokenEvent,
};

fn addr(bytes: &[u8]) -> Addr {
    Addr::canonical(bytes.to_vec()).unwrap()
}

#[test]
fn transfer_full_balance() {
    let mut st = LedgerStore::new();
    let a = addr(b"alice");
    let b = addr(b"bob");
    mint_tokens(&mut st, &a, 100).unwrap();
    let ev = try_transfer(&mut st, &a, &b, 100).unwrap();
    match ev {
        TokenEvent::Transfer { sender, recipient } => {
            assert_eq!(sender.as_bytes(), &b"alice".to_vec());
            assert_eq!(recipient.as_bytes(), &b"bob".to_vec());
        }
        _ => panic!("wrong event"),
    }
    assert_eq!(st.get_balance(&a).unwrap(), 0);
    assert_eq!(st.get_balance(&b).unwrap(), 100);
}

#[test]
fn transfer_insufficient_funds() {
    let mut st = LedgerStore::new();
    let a = addr(b"alice");
    let b = addr(b"bob");
    mint_tokens(&mut st, &a, 50).unwrap();
    let err = try_transfer(&mut st, &a, &b, 100).unwrap_err();
    match err {
        TokenError::InsufficientFunds { account, balance, required } => {
            assert_eq!(account, b"alice".to_vec());
            assert_eq!(balance, 50);
            assert_eq!(required, 100);
        }
        _ => panic!("wrong error"),
    }
    assert_eq!(st.get_balance(&a).unwrap(), 50);
    assert_eq!(st.get_balance(&b).unwrap(), 0);
}

#[test]
fn delegated_transfer_spends_allowance() {
    let mut st = LedgerStore::new();
    let a = addr(b"alice");
    let c = addr(b"carol");
    let d = addr(b"dave");
    try_approve(&mut st, &a, &c, 30).unwrap();
    mint_tokens(&mut st, &a, 100).unwrap();
    let ev = try_transfer_from(&mut st, &c, &a, &d, 30).unwrap();
    match ev {
        TokenEvent::TransferFrom { spender, owner, recipient } => {
            assert_eq!(spender.as_bytes(), &b"carol".to_vec());
            assert_eq!(owner.as_bytes(), &b"alice".to_vec());
            assert_eq!(recipient.as_bytes(), &b"dave".to_vec());
        }
        _ => panic!("wrong event"),
    }
    assert_eq!(st.get_allowance(&a, &c).unwrap(), 0);
    assert_eq!(st.get_balance(&a).unwrap(), 70);
    assert_eq!(st.get_balance(&d).unwrap(), 30);
    let err = try_transfer_from(&mut st, &c, &a, &d, 1).unwrap_err();
    match err {
        TokenError::InsufficientAllowance { allowance, required } => {
            assert_eq!(allowance, 0);
            assert_eq!(required, 1);
        }
        _ => panic!("wrong error"),
    }
}

#[test]
fn mint_then_burn_to_zero() {
    let mut st = LedgerStore::new();
    let a = addr(b"alice");
    mint_tokens(&mut st, &a, 1000).unwrap();
    burn_tokens(&mut st, &a, 1000).unwrap();
    assert_eq!(st.get_balance(&a).unwrap(), 0);
    let err = burn_tokens(&mut st, &a, 1).unwrap_err();
    match err {
        TokenError::ArithmeticUnderflow { balance, amount } => {
            assert_eq!(balance, 0);
            assert_eq!(amount, 1);
        }
        _ => panic!("wrong error"),
    }
    assert_eq!(st.get_balance(&a).unwrap(), 0);
}

#[test]
fn transfer_conserves_total() {
    let mut st = LedgerStore::new();
    let a = addr(b"alice");
    let b = addr(b"bob");
    mint_tokens(&mut st, &a, 60).unwrap();
    mint_tokens(&mut st, &b, 40).unwrap();
    try_transfer(&mut st, &a, &b, 25).unwrap();
    let ba = st.get_balance(&a).unwrap();
    let bb = st.get_balance(&b).unwrap();
    assert_eq!(ba, 35);
    assert_eq!(bb, 65);
    assert_eq!(ba + bb, 100);
}

#[test]
fn failed_delegated_transfer_leaves_allowance() {
    let mut st = LedgerStore::new();
    let a = addr(b"alice");
    let c = addr(b"carol");
    let d = addr(b"dave");
    try_approve(&mut st, &a, &c, 50).unwrap();
    mint_tokens(&mut st, &a, 10).unwrap();
    let err = try_transfer_from(&mut st, &c, &a, &d, 20).unwrap_err();
    assert!(matches!(err, TokenError::InsufficientFunds { .. }));
    assert_eq!(st.get_allowance(&a, &c).unwrap(), 50);
    assert_eq!(st.get_balance(&a).unwrap(), 10);
    assert_eq!(st.get_balance(&d).unwrap(), 0);
}

#[test]
fn approve_is_absolute_not_additive() {
    let mut st = LedgerStore::new();
    let a = addr(b"alice");
    let c = addr(b"carol");
    let ev = try_approve(&mut st, &a, &c, 30).unwrap();
    match ev {
        TokenEvent::Approve { owner, spender } => {
            assert_eq!(owner.as_bytes(), &b"alice".to_vec());
            assert_eq!(spender.as_bytes(), &b"carol".to_vec());
        }
        _ => panic!("wrong event"),
    }
    try_approve(&mut st, &a, &c, 30).unwrap();
    assert_eq!(st.get_allowance(&a, &c).unwrap(), 30);
    try_approve(&mut st, &a, &c, 10).unwrap();
    assert_eq!(st.get_allowance(&a, &c).unwrap(), 10);
    try_approve(&mut st, &a, &c, 0).unwrap();
    assert_eq!(st.get_allowance(&a, &c).unwrap(), 0);
}

#[test]
fn self_transfer_validated_but_no_op() {
    let mut st = LedgerStore::new();
    let a = addr(b"alice");
    mint_tokens(&mut st, &a, 40).unwrap();
    try_transfer(&mut st, &a, &a, 30).unwrap();
    assert_eq!(st.get_balance(&a).unwrap(), 40);
    let err = try_transfer(&mut st, &a, &a, 50).unwrap_err();
    assert!(matches!(err, TokenError::InsufficientFunds { .. }));
    assert_eq!(st.get_balance(&a).unwrap(), 40);
}

#[test]
fn mint_overflow_is_fatal() {
    let mut st = LedgerStore::new();
    let a = addr(b"alice");
    mint_tokens(&mut st, &a, u128::MAX).unwrap();
    let err = mint_tokens(&mut st, &a, 1).unwrap_err();
    match err {
        TokenError::ArithmeticOverflow { balance, amount } => {
            assert_eq!(balance, u128::MAX);
            assert_eq!(amount, 1);
        }
        _ => panic!("wrong error"),
    }
    assert_eq!(st.get_balance(&a).unwrap(), u128::MAX);
}

#[test]
fn transfer_overflow_on_recipient_credit() {
    let mut st = LedgerStore::new();
    let a = addr(b"alice");
    let b = addr(b"bob");
    mint_tokens(&mut st, &a, 5).unwrap();
    mint_tokens(&mut st, &b, u128::MAX - 2).unwrap();
    let err = try_transfer(&mut st, &a, &b, 3).unwrap_err();
    match err {
        TokenError::ArithmeticOverflow { balance, amount } => {
            assert_eq!(balance, u128::MAX - 2);
            assert_eq!(amount, 3);
        }
        _ => panic!("wrong error"),
    }
    assert_eq!(st.get_balance(&a).unwrap(), 5);
    assert_eq!(st.get_balance(&b).unwrap(), u128::MAX - 2);
}

#[test]
fn malformed_stored_value_is_decode_error() {
    let a = addr(b"alice");
    let b = addr(b"bob");
    let key = make_balance_key(&a);
    let mut raw = cosmwasm_std::MemoryStorage::new();
    cosmwasm_std::Storage::set(&mut raw, &key, &[1, 2, 3]);
    let mut st = LedgerStore::from_storage(raw);
    let err = st.get_balance(&a).unwrap_err();
    match err {
        TokenError::Decode { found } => assert_eq!(found, 3),
        _ => panic!("wrong error"),
    }
    let err = try_transfer(&mut st, &a, &b, 1).unwrap_err();
    assert!(matches!(err, TokenError::Decode { found: 3 }));
    assert_eq!(st.get_balance(&b).unwrap(), 0);
}

#[test]
fn canonical_address_bounds() {
    assert!(matches!(
        Addr::canonical(vec![]),
        Err(TokenError::AddressResolution { length: 0 })
    ));
    assert!(matches!(
        Addr::canonical(vec![7u8; 256]),
        Err(TokenError::AddressResolution { length: 256 })
    ));
    let one = Addr::canonical(vec![7u8]).unwrap();
    assert_eq!(one.as_bytes(), &vec![7u8]);
    let long = Addr::canonical(vec![7u8; 255]).unwrap();
    assert_eq!(long.as_bytes().len(), 255);
}

#[test]
fn stored_values_round_trip() {
    let mut st = LedgerStore::new();
    let a = addr(b"alice");
    st.set_balance(&a, 0x0102030405060708090a0b0c0d0e0f10);
    assert_eq!(st.get_balance(&a).unwrap(), 0x0102030405060708090a0b0c0d0e0f10);
    st.set_balance(&a, 0);
    assert_eq!(st.get_balance(&a).unwrap(), 0);
    st.set_balance(&a, u128::MAX);
    assert_eq!(st.get_balance(&a).unwrap(), u128::MAX);
}

#[test]
fn allowance_pairs_are_independent() {
    let mut st = LedgerStore::new();
    let a = addr(b"alice");
    let b = addr(b"bob");
    let c = addr(b"carol");
    let d = addr(b"dave");
    st.set_allowance(&a, &c, 5);
    st.set_allowance(&b, &c, 7);
    st.set_allowance(&a, &d, 9);
    assert_eq!(st.get_allowance(&a, &c).unwrap(), 5);
    assert_eq!(st.get_allowance(&b, &c).unwrap(), 7);
    assert_eq!(st.get_allowance(&a, &d).unwrap(), 9);
    assert_eq!(st.get_balance(&a).unwrap(), 0);
}

#[test]
fn perform_transfer_moves_exactly_the_amount() {
    let mut st = LedgerStore::new();
    let a = addr(b"alice");
    let b = addr(b"bob");
    mint_tokens(&mut st, &a, 30).unwrap();
    perform_transfer(&mut st, &a, &b, 30).unwrap();
    assert_eq!(st.get_balance(&a).unwrap(), 0);
    assert_eq!(st.get_balance(&b).unwrap(), 30);
}

#[test]
fn delegated_self_transfer_still_spends_allowance() {
    let mut st = LedgerStore::new();
    let a = addr(b"alice");
    let c = addr(b"carol");
    try_approve(&mut st, &a, &c, 30).unwrap();
    mint_tokens(&mut st, &a, 100).unwrap();
    try_transfer_from(&mut st, &c, &a, &a, 20).unwrap();
    assert_eq!(st.get_balance(&a).unwrap(), 100);
    assert_eq!(st.get_allowance(&a, &c).unwrap(), 10);
}

#[test]
fn zero_amounts_are_valid() {
    let mut st = LedgerStore::new();
    let a = addr(b"alice");
    let b = addr(b"bob");
    try_transfer(&mut st, &a, &b, 0).unwrap();
    mint_tokens(&mut st, &a, 0).unwrap();
    burn_tokens(&mut st, &a, 0).unwrap();
    assert_eq!(st.get_balance(&a).unwrap(), 0);
    assert_eq!(st.get_balance(&b).unwrap(), 0);
}

#[test]
fn stored_format_is_big_endian_fixed_width() {
    let a = addr(b"alice");
    let key = make_balance_key(&a);
    let mut raw = cosmwasm_std::MemoryStorage::new();
    let mut bytes = [0u8; 16];
    bytes[14] = 1;
    bytes[15] = 2;
    cosmwasm_std::Storage::set(&mut raw, &key, &bytes);
    let st = LedgerStore::from_storage(raw);
    assert_eq!(st.get_balance(&a).unwrap(), 258);
}
