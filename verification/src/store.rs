//! The ledger store: balances and allowances as fixed-width values in a
//! key-value store. The store itself is cosmwasm's in-memory backend,
//! reached through a handful of trusted wrappers; everything layered on
//! top of those wrappers is verified against the map of raw entries that
//! `store_map` names.

use vstd::prelude::*;
use cosmwasm_std::MemoryStorage;
use crate::addr::Addr;
use crate::codec::{be_val, decode_u128, encode_u128, VALUE_WIDTH};
use crate::error::TokenError;
use crate::keys::{allowance_key, balance_key, make_allowance_key, make_balance_key};

verus! {

#[verifier::external_type_specification]
#[verifier::external_body]
pub struct ExMemoryStorage(MemoryStorage);

/// The entries a storage backend holds, as a map from key to stored bytes.
pub uninterp spec fn store_map(s: MemoryStorage) -> Map<Seq<u8>, Seq<u8>>;

/// Relies on MemoryStorage::new (cosmwasm-std): a fresh store holds no
/// entries, so every get on it returns None.
#[verifier::external_body]
fn storage_new() -> (r: MemoryStorage)
    ensures
        store_map(r) =~= Map::empty(),
{
    cosmwasm_std::MemoryStorage::new()
}

/// Relies on Storage::get for MemoryStorage (cosmwasm-std): returns a copy
/// of the bytes stored under the key, or None when the key is absent.
#[verifier::external_body]
fn storage_get(s: &MemoryStorage, key: &Vec<u8>) -> (r: Option<Vec<u8>>)
    ensures
        (match r {
            Some(v) => store_map(*s).dom().contains(key@) && store_map(*s)[key@] == v@,
            None => !store_map(*s).dom().contains(key@),
        }),
{
    cosmwasm_std::Storage::get(s, key.as_slice())
}

/// Relies on Storage::set for MemoryStorage (cosmwasm-std): overwrites the
/// entry under the key. It panics on an empty value, which the
/// precondition rules out; every other write succeeds.
#[verifier::external_body]
fn storage_set(s: &mut MemoryStorage, key: &Vec<u8>, value: &Vec<u8>)
    requires
        value@.len() > 0,
    ensures
        store_map(*final(s)) == store_map(*old(s)).insert(key@, value@),
{
    cosmwasm_std::Storage::set(s, key.as_slice(), value.as_slice())
}

/// The entry under `k` decodes to the fixed width (an absent entry reads
/// as zero and is fine).
pub open spec fn entry_ok(m: Map<Seq<u8>, Seq<u8>>, k: Seq<u8>) -> bool {
    m.dom().contains(k) ==> m[k].len() == VALUE_WIDTH
}

/// The value the entry under `k` denotes; an absent entry denotes zero.
pub open spec fn entry_val(m: Map<Seq<u8>, Seq<u8>>, k: Seq<u8>) -> int {
    if m.dom().contains(k) {
        be_val(m[k])
    } else {
        0
    }
}

/// The stored width of the entry under `k`; zero when absent.
pub open spec fn entry_len(m: Map<Seq<u8>, Seq<u8>>, k: Seq<u8>) -> int {
    if m.dom().contains(k) {
        m[k].len() as int
    } else {
        0
    }
}

/// `m1` is `m0` with the entry under `k` set to a well-formed encoding of
/// `v`, and nothing else touched.
pub open spec fn updated(
    m0: Map<Seq<u8>, Seq<u8>>,
    m1: Map<Seq<u8>, Seq<u8>>,
    k: Seq<u8>,
    v: int,
) -> bool {
    &&& m1.dom() =~= m0.dom().insert(k)
    &&& m1[k].len() == VALUE_WIDTH
    &&& be_val(m1[k]) == v
    &&& forall|k2: Seq<u8>| #![auto]
        k2 != k && m0.dom().contains(k2) ==> m1[k2] == m0[k2]
}

/// `account`'s balance in the raw map (absent reads as zero).
pub open spec fn balance_of(m: Map<Seq<u8>, Seq<u8>>, account: Seq<u8>) -> int {
    entry_val(m, balance_key(account))
}

/// `account`'s balance entry has the fixed width.
pub open spec fn balance_ok(m: Map<Seq<u8>, Seq<u8>>, account: Seq<u8>) -> bool {
    entry_ok(m, balance_key(account))
}

/// The (owner, spender) allowance in the raw map (absent reads as zero).
pub open spec fn allowance_of(m: Map<Seq<u8>, Seq<u8>>, owner: Seq<u8>, spender: Seq<u8>) -> int {
    entry_val(m, allowance_key(owner, spender))
}

/// The (owner, spender) allowance entry has the fixed width.
pub open spec fn allowance_ok(m: Map<Seq<u8>, Seq<u8>>, owner: Seq<u8>, spender: Seq<u8>) -> bool {
    entry_ok(m, allowance_key(owner, spender))
}

/// Durable balance and allowance storage with a fixed decode/encode
/// contract. Viewed as the map of raw entries it holds.
pub struct LedgerStore {
    store: MemoryStorage,
}

impl View for LedgerStore {
    type V = Map<Seq<u8>, Seq<u8>>;

    closed spec fn view(&self) -> Map<Seq<u8>, Seq<u8>> {
        store_map(self.store)
    }
}

impl LedgerStore {
    /// An empty ledger store.
    pub fn new() -> (r: LedgerStore)
        ensures
            r@ =~= Map::empty(),
    {
        LedgerStore { store: storage_new() }
    }

    /// Wraps an existing storage backend, whatever it holds.
    pub fn from_storage(store: MemoryStorage) -> (r: LedgerStore)
        ensures
            r@ == store_map(store),
    {
        LedgerStore { store }
    }

    /// Reads one fixed-width entry. An absent entry is zero; a present
    /// entry of any other width is a decode failure.
    fn read_entry(&self, key: &Vec<u8>) -> (r: Result<u128, TokenError>)
        ensures
            (match r {
                Ok(v) => entry_ok(self@, key@) && v == entry_val(self@, key@),
                Err(e) => {
                    &&& !entry_ok(self@, key@)
                    &&& e == (TokenError::Decode { found: entry_len(self@, key@) as usize })
                },
            }),
    {
        match storage_get(&self.store, key) {
            None => Ok(0),
            Some(bytes) => {
                if bytes.len() == VALUE_WIDTH {
                    Ok(decode_u128(&bytes))
                } else {
                    Err(TokenError::Decode { found: bytes.len() })
                }
            },
        }
    }

    /// `account`'s balance; zero when no entry exists. Fails only when the
    /// stored entry is not exactly the fixed width.
    pub fn get_balance(&self, account: &Addr) -> (r: Result<u128, TokenError>)
        ensures
            (match r {
                Ok(v) => balance_ok(self@, account@) && v == balance_of(self@, account@),
                Err(e) => {
                    &&& !balance_ok(self@, account@)
                    &&& e == (TokenError::Decode {
                        found: entry_len(self@, balance_key(account@)) as usize,
                    })
                },
            }),
    {
        let key = make_balance_key(account);
        self.read_entry(&key)
    }

    /// Overwrites `account`'s balance unconditionally; the value itself is
    /// validated by the engine, not here.
    pub fn set_balance(&mut self, account: &Addr, value: u128)
        ensures
            updated(old(self)@, final(self)@, balance_key(account@), value as int),
    {
        let key = make_balance_key(account);
        let bytes = encode_u128(value);
        storage_set(&mut self.store, &key, &bytes);
    }

    /// The (owner, spender) allowance; zero when no entry exists. Fails
    /// only when the stored entry is not exactly the fixed width.
    pub fn get_allowance(&self, owner: &Addr, spender: &Addr) -> (r: Result<u128, TokenError>)
        ensures
            (match r {
                Ok(v) => allowance_ok(self@, owner@, spender@) && v == allowance_of(
                    self@,
                    owner@,
                    spender@,
                ),
                Err(e) => {
                    &&& !allowance_ok(self@, owner@, spender@)
                    &&& e == (TokenError::Decode {
                        found: entry_len(self@, allowance_key(owner@, spender@)) as usize,
                    })
                },
            }),
    {
        let key = make_allowance_key(owner, spender);
        self.read_entry(&key)
    }

    /// Overwrites the (owner, spender) allowance unconditionally.
    pub fn set_allowance(&mut self, owner: &Addr, spender: &Addr, value: u128)
        ensures
            updated(old(self)@, final(self)@, allowance_key(owner@, spender@), value as int),
    {
        let key = make_allowance_key(owner, spender);
        let bytes = encode_u128(value);
        storage_set(&mut self.store, &key, &bytes);
    }
}

} // verus!
