//! Structured storage keys. The ledger lays two logical tables over one
//! key-value store: balances, keyed by account, and allowances, keyed by
//! the (owner, spender) pair. A one-byte tag separates the tables, and the
//! owner's length byte frames the pair, so distinct logical keys never
//! collide as byte strings.

use vstd::prelude::*;
use crate::addr::Addr;

verus! {

/// Tag byte that opens every balance key.
pub const BALANCE_PREFIX: u8 = 0;

/// Tag byte that opens every allowance key.
pub const ALLOWANCE_PREFIX: u8 = 1;

/// The storage key under which `account`'s balance lives.
pub open spec fn balance_key(account: Seq<u8>) -> Seq<u8> {
    seq![BALANCE_PREFIX] + account
}

/// The storage key under which the (owner, spender) allowance lives. The
/// owner's length byte makes the pair unambiguous.
pub open spec fn allowance_key(owner: Seq<u8>, spender: Seq<u8>) -> Seq<u8> {
    seq![ALLOWANCE_PREFIX, owner.len() as u8] + owner + spender
}

/// Distinct accounts get distinct balance keys.
pub proof fn lemma_balance_key_injective(a: Seq<u8>, b: Seq<u8>)
    ensures
        (balance_key(a) == balance_key(b)) <==> (a == b),
{
    if balance_key(a) == balance_key(b) {
        assert(a =~= balance_key(a).skip(1));
        assert(b =~= balance_key(b).skip(1));
    }
}

/// Distinct (owner, spender) pairs whose owners fit the length byte get
/// distinct allowance keys.
pub proof fn lemma_allowance_key_injective(o1: Seq<u8>, s1: Seq<u8>, o2: Seq<u8>, s2: Seq<u8>)
    requires
        o1.len() <= 255,
        o2.len() <= 255,
    ensures
        (allowance_key(o1, s1) == allowance_key(o2, s2)) <==> (o1 == o2 && s1 == s2),
{
    if allowance_key(o1, s1) == allowance_key(o2, s2) {
        assert(allowance_key(o1, s1)[1] == o1.len() as u8);
        assert(allowance_key(o2, s2)[1] == o2.len() as u8);
        assert(o1.len() == o2.len());
        assert(o1 =~= allowance_key(o1, s1).subrange(2, 2 + o1.len() as int));
        assert(o2 =~= allowance_key(o2, s2).subrange(2, 2 + o2.len() as int));
        assert(s1 =~= allowance_key(o1, s1).skip(2 + o1.len() as int));
        assert(s2 =~= allowance_key(o2, s2).skip(2 + o2.len() as int));
    }
}

/// A balance key is never an allowance key: the tag bytes differ.
pub proof fn lemma_key_tables_disjoint(a: Seq<u8>, o: Seq<u8>, s: Seq<u8>)
    ensures
        balance_key(a) != allowance_key(o, s),
{
    assert(balance_key(a)[0] != allowance_key(o, s)[0]);
}

/// Builds the balance key for `account`.
pub fn make_balance_key(account: &Addr) -> (r: Vec<u8>)
    ensures
        r@ == balance_key(account@),
{
    let mut out: Vec<u8> = Vec::new();
    out.push(BALANCE_PREFIX);
    let src = account.as_bytes();
    let mut i: usize = 0;
    while i < src.len()
        invariant
            i <= src@.len(),
            src@ == account@,
            out@ == seq![BALANCE_PREFIX] + account@.take(i as int),
        decreases src@.len() - i,
    {
        out.push(src[i]);
        proof {
            assert(out@ =~= seq![BALANCE_PREFIX] + account@.take(i + 1 as int));
        }
        i += 1;
    }
    proof {
        assert(account@.take(account@.len() as int) =~= account@);
    }
    out
}

/// Builds the allowance key for the (owner, spender) pair.
pub fn make_allowance_key(owner: &Addr, spender: &Addr) -> (r: Vec<u8>)
    ensures
        r@ == allowance_key(owner@, spender@),
{
    let mut out: Vec<u8> = Vec::new();
    out.push(ALLOWANCE_PREFIX);
    let o = owner.as_bytes();
    out.push(o.len() as u8);
    let mut i: usize = 0;
    while i < o.len()
        invariant
            i <= o@.len(),
            o@ == owner@,
            out@ == seq![ALLOWANCE_PREFIX, owner@.len() as u8] + owner@.take(i as int),
        decreases o@.len() - i,
    {
        out.push(o[i]);
        proof {
            assert(out@ =~= seq![ALLOWANCE_PREFIX, owner@.len() as u8] + owner@.take(i + 1 as int));
        }
        i += 1;
    }
    proof {
        assert(owner@.take(owner@.len() as int) =~= owner@);
    }
    let s = spender.as_bytes();
    let mut j: usize = 0;
    while j < s.len()
        invariant
            j <= s@.len(),
            s@ == spender@,
            out@ == seq![ALLOWANCE_PREFIX, owner@.len() as u8] + owner@ + spender@.take(j as int),
        decreases s@.len() - j,
    {
        out.push(s[j]);
        proof {
            assert(out@ =~= seq![ALLOWANCE_PREFIX, owner@.len() as u8] + owner@ + spender@.take(
                j + 1 as int));
        }
        j += 1;
    }
    proof {
        assert(spender@.take(spender@.len() as int) =~= spender@);
        assert(out@ =~= allowance_key(owner@, spender@));
    }
    out
}

} // verus!
