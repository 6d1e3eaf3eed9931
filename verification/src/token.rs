//! The transfer engine: transfer, delegated transfer, approve, mint and
//! burn as atomic read-modify-write sequences over the ledger store. Every
//! operation validates before it writes; an operation that fails has
//! written nothing. The caller's identity (sender, spender, owner) is
//! taken as already authenticated upstream.

use vstd::prelude::*;
use crate::addr::Addr;
use crate::error::TokenError;
use crate::keys::{
    allowance_key, balance_key, lemma_balance_key_injective, lemma_key_tables_disjoint,
};
use crate::store::{
    allowance_of, allowance_ok, balance_of, balance_ok, entry_len, LedgerStore,
};

verus! {

/// The structured record a successful operation emits for the external
/// event collaborator; observability only, no control flow.
#[derive(Debug)]
pub enum TokenEvent {
    Transfer { sender: Addr, recipient: Addr },
    TransferFrom { spender: Addr, owner: Addr, recipient: Addr },
    Approve { owner: Addr, spender: Addr },
}

impl TokenEvent {
    /// This record reports a direct transfer from `s` to `r`.
    pub open spec fn is_transfer(self, s: Seq<u8>, r: Seq<u8>) -> bool {
        match self {
            TokenEvent::Transfer { sender, recipient } => sender@ == s && recipient@ == r,
            _ => false,
        }
    }

    /// This record reports a delegated transfer by `sp` out of `o`'s
    /// balance to `r`.
    pub open spec fn is_transfer_from(self, sp: Seq<u8>, o: Seq<u8>, r: Seq<u8>) -> bool {
        match self {
            TokenEvent::TransferFrom { spender, owner, recipient } => {
                spender@ == sp && owner@ == o && recipient@ == r
            },
            _ => false,
        }
    }

    /// This record reports an approval by `o` for `sp`.
    pub open spec fn is_approve(self, o: Seq<u8>, sp: Seq<u8>) -> bool {
        match self {
            TokenEvent::Approve { owner, spender } => owner@ == o && spender@ == sp,
            _ => false,
        }
    }
}

/// The conditions under which moving `amt` from `s` to `r` is refused.
pub open spec fn transfer_fails(m: Map<Seq<u8>, Seq<u8>>, s: Seq<u8>, r: Seq<u8>, amt: u128) -> bool {
    ||| !balance_ok(m, s)
    ||| balance_of(m, s) < amt
    ||| (s != r && !balance_ok(m, r))
    ||| (s != r && balance_of(m, r) + amt > u128::MAX)
}

/// Exactly which error a refused move of `amt` from `s` to `r` reports:
/// the sender's entry is checked first, then sufficiency, then the
/// recipient's entry, then overflow.
pub open spec fn transfer_err(
    m: Map<Seq<u8>, Seq<u8>>,
    s: Seq<u8>,
    r: Seq<u8>,
    amt: u128,
    e: TokenError,
) -> bool {
    if !balance_ok(m, s) {
        e == (TokenError::Decode { found: entry_len(m, balance_key(s)) as usize })
    } else if balance_of(m, s) < amt {
        e.is_insufficient_funds(s, balance_of(m, s), amt as int)
    } else if !balance_ok(m, r) {
        e == (TokenError::Decode { found: entry_len(m, balance_key(r)) as usize })
    } else {
        e.is_overflow(balance_of(m, r), amt as int)
    }
}

/// What a successful move of `amt` from `s` to `r` did: both balances were
/// well-formed and sufficient; `amt` moved from `s` to `r`; no other entry
/// was touched. A self-transfer is validated but changes nothing.
pub open spec fn transfer_post(
    m0: Map<Seq<u8>, Seq<u8>>,
    m1: Map<Seq<u8>, Seq<u8>>,
    s: Seq<u8>,
    r: Seq<u8>,
    amt: u128,
) -> bool {
    &&& balance_ok(m0, s)
    &&& amt <= balance_of(m0, s)
    &&& if s == r {
        m1 == m0
    } else {
        &&& balance_ok(m0, r)
        &&& balance_of(m0, r) + amt <= u128::MAX
        &&& balance_ok(m1, s)
        &&& balance_ok(m1, r)
        &&& balance_of(m1, s) == balance_of(m0, s) - amt
        &&& balance_of(m1, r) == balance_of(m0, r) + amt
        &&& m1.dom() =~= m0.dom().insert(balance_key(s)).insert(balance_key(r))
        &&& forall|k: Seq<u8>| #![auto]
            m0.dom().contains(k) && k != balance_key(s) && k != balance_key(r) ==> m1[k] == m0[k]
    }
}

/// Moves `amount` from `from` to `to`: validates both balance entries and
/// the arithmetic, then commits both writes, or commits nothing at all.
pub fn perform_transfer(store: &mut LedgerStore, from: &Addr, to: &Addr, amount: u128) -> (r:
    Result<(), TokenError>)
    ensures
        (match r {
            Ok(_) => transfer_post(old(store)@, final(store)@, from@, to@, amount),
            Err(e) => {
                &&& final(store)@ == old(store)@
                &&& transfer_fails(old(store)@, from@, to@, amount)
                &&& transfer_err(old(store)@, from@, to@, amount, e)
            },
        }),
{
    let from_balance = match store.get_balance(from) {
        Ok(v) => v,
        Err(e) => {
            return Err(e);
        },
    };
    if from_balance < amount {
        return Err(TokenError::InsufficientFunds {
            account: from.to_bytes(),
            balance: from_balance,
            required: amount,
        });
    }
    if from.same(to) {
        return Ok(());
    }
    let to_balance = match store.get_balance(to) {
        Ok(v) => v,
        Err(e) => {
            return Err(e);
        },
    };
    if amount > u128::MAX - to_balance {
        return Err(TokenError::ArithmeticOverflow { balance: to_balance, amount });
    }
    let ghost m0 = store@;
    store.set_balance(from, from_balance - amount);
    let ghost mid = store@;
    store.set_balance(to, to_balance + amount);
    proof {
        lemma_balance_key_injective(from@, to@);
        let bkf = balance_key(from@);
        let bkt = balance_key(to@);
        assert(mid.dom().contains(bkf));
        assert(store@[bkf] == mid[bkf]);
        assert(balance_of(store@, from@) == from_balance - amount);
        assert(balance_of(store@, to@) == to_balance + amount);
        assert(store@.dom() =~= m0.dom().insert(bkf).insert(bkt));
        assert forall|k: Seq<u8>|
            m0.dom().contains(k) && k != bkf && k != bkt implies store@[k] == m0[k] by {
            assert(mid[k] == m0[k]);
            assert(mid.dom().contains(k));
            assert(store@[k] == mid[k]);
        }
    }
    Ok(())
}

/// Direct transfer: `sender` (the authenticated caller) moves `amount` to
/// `recipient`, and the emitted record names them both.
pub fn try_transfer(store: &mut LedgerStore, sender: &Addr, recipient: &Addr, amount: u128) -> (r:
    Result<TokenEvent, TokenError>)
    ensures
        (match r {
            Ok(ev) => {
                &&& transfer_post(old(store)@, final(store)@, sender@, recipient@, amount)
                &&& ev.is_transfer(sender@, recipient@)
            },
            Err(e) => {
                &&& final(store)@ == old(store)@
                &&& transfer_fails(old(store)@, sender@, recipient@, amount)
                &&& transfer_err(old(store)@, sender@, recipient@, amount, e)
            },
        }),
{
    match perform_transfer(store, sender, recipient, amount) {
        Err(e) => Err(e),
        Ok(_) => Ok(TokenEvent::Transfer {
            sender: sender.duplicate(),
            recipient: recipient.duplicate(),
        }),
    }
}

/// The conditions under which a delegated transfer is refused: everything
/// a direct move refuses, plus a missing or insufficient allowance.
pub open spec fn delegated_fails(
    m: Map<Seq<u8>, Seq<u8>>,
    o: Seq<u8>,
    sp: Seq<u8>,
    r: Seq<u8>,
    amt: u128,
) -> bool {
    ||| !allowance_ok(m, o, sp)
    ||| allowance_of(m, o, sp) < amt
    ||| transfer_fails(m, o, r, amt)
}

/// Exactly which error a refused delegated transfer reports: the
/// allowance entry first, then allowance sufficiency, then the balance
/// move's own order.
pub open spec fn delegated_err(
    m: Map<Seq<u8>, Seq<u8>>,
    o: Seq<u8>,
    sp: Seq<u8>,
    r: Seq<u8>,
    amt: u128,
    e: TokenError,
) -> bool {
    if !allowance_ok(m, o, sp) {
        e == (TokenError::Decode { found: entry_len(m, allowance_key(o, sp)) as usize })
    } else if allowance_of(m, o, sp) < amt {
        e.is_insufficient_allowance(allowance_of(m, o, sp), amt as int)
    } else {
        transfer_err(m, o, r, amt, e)
    }
}

/// What a successful delegated transfer did: the allowance dropped by
/// exactly `amt`, the balance move happened as in a direct transfer, and
/// no other entry was touched.
pub open spec fn delegated_post(
    m0: Map<Seq<u8>, Seq<u8>>,
    m1: Map<Seq<u8>, Seq<u8>>,
    o: Seq<u8>,
    sp: Seq<u8>,
    r: Seq<u8>,
    amt: u128,
) -> bool {
    &&& allowance_ok(m0, o, sp)
    &&& amt <= allowance_of(m0, o, sp)
    &&& allowance_ok(m1, o, sp)
    &&& allowance_of(m1, o, sp) == allowance_of(m0, o, sp) - amt
    &&& balance_ok(m0, o)
    &&& amt <= balance_of(m0, o)
    &&& if o == r {
        &&& balance_of(m1, o) == balance_of(m0, o)
        &&& m1.dom() =~= m0.dom().insert(allowance_key(o, sp))
        &&& forall|k: Seq<u8>| #![auto]
            m0.dom().contains(k) && k != allowance_key(o, sp) ==> m1[k] == m0[k]
    } else {
        &&& balance_ok(m0, r)
        &&& balance_of(m0, r) + amt <= u128::MAX
        &&& balance_ok(m1, o)
        &&& balance_ok(m1, r)
        &&& balance_of(m1, o) == balance_of(m0, o) - amt
        &&& balance_of(m1, r) == balance_of(m0, r) + amt
        &&& m1.dom() =~= m0.dom().insert(balance_key(o)).insert(balance_key(r)).insert(
            allowance_key(o, sp),
        )
        &&& forall|k: Seq<u8>| #![auto]
            m0.dom().contains(k) && k != balance_key(o) && k != balance_key(r) && k
                != allowance_key(o, sp) ==> m1[k] == m0[k]
    }
}

/// Delegated transfer: `spender` (the authenticated caller) moves `amount`
/// out of `owner`'s balance to `recipient`, within the standing allowance.
/// Allowance sufficiency and balance sufficiency are both validated before
/// any write: a failed move never leaves the allowance spent.
pub fn try_transfer_from(
    store: &mut LedgerStore,
    spender: &Addr,
    owner: &Addr,
    recipient: &Addr,
    amount: u128,
) -> (r: Result<TokenEvent, TokenError>)
    ensures
        (match r {
            Ok(ev) => {
                &&& delegated_post(old(store)@, final(store)@, owner@, spender@, recipient@, amount)
                &&& ev.is_transfer_from(spender@, owner@, recipient@)
            },
            Err(e) => {
                &&& final(store)@ == old(store)@
                &&& delegated_fails(old(store)@, owner@, spender@, recipient@, amount)
                &&& delegated_err(old(store)@, owner@, spender@, recipient@, amount, e)
            },
        }),
{
    let allowance = match store.get_allowance(owner, spender) {
        Ok(v) => v,
        Err(e) => {
            return Err(e);
        },
    };
    if allowance < amount {
        return Err(TokenError::InsufficientAllowance { allowance, required: amount });
    }
    let ghost m0 = store@;
    match perform_transfer(store, owner, recipient, amount) {
        Err(e) => {
            return Err(e);
        },
        Ok(_) => {},
    }
    let ghost mid = store@;
    store.set_allowance(owner, spender, allowance - amount);
    proof {
        let ak = allowance_key(owner@, spender@);
        let bko = balance_key(owner@);
        let bkr = balance_key(recipient@);
        lemma_key_tables_disjoint(owner@, owner@, spender@);
        lemma_key_tables_disjoint(recipient@, owner@, spender@);
        assert(allowance_of(store@, owner@, spender@) == allowance - amount);
        if owner@ == recipient@ {
            assert(store@.dom() =~= m0.dom().insert(ak));
        } else {
            assert(mid.dom().contains(bko));
            assert(mid.dom().contains(bkr));
            assert(store@[bko] == mid[bko]);
            assert(store@[bkr] == mid[bkr]);
            assert(store@.dom() =~= m0.dom().insert(bko).insert(bkr).insert(ak));
            assert forall|k: Seq<u8>|
                m0.dom().contains(k) && k != bko && k != bkr && k != ak implies store@[k] == m0[k]
            by {
                assert(mid[k] == m0[k]);
                assert(mid.dom().contains(k));
                assert(store@[k] == mid[k]);
            }
        }
    }
    Ok(TokenEvent::TransferFrom {
        spender: spender.duplicate(),
        owner: owner.duplicate(),
        recipient: recipient.duplicate(),
    })
}

/// What an approval did: the (owner, spender) allowance is now exactly
/// `amt` — an absolute set, not an increment — and no other entry was
/// touched.
pub open spec fn approve_post(
    m0: Map<Seq<u8>, Seq<u8>>,
    m1: Map<Seq<u8>, Seq<u8>>,
    o: Seq<u8>,
    sp: Seq<u8>,
    amt: u128,
) -> bool {
    &&& allowance_ok(m1, o, sp)
    &&& allowance_of(m1, o, sp) == amt
    &&& m1.dom() =~= m0.dom().insert(allowance_key(o, sp))
    &&& forall|k: Seq<u8>| #![auto]
        m0.dom().contains(k) && k != allowance_key(o, sp) ==> m1[k] == m0[k]
}

/// Approval: `owner` (the authenticated caller) sets the allowance of
/// `spender` to exactly `amount`, replacing any prior value; zero revokes.
/// No balance is read or checked, and the call always succeeds.
pub fn try_approve(store: &mut LedgerStore, owner: &Addr, spender: &Addr, amount: u128) -> (r:
    Result<TokenEvent, TokenError>)
    ensures
        (match r {
            Ok(ev) => {
                &&& approve_post(old(store)@, final(store)@, owner@, spender@, amount)
                &&& ev.is_approve(owner@, spender@)
            },
            Err(_) => false,
        }),
{
    store.set_allowance(owner, spender, amount);
    Ok(TokenEvent::Approve { owner: owner.duplicate(), spender: spender.duplicate() })
}

/// The conditions under which a mint is refused.
pub open spec fn mint_fails(m: Map<Seq<u8>, Seq<u8>>, to: Seq<u8>, amt: u128) -> bool {
    ||| !balance_ok(m, to)
    ||| balance_of(m, to) + amt > u128::MAX
}

/// Exactly which error a refused mint reports.
pub open spec fn mint_err(m: Map<Seq<u8>, Seq<u8>>, to: Seq<u8>, amt: u128, e: TokenError) -> bool {
    if !balance_ok(m, to) {
        e == (TokenError::Decode { found: entry_len(m, balance_key(to)) as usize })
    } else {
        e.is_overflow(balance_of(m, to), amt as int)
    }
}

/// What a successful mint did: `to`'s balance grew by exactly `amt` and no
/// other entry was touched. Total supply grows by `amt`.
pub open spec fn mint_post(
    m0: Map<Seq<u8>, Seq<u8>>,
    m1: Map<Seq<u8>, Seq<u8>>,
    to: Seq<u8>,
    amt: u128,
) -> bool {
    &&& balance_ok(m0, to)
    &&& balance_of(m0, to) + amt <= u128::MAX
    &&& balance_ok(m1, to)
    &&& balance_of(m1, to) == balance_of(m0, to) + amt
    &&& m1.dom() =~= m0.dom().insert(balance_key(to))
    &&& forall|k: Seq<u8>| #![auto]
        m0.dom().contains(k) && k != balance_key(to) ==> m1[k] == m0[k]
}

/// Privileged mint: credits `to` by `amount`; authorization is the outer
/// system's concern. Fails only on a malformed entry or a credit that
/// would leave the 128-bit range, and then writes nothing.
pub fn mint_tokens(store: &mut LedgerStore, to: &Addr, amount: u128) -> (r: Result<
    (),
    TokenError,
>)
    ensures
        (match r {
            Ok(_) => mint_post(old(store)@, final(store)@, to@, amount),
            Err(e) => {
                &&& final(store)@ == old(store)@
                &&& mint_fails(old(store)@, to@, amount)
                &&& mint_err(old(store)@, to@, amount, e)
            },
        }),
{
    let balance = match store.get_balance(to) {
        Ok(v) => v,
        Err(e) => {
            return Err(e);
        },
    };
    if amount > u128::MAX - balance {
        return Err(TokenError::ArithmeticOverflow { balance, amount });
    }
    store.set_balance(to, balance + amount);
    Ok(())
}

/// The conditions under which a burn is refused.
pub open spec fn burn_fails(m: Map<Seq<u8>, Seq<u8>>, from: Seq<u8>, amt: u128) -> bool {
    ||| !balance_ok(m, from)
    ||| balance_of(m, from) < amt
}

/// Exactly which error a refused burn reports.
pub open spec fn burn_err(
    m: Map<Seq<u8>, Seq<u8>>,
    from: Seq<u8>,
    amt: u128,
    e: TokenError,
) -> bool {
    if !balance_ok(m, from) {
        e == (TokenError::Decode { found: entry_len(m, balance_key(from)) as usize })
    } else {
        e.is_underflow(balance_of(m, from), amt as int)
    }
}

/// What a successful burn did: `from`'s balance shrank by exactly `amt`
/// and no other entry was touched. Total supply shrinks by `amt`.
pub open spec fn burn_post(
    m0: Map<Seq<u8>, Seq<u8>>,
    m1: Map<Seq<u8>, Seq<u8>>,
    from: Seq<u8>,
    amt: u128,
) -> bool {
    &&& balance_ok(m0, from)
    &&& amt <= balance_of(m0, from)
    &&& balance_ok(m1, from)
    &&& balance_of(m1, from) == balance_of(m0, from) - amt
    &&& m1.dom() =~= m0.dom().insert(balance_key(from))
    &&& forall|k: Seq<u8>| #![auto]
        m0.dom().contains(k) && k != balance_key(from) ==> m1[k] == m0[k]
}

/// Privileged burn: debits `from` by `amount`; authorization is the outer
/// system's concern. A debit beyond the held balance is refused as an
/// arithmetic underflow before anything is written — the balance is
/// checked explicitly, never wrapped.
pub fn burn_tokens(store: &mut LedgerStore, from: &Addr, amount: u128) -> (r: Result<
    (),
    TokenError,
>)
    ensures
        (match r {
            Ok(_) => burn_post(old(store)@, final(store)@, from@, amount),
            Err(e) => {
                &&& final(store)@ == old(store)@
                &&& burn_fails(old(store)@, from@, amount)
                &&& burn_err(old(store)@, from@, amount, e)
            },
        }),
{
    let balance = match store.get_balance(from) {
        Ok(v) => v,
        Err(e) => {
            return Err(e);
        },
    };
    if balance < amount {
        return Err(TokenError::ArithmeticUnderflow { balance, amount });
    }
    store.set_balance(from, balance - amount);
    Ok(())
}

} // verus!
