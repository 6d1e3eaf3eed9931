//! The ledger's monetary laws, proved from the engine's contracts:
//! balances and allowances never go negative, a transfer conserves the
//! total over any family of accounts, a run of delegated transfers spends
//! at most the standing allowance, and approve is an absolute set.

use vstd::prelude::*;
use crate::codec::lemma_be_val_bound;
use crate::keys::{
    allowance_key, balance_key, lemma_balance_key_injective, lemma_key_tables_disjoint,
};
use crate::store::{allowance_of, balance_of};
use crate::token::{approve_post, burn_post, delegated_post, mint_post, transfer_post};

verus! {

/// No negative balances: whatever the store holds, a balance reads as a
/// non-negative number (an operation that would drop one below zero fails
/// and, by the engine's contracts, leaves the store unchanged).
pub proof fn lemma_balance_nonnegative(m: Map<Seq<u8>, Seq<u8>>, a: Seq<u8>)
    ensures
        balance_of(m, a) >= 0,
{
    if m.dom().contains(balance_key(a)) {
        lemma_be_val_bound(m[balance_key(a)]);
    }
}

/// An allowance reads as a non-negative number.
pub proof fn lemma_allowance_nonnegative(m: Map<Seq<u8>, Seq<u8>>, o: Seq<u8>, sp: Seq<u8>)
    ensures
        allowance_of(m, o, sp) >= 0,
{
    if m.dom().contains(allowance_key(o, sp)) {
        lemma_be_val_bound(m[allowance_key(o, sp)]);
    }
}

/// A successful transfer leaves every third account's balance exactly as
/// it was.
pub proof fn lemma_transfer_preserves_others(
    m0: Map<Seq<u8>, Seq<u8>>,
    m1: Map<Seq<u8>, Seq<u8>>,
    s: Seq<u8>,
    r: Seq<u8>,
    amt: u128,
    a: Seq<u8>,
)
    requires
        transfer_post(m0, m1, s, r, amt),
        a != s,
        a != r,
    ensures
        balance_of(m1, a) == balance_of(m0, a),
{
    lemma_balance_key_injective(a, s);
    lemma_balance_key_injective(a, r);
    if s != r {
        let k = balance_key(a);
        if !m0.dom().contains(k) {
            assert(!m1.dom().contains(k));
        }
    }
}

/// Exactly `amt` moved from `s` to `r`, and no other account's balance
/// moved at all.
pub open spec fn balances_shifted(
    m0: Map<Seq<u8>, Seq<u8>>,
    m1: Map<Seq<u8>, Seq<u8>>,
    s: Seq<u8>,
    r: Seq<u8>,
    amt: u128,
) -> bool {
    &&& balance_of(m1, s) == balance_of(m0, s) - amt
    &&& balance_of(m1, r) == balance_of(m0, r) + amt
    &&& forall|a: Seq<u8>| a != s && a != r ==> #[trigger] balance_of(m1, a) == balance_of(m0, a)
}

/// A successful transfer between distinct accounts shifts exactly `amt`.
pub proof fn lemma_transfer_shifts(
    m0: Map<Seq<u8>, Seq<u8>>,
    m1: Map<Seq<u8>, Seq<u8>>,
    s: Seq<u8>,
    r: Seq<u8>,
    amt: u128,
)
    requires
        transfer_post(m0, m1, s, r, amt),
        s != r,
    ensures
        balances_shifted(m0, m1, s, r, amt),
{
    assert forall|a: Seq<u8>| a != s && a != r implies #[trigger] balance_of(m1, a) == balance_of(
        m0,
        a,
    ) by {
        lemma_transfer_preserves_others(m0, m1, s, r, amt, a);
    }
}

/// A successful delegated transfer between distinct accounts shifts
/// exactly `amt` of balance; the allowance entry is not a balance.
pub proof fn lemma_delegated_shifts(
    m0: Map<Seq<u8>, Seq<u8>>,
    m1: Map<Seq<u8>, Seq<u8>>,
    o: Seq<u8>,
    sp: Seq<u8>,
    r: Seq<u8>,
    amt: u128,
)
    requires
        delegated_post(m0, m1, o, sp, r, amt),
        o != r,
    ensures
        balances_shifted(m0, m1, o, r, amt),
{
    assert forall|a: Seq<u8>| a != o && a != r implies #[trigger] balance_of(m1, a) == balance_of(
        m0,
        a,
    ) by {
        lemma_balance_key_injective(a, o);
        lemma_balance_key_injective(a, r);
        lemma_key_tables_disjoint(a, o, sp);
        let k = balance_key(a);
        if !m0.dom().contains(k) {
            assert(!m1.dom().contains(k));
        }
    }
}

/// A delegated self-transfer moves no balance at all.
pub proof fn lemma_delegated_self_preserves_balances(
    m0: Map<Seq<u8>, Seq<u8>>,
    m1: Map<Seq<u8>, Seq<u8>>,
    o: Seq<u8>,
    sp: Seq<u8>,
    amt: u128,
    a: Seq<u8>,
)
    requires
        delegated_post(m0, m1, o, sp, o, amt),
    ensures
        balance_of(m1, a) == balance_of(m0, a),
{
    lemma_key_tables_disjoint(a, o, sp);
    let k = balance_key(a);
    if !m0.dom().contains(k) {
        assert(!m1.dom().contains(k));
    }
}

/// The balances of a family of accounts, added up.
pub open spec fn sum_balances(m: Map<Seq<u8>, Seq<u8>>, accts: Seq<Seq<u8>>) -> int
    decreases accts.len(),
{
    if accts.len() == 0 {
        0
    } else {
        balance_of(m, accts.first()) + sum_balances(m, accts.drop_first())
    }
}

proof fn lemma_contains_shift(accts: Seq<Seq<u8>>, x: Seq<u8>)
    requires
        accts.len() > 0,
    ensures
        accts.contains(x) <==> (accts.first() == x || accts.drop_first().contains(x)),
{
    let rest = accts.drop_first();
    if accts.contains(x) {
        let i = choose|i: int| 0 <= i < accts.len() && accts[i] == x;
        if i > 0 {
            assert(rest[i - 1] == x);
            assert(rest.contains(x));
        }
    }
    if accts.first() == x {
        assert(accts[0] == x);
        assert(accts.contains(x));
    }
    if rest.contains(x) {
        let i = choose|i: int| 0 <= i < rest.len() && rest[i] == x;
        assert(accts[i + 1] == x);
        assert(accts.contains(x));
    }
}

proof fn lemma_sum_shift(
    m0: Map<Seq<u8>, Seq<u8>>,
    m1: Map<Seq<u8>, Seq<u8>>,
    s: Seq<u8>,
    r: Seq<u8>,
    amt: u128,
    accts: Seq<Seq<u8>>,
)
    requires
        balances_shifted(m0, m1, s, r, amt),
        s != r,
        accts.no_duplicates(),
    ensures
        sum_balances(m1, accts) == sum_balances(m0, accts) + (if accts.contains(s) {
            -(amt as int)
        } else {
            0int
        }) + (if accts.contains(r) {
            amt as int
        } else {
            0int
        }),
    decreases accts.len(),
{
    if accts.len() > 0 {
        let a = accts.first();
        let rest = accts.drop_first();
        assert(rest.no_duplicates()) by {
            assert forall|i: int, j: int|
                0 <= i < rest.len() && 0 <= j < rest.len() && i != j implies rest[i] != rest[j] by {
                assert(rest[i] == accts[i + 1]);
                assert(rest[j] == accts[j + 1]);
            }
        }
        lemma_sum_shift(m0, m1, s, r, amt, rest);
        lemma_contains_shift(accts, s);
        lemma_contains_shift(accts, r);
        if a == s || a == r {
            if rest.contains(a) {
                let i = choose|i: int| 0 <= i < rest.len() && rest[i] == a;
                assert(accts[i + 1] == a);
                assert(accts[0] == a);
                assert(false);
            }
        }
    }
}

/// Conservation: a successful transfer between two distinct accounts of a
/// duplicate-free family that includes them both leaves the family's total
/// balance unchanged.
pub proof fn lemma_transfer_conservation(
    m0: Map<Seq<u8>, Seq<u8>>,
    m1: Map<Seq<u8>, Seq<u8>>,
    s: Seq<u8>,
    r: Seq<u8>,
    amt: u128,
    accts: Seq<Seq<u8>>,
)
    requires
        transfer_post(m0, m1, s, r, amt),
        s != r,
        accts.no_duplicates(),
        accts.contains(s),
        accts.contains(r),
    ensures
        sum_balances(m1, accts) == sum_balances(m0, accts),
{
    lemma_transfer_shifts(m0, m1, s, r, amt);
    lemma_sum_shift(m0, m1, s, r, amt, accts);
}

/// Conservation holds for a delegated transfer too: only the allowance
/// entry moves besides the two balances.
pub proof fn lemma_delegated_conservation(
    m0: Map<Seq<u8>, Seq<u8>>,
    m1: Map<Seq<u8>, Seq<u8>>,
    o: Seq<u8>,
    sp: Seq<u8>,
    r: Seq<u8>,
    amt: u128,
    accts: Seq<Seq<u8>>,
)
    requires
        delegated_post(m0, m1, o, sp, r, amt),
        o != r,
        accts.no_duplicates(),
        accts.contains(o),
        accts.contains(r),
    ensures
        sum_balances(m1, accts) == sum_balances(m0, accts),
{
    lemma_delegated_shifts(m0, m1, o, sp, r, amt);
    lemma_sum_shift(m0, m1, o, r, amt, accts);
}

/// `t`'s balance moved by exactly `delta`, and no other account's balance
/// moved at all.
pub open spec fn balances_bumped(
    m0: Map<Seq<u8>, Seq<u8>>,
    m1: Map<Seq<u8>, Seq<u8>>,
    t: Seq<u8>,
    delta: int,
) -> bool {
    &&& balance_of(m1, t) == balance_of(m0, t) + delta
    &&& forall|a: Seq<u8>| a != t ==> #[trigger] balance_of(m1, a) == balance_of(m0, a)
}

/// A successful mint raises exactly the credited account's balance.
pub proof fn lemma_mint_bumps(
    m0: Map<Seq<u8>, Seq<u8>>,
    m1: Map<Seq<u8>, Seq<u8>>,
    t: Seq<u8>,
    amt: u128,
)
    requires
        mint_post(m0, m1, t, amt),
    ensures
        balances_bumped(m0, m1, t, amt as int),
{
    assert forall|a: Seq<u8>| a != t implies #[trigger] balance_of(m1, a) == balance_of(
        m0,
        a,
    ) by {
        lemma_balance_key_injective(a, t);
        let k = balance_key(a);
        if !m0.dom().contains(k) {
            assert(!m1.dom().contains(k));
        }
    }
}

/// A successful burn lowers exactly the debited account's balance.
pub proof fn lemma_burn_bumps(
    m0: Map<Seq<u8>, Seq<u8>>,
    m1: Map<Seq<u8>, Seq<u8>>,
    t: Seq<u8>,
    amt: u128,
)
    requires
        burn_post(m0, m1, t, amt),
    ensures
        balances_bumped(m0, m1, t, -(amt as int)),
{
    assert forall|a: Seq<u8>| a != t implies #[trigger] balance_of(m1, a) == balance_of(
        m0,
        a,
    ) by {
        lemma_balance_key_injective(a, t);
        let k = balance_key(a);
        if !m0.dom().contains(k) {
            assert(!m1.dom().contains(k));
        }
    }
}

/// An approval touches no balance at all.
pub proof fn lemma_approve_preserves_balances(
    m0: Map<Seq<u8>, Seq<u8>>,
    m1: Map<Seq<u8>, Seq<u8>>,
    o: Seq<u8>,
    sp: Seq<u8>,
    amt: u128,
)
    requires
        approve_post(m0, m1, o, sp, amt),
    ensures
        balances_bumped(m0, m1, o, 0),
{
    assert forall|a: Seq<u8>| a != o implies #[trigger] balance_of(m1, a) == balance_of(
        m0,
        a,
    ) by {
        lemma_key_tables_disjoint(a, o, sp);
        let k = balance_key(a);
        if !m0.dom().contains(k) {
            assert(!m1.dom().contains(k));
        }
    }
    lemma_key_tables_disjoint(o, o, sp);
    let k = balance_key(o);
    if !m0.dom().contains(k) {
        assert(!m1.dom().contains(k));
    }
}

proof fn lemma_sum_bump(
    m0: Map<Seq<u8>, Seq<u8>>,
    m1: Map<Seq<u8>, Seq<u8>>,
    t: Seq<u8>,
    delta: int,
    accts: Seq<Seq<u8>>,
)
    requires
        balances_bumped(m0, m1, t, delta),
        accts.no_duplicates(),
    ensures
        sum_balances(m1, accts) == sum_balances(m0, accts) + (if accts.contains(t) {
            delta
        } else {
            0int
        }),
    decreases accts.len(),
{
    if accts.len() > 0 {
        let a = accts.first();
        let rest = accts.drop_first();
        assert(rest.no_duplicates()) by {
            assert forall|i: int, j: int|
                0 <= i < rest.len() && 0 <= j < rest.len() && i != j implies rest[i] != rest[j] by {
                assert(rest[i] == accts[i + 1]);
                assert(rest[j] == accts[j + 1]);
            }
        }
        lemma_sum_bump(m0, m1, t, delta, rest);
        lemma_contains_shift(accts, t);
        if a == t {
            if rest.contains(a) {
                let i = choose|i: int| 0 <= i < rest.len() && rest[i] == a;
                assert(accts[i + 1] == a);
                assert(accts[0] == a);
                assert(false);
            }
        }
    }
}

/// Total supply grows only via mint: over any duplicate-free family of
/// accounts that includes the credited one, a successful mint raises the
/// total by exactly the minted amount.
pub proof fn lemma_mint_changes_total(
    m0: Map<Seq<u8>, Seq<u8>>,
    m1: Map<Seq<u8>, Seq<u8>>,
    t: Seq<u8>,
    amt: u128,
    accts: Seq<Seq<u8>>,
)
    requires
        mint_post(m0, m1, t, amt),
        accts.no_duplicates(),
        accts.contains(t),
    ensures
        sum_balances(m1, accts) == sum_balances(m0, accts) + amt,
{
    lemma_mint_bumps(m0, m1, t, amt);
    lemma_sum_bump(m0, m1, t, amt as int, accts);
}

/// Total supply shrinks only via burn: a successful burn lowers the total
/// by exactly the burnt amount.
pub proof fn lemma_burn_changes_total(
    m0: Map<Seq<u8>, Seq<u8>>,
    m1: Map<Seq<u8>, Seq<u8>>,
    t: Seq<u8>,
    amt: u128,
    accts: Seq<Seq<u8>>,
)
    requires
        burn_post(m0, m1, t, amt),
        accts.no_duplicates(),
        accts.contains(t),
    ensures
        sum_balances(m1, accts) == sum_balances(m0, accts) - amt,
{
    lemma_burn_bumps(m0, m1, t, amt);
    lemma_sum_bump(m0, m1, t, -(amt as int), accts);
}

/// An approval changes no total balance.
pub proof fn lemma_approve_preserves_total(
    m0: Map<Seq<u8>, Seq<u8>>,
    m1: Map<Seq<u8>, Seq<u8>>,
    o: Seq<u8>,
    sp: Seq<u8>,
    amt: u128,
    accts: Seq<Seq<u8>>,
)
    requires
        approve_post(m0, m1, o, sp, amt),
        accts.no_duplicates(),
    ensures
        sum_balances(m1, accts) == sum_balances(m0, accts),
{
    lemma_approve_preserves_balances(m0, m1, o, sp, amt);
    lemma_sum_bump(m0, m1, o, 0, accts);
}

/// One successful delegated transfer of some amount for the (o, sp) pair,
/// to whatever recipient.
pub open spec fn delegated_step(
    m0: Map<Seq<u8>, Seq<u8>>,
    m1: Map<Seq<u8>, Seq<u8>>,
    o: Seq<u8>,
    sp: Seq<u8>,
    amt: u128,
) -> bool {
    exists|r: Seq<u8>| delegated_post(m0, m1, o, sp, r, amt)
}

/// The amounts of a run of operations, added up.
pub open spec fn sum_amounts(amts: Seq<u128>) -> int
    decreases amts.len(),
{
    if amts.len() == 0 {
        0
    } else {
        amts.first() + sum_amounts(amts.drop_first())
    }
}

/// Allowance ceiling: through any run of successful delegated transfers
/// for one (owner, spender) pair, the amounts moved add up to at most the
/// allowance that stood at the start, and the allowance ends exactly that
/// much lower — each step decrements it by exactly its amount.
pub proof fn lemma_allowance_ceiling(
    ms: Seq<Map<Seq<u8>, Seq<u8>>>,
    amts: Seq<u128>,
    o: Seq<u8>,
    sp: Seq<u8>,
)
    requires
        ms.len() == amts.len() + 1,
        forall|i: int, j: int|
            0 <= i < amts.len() && j == i + 1 ==> #[trigger] delegated_step(
                ms[i],
                ms[j],
                o,
                sp,
                amts[i],
            ),
    ensures
        sum_amounts(amts) <= allowance_of(ms[0], o, sp),
        allowance_of(ms.last(), o, sp) == allowance_of(ms[0], o, sp) - sum_amounts(amts),
    decreases amts.len(),
{
    if amts.len() == 0 {
        assert(ms.last() == ms[0]);
        lemma_allowance_nonnegative(ms[0], o, sp);
    } else {
        assert(delegated_step(ms[0], ms[1], o, sp, amts[0]));
        let r0 = choose|r: Seq<u8>| delegated_post(ms[0], ms[1], o, sp, r, amts[0]);
        assert(delegated_post(ms[0], ms[1], o, sp, r0, amts[0]));
        let ms2 = ms.drop_first();
        let amts2 = amts.drop_first();
        assert forall|i: int, j: int| 0 <= i < amts2.len() && j == i + 1 implies #[trigger] delegated_step(
            ms2[i],
            ms2[j],
            o,
            sp,
            amts2[i],
        ) by {
            assert(ms2[i] == ms[i + 1]);
            assert(ms2[j] == ms[i + 2]);
            assert(amts2[i] == amts[i + 1]);
            assert(delegated_step(ms[i + 1], ms[i + 2], o, sp, amts[i + 1]));
        }
        lemma_allowance_ceiling(ms2, amts2, o, sp);
        assert(ms2[0] == ms[1]);
        assert(ms2.last() == ms.last());
    }
}

/// Idempotence of approve: approving the same amount twice in a row
/// leaves the allowance at that amount, not at its double.
pub proof fn lemma_approve_idempotent(
    m0: Map<Seq<u8>, Seq<u8>>,
    m1: Map<Seq<u8>, Seq<u8>>,
    m2: Map<Seq<u8>, Seq<u8>>,
    o: Seq<u8>,
    sp: Seq<u8>,
    amt: u128,
)
    requires
        approve_post(m0, m1, o, sp, amt),
        approve_post(m1, m2, o, sp, amt),
    ensures
        allowance_of(m1, o, sp) == amt,
        allowance_of(m2, o, sp) == amt,
{
}

} // verus!
