//! Fixed-width big-endian encoding of the unsigned 128-bit values that the
//! ledger persists. A stored value is exactly `VALUE_WIDTH` bytes; `be_val`
//! is the number those bytes denote in base 256, most significant first.

use vstd::prelude::*;
use vstd::arithmetic::power2::*;
use vstd::arithmetic::div_mod::*;

verus! {

/// Width in bytes of every persisted balance or allowance value.
pub const VALUE_WIDTH: usize = 16;

/// The number denoted by a byte string read in base 256, most significant
/// byte first.
pub open spec fn be_val(s: Seq<u8>) -> int
    decreases s.len(),
{
    if s.len() == 0 {
        0
    } else {
        be_val(s.drop_last()) * 256 + s.last()
    }
}

/// A byte string of length n denotes a number below 256^n.
pub proof fn lemma_be_val_bound(s: Seq<u8>)
    ensures
        0 <= be_val(s) < pow2((8 * s.len()) as nat),
    decreases s.len(),
{
    if s.len() == 0 {
        lemma2_to64();
    } else {
        lemma_be_val_bound(s.drop_last());
        lemma_pow2_adds((8 * (s.len() - 1)) as nat, 8);
        lemma2_to64();
    }
}

/// The powers of two that bound a 16-byte value, as literals.
pub proof fn lemma_pow2_128()
    ensures
        pow2(120) == 0x1000000000000000000000000000000int,
        pow2(128) == 0x100000000000000000000000000000000int,
{
    lemma2_to64();
    lemma2_to64_rest();
    lemma_pow2_adds(64, 56);
    lemma_pow2_adds(64, 64);
}

/// Encodes a value as exactly 16 big-endian bytes.
pub fn encode_u128(v: u128) -> (r: Vec<u8>)
    ensures
        r@.len() == VALUE_WIDTH,
        be_val(r@) == v,
{
    let mut out: Vec<u8> = Vec::new();
    let mut d: u128 = 0x1000000000000000000000000000000;
    proof {
        lemma_pow2_128();
        lemma_basic_div(v as int, pow2(128) as int);
    }
    let mut i: usize = 0;
    while i < 16
        invariant
            out@.len() == i,
            i <= 16,
            i < 16 ==> d == pow2((8 * (15 - i)) as nat),
            be_val(out@) == v as int / pow2((8 * (16 - i)) as nat) as int,
        decreases 16 - i,
    {
        proof {
            lemma_pow2_pos((8 * (15 - i)) as nat);
        }
        let ghost prev = out@;
        let b: u8 = ((v / d) % 256) as u8;
        out.push(b);
        proof {
            let p = pow2((8 * (15 - i)) as nat) as int;
            lemma_pow2_adds((8 * (15 - i)) as nat, 8);
            lemma2_to64();
            assert(pow2((8 * (16 - i)) as nat) == p * 256);
            assert(out@.drop_last() =~= prev);
            assert(out@.last() == b);
            assert(be_val(out@) == be_val(prev) * 256 + b);
            lemma_div_denominator(v as int, p, 256);
            assert(v as int / (p * 256) == v as int / p / 256);
            lemma_fundamental_div_mod(v as int / p, 256);
            assert(b == (v as int / p) % 256);
            assert(be_val(out@) == (v as int / p / 256) * 256 + (v as int / p) % 256);
            assert(be_val(out@) == v as int / p);
        }
        if i < 15 {
            proof {
                lemma_pow2_subtracts(8, (8 * (15 - i)) as nat);
                lemma2_to64();
            }
            d = d / 256;
        }
        i += 1;
    }
    proof {
        lemma2_to64();
        assert(v as int / pow2(0) as int == v) by {
            lemma_div_basics_1(v as int);
        }
    }
    out
}

/// Decodes exactly 16 big-endian bytes back into the value they denote.
pub fn decode_u128(b: &Vec<u8>) -> (r: u128)
    requires
        b@.len() == VALUE_WIDTH,
    ensures
        r == be_val(b@),
{
    let mut acc: u128 = 0;
    let mut i: usize = 0;
    while i < 16
        invariant
            i <= 16,
            b@.len() == 16,
            acc == be_val(b@.take(i as int)),
        decreases 16 - i,
    {
        proof {
            lemma_be_val_bound(b@.take(i as int));
            lemma_pow2_128();
            if i < 15 {
                lemma_pow2_strictly_increases((8 * i) as nat, 120);
            }
            lemma_pow2_adds(120, 8);
            lemma2_to64();
            assert(acc < pow2(120));
            assert(acc * 256 + 255 < pow2(128));
        }
        acc = acc * 256 + (b[i] as u128);
        proof {
            assert(b@.take(i + 1 as int).drop_last() =~= b@.take(i as int));
            assert(b@.take(i + 1 as int).last() == b@[i as int]);
        }
        i += 1;
    }
    proof {
        assert(b@.take(16) =~= b@);
    }
    acc
}

} // verus!
