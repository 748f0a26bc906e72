//! The Chaum-Pedersen primitive: modular arithmetic on `u64` values, the
//! commitment, response and verification formulas, and big-endian decoding of
//! wire bytes into group elements and exponents.

use vstd::prelude::*;
use vstd::arithmetic::power::{
    pow, lemma_pow0, lemma_pow1, lemma_pow_adds, lemma_pow_positive,
};
use vstd::arithmetic::div_mod::{
    lemma_add_mod_noop, lemma_basic_div, lemma_div_denominator, lemma_div_multiples_vanish,
    lemma_fundamental_div_mod, lemma_mod_add_multiples_vanish, lemma_mul_mod_noop_left,
    lemma_sub_mod_noop, lemma_mul_mod_noop_general,
};
use vstd::arithmetic::mul::lemma_mul_upper_bound;
use crate::params::GroupParameters;

verus! {

/// The integer a big-endian byte string stands for.
pub open spec fn be_val(s: Seq<u8>) -> nat
    decreases s.len(),
{
    if s.len() == 0 {
        0
    } else {
        (be_val(s.drop_last()) * 256 + s.last()) as nat
    }
}

/// The response to challenge `c` under ephemeral secret `k` and long-term
/// secret `x`: `(k - c*x) mod q`, reduced into `[0, q)`.
pub open spec fn respond_spec(k: int, c: int, x: int, q: int) -> int {
    (k - c * x) % q
}

/// The two verification equations: `r1 == alpha^s * y1^c (mod p)` and
/// `r2 == beta^s * y2^c (mod p)`.
pub open spec fn verify_spec(
    r1: int,
    r2: int,
    y1: int,
    y2: int,
    c: nat,
    s: nat,
    g: GroupParameters,
) -> bool {
    &&& r1 == (pow(g.alpha as int, s) * pow(y1, c)) % (g.p as int)
    &&& r2 == (pow(g.beta as int, s) * pow(y2, c)) % (g.p as int)
}

/// `(a * b) mod m`, exact over the mathematical integers.
pub fn mul_mod(a: u64, b: u64, m: u64) -> (r: u64)
    requires
        m > 0,
    ensures
        r == (a as int * b as int) % (m as int),
        r < m,
{
    proof {
        lemma_mul_upper_bound(a as int, 0xffff_ffff_ffff_ffff, b as int, 0xffff_ffff_ffff_ffff);
    }
    (((a as u128) * (b as u128)) % (m as u128)) as u64
}

/// `base^exp mod m` by square and multiply.
pub fn mod_exp(base: u64, exp: u64, m: u64) -> (r: u64)
    requires
        m > 1,
    ensures
        r == pow(base as int, exp as nat) % (m as int),
        r < m,
    decreases exp,
{
    if exp == 0 {
        proof {
            lemma_pow0(base as int);
        }
        1 % m
    } else {
        let half = mod_exp(base, exp / 2, m);
        let sq = mul_mod(half, half, m);
        proof {
            let b = base as int;
            let h = (exp / 2) as nat;
            lemma_mul_mod_noop_general(pow(b, h), pow(b, h), m as int);
            lemma_pow_adds(b, h, h);
            assert(sq == pow(b, (2 * h) as nat) % (m as int));
        }
        if exp % 2 == 1 {
            let r = mul_mod(sq, base % m, m);
            proof {
                let b = base as int;
                let h = (exp / 2) as nat;
                lemma_mul_mod_noop_general(pow(b, (2 * h) as nat), b, m as int);
                lemma_pow1(b);
                lemma_pow_adds(b, (2 * h) as nat, 1);
                assert(exp as nat == (2 * h + 1) as nat);
            }
            r
        } else {
            proof {
                assert(exp as nat == (2 * ((exp / 2) as nat)) as nat);
            }
            sq
        }
    }
}

/// The big-endian value of `bytes`, reduced modulo `m`.
pub fn decode_be_mod(bytes: &[u8], m: u64) -> (r: u64)
    requires
        m > 0,
    ensures
        r == be_val(bytes@) % (m as nat),
        r < m,
{
    let mut acc: u64 = 0;
    let mut i: usize = 0;
    proof {
        assert(bytes@.take(0) =~= Seq::<u8>::empty());
    }
    while i < bytes.len()
        invariant
            m > 0,
            i <= bytes@.len(),
            acc == be_val(bytes@.take(i as int)) % (m as nat),
            acc < m,
        decreases bytes@.len() - i,
    {
        let b = bytes[i];
        let next = (((acc as u128) * 256 + (b as u128)) % (m as u128)) as u64;
        proof {
            let prefix = bytes@.take(i as int);
            let v = be_val(prefix) as int;
            let mi = m as int;
            assert(bytes@.take(i + 1).drop_last() =~= prefix);
            assert(be_val(bytes@.take(i + 1)) == v * 256 + b);
            assert(((v % mi) * 256) % mi == (v * 256) % mi) by {
                lemma_mul_mod_noop_left(v, 256, mi);
            }
            lemma_add_mod_noop((v % mi) * 256, b as int, mi);
            lemma_add_mod_noop(v * 256, b as int, mi);
            assert(((v % mi) * 256 + b) % mi == (v * 256 + b) % mi);
        }
        acc = next;
        i = i + 1;
    }
    proof {
        assert(bytes@.take(bytes@.len() as int) =~= bytes@);
    }
    acc
}

/// The eight-byte big-endian encoding of `v`: the wire form of a group
/// element or exponent.
pub fn encode_be(v: u64) -> (r: Vec<u8>)
    ensures
        r@.len() == 8,
        be_val(r@) == v,
{
    let mut r: Vec<u8> = Vec::new();
    let mut p: u64 = 0x100_0000_0000_0000;
    let mut i: usize = 0;
    proof {
        reveal_with_fuel(pow, 9);
        assert(pow(256, 7) == 0x100_0000_0000_0000);
        assert(pow(256, 8) == 0x1_0000_0000_0000_0000);
        lemma_basic_div(v as int, pow(256, 8));
    }
    while i < 8
        invariant
            i <= 8,
            r@.len() == i,
            i < 8 ==> p as int == pow(256, (7 - i) as nat),
            be_val(r@) as int == v as int / pow(256, (8 - i) as nat),
        decreases 8 - i,
    {
        proof {
            lemma_pow_positive(256, (7 - i) as nat);
        }
        let byte = ((v / p) % 256) as u8;
        proof {
            let c = pow(256, (7 - i) as nat);
            let x = v as int / c;
            assert(pow(256, (8 - i) as nat) == 256 * c) by {
                lemma_pow1(256);
                lemma_pow_adds(256, 1, (7 - i) as nat);
            }
            lemma_div_denominator(v as int, c, 256);
            lemma_fundamental_div_mod(x, 256);
            assert(r@.push(byte).drop_last() =~= r@);
            assert(be_val(r@.push(byte)) as int == (v as int / (256 * c)) * 256 + x % 256);
            assert((x / 256) * 256 + x % 256 == x);
        }
        r.push(byte);
        if i < 7 {
            proof {
                let d = pow(256, (6 - i) as nat);
                assert(pow(256, (7 - i) as nat) == 256 * d) by {
                    lemma_pow1(256);
                    lemma_pow_adds(256, 1, (6 - i) as nat);
                }
                lemma_pow_positive(256, (6 - i) as nat);
                lemma_div_multiples_vanish(d, 256);
            }
            p = p / 256;
        }
        i = i + 1;
    }
    proof {
        lemma_pow0(256);
    }
    r
}

/// The secret exponent a password stands for: the big-endian value of its
/// bytes, reduced into the exponent range `[0, q)`.
pub fn derive_secret(password: &[u8], q: u64) -> (x: u64)
    requires
        q > 0,
    ensures
        x == be_val(password@) % (q as nat),
        x < q,
{
    decode_be_mod(password, q)
}

/// The commitment pair of exponent `x`: `(alpha^x mod p, beta^x mod p)`.
pub fn commit(x: u64, g: &GroupParameters) -> (r: (u64, u64))
    requires
        g.wf(),
    ensures
        r.0 == pow(g.alpha as int, x as nat) % (g.p as int),
        r.1 == pow(g.beta as int, x as nat) % (g.p as int),
        r.0 < g.p,
        r.1 < g.p,
{
    (mod_exp(g.alpha, x, g.p), mod_exp(g.beta, x, g.p))
}

/// The challenge response `(k - c*x) mod q`, with a true modular reduction
/// into `[0, q)` even where `k - c*x` is negative.
pub fn respond(k: u64, c: u64, x: u64, q: u64) -> (s: u64)
    requires
        q > 0,
    ensures
        s == respond_spec(k as int, c as int, x as int, q as int),
        s < q,
{
    let kq = k % q;
    let cx = mul_mod(c, x, q);
    let s = (((kq as u128) + (q as u128) - (cx as u128)) % (q as u128)) as u64;
    proof {
        let ki = k as int;
        let cxi = c as int * x as int;
        let qi = q as int;
        lemma_sub_mod_noop(ki, cxi, qi);
        lemma_mod_add_multiples_vanish((ki % qi) - (cxi % qi), qi);
        assert((ki % qi) + qi - (cxi % qi) == qi + ((ki % qi) - (cxi % qi)));
    }
    s
}

/// Checks both verification equations; both sides are always computed, so the
/// cost does not depend on which equation fails.
pub fn verify(r1: u64, r2: u64, y1: u64, y2: u64, c: u64, s: u64, g: &GroupParameters) -> (ok: bool)
    requires
        g.wf(),
    ensures
        ok == verify_spec(r1 as int, r2 as int, y1 as int, y2 as int, c as nat, s as nat, *g),
{
    let lhs1 = mul_mod(mod_exp(g.alpha, s, g.p), mod_exp(y1, c, g.p), g.p);
    let lhs2 = mul_mod(mod_exp(g.beta, s, g.p), mod_exp(y2, c, g.p), g.p);
    proof {
        lemma_mul_mod_noop_general(
            pow(g.alpha as int, s as nat),
            pow(y1 as int, c as nat),
            g.p as int,
        );
        lemma_mul_mod_noop_general(
            pow(g.beta as int, s as nat),
            pow(y2 as int, c as nat),
            g.p as int,
        );
    }
    let ok1 = lhs1 == r1;
    let ok2 = lhs2 == r2;
    ok1 && ok2
}

} // verus!
