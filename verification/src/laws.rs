//! The protocol's security-bearing laws: an honest response always passes
//! verification (soundness), at most one response passes a given challenge
//! when the generator's exponentiation is injective (non-forgery), and a
//! stale response passes against a newer challenge only when the two
//! challenges collide modulo the secret (staleness).

use vstd::prelude::*;
use vstd::arithmetic::power::{
    pow, lemma_pow_adds, lemma_pow_mod_noop, lemma_pow_multiplies, lemma1_pow,
};
use vstd::arithmetic::div_mod::{
    lemma_add_mod_noop, lemma_fundamental_div_mod, lemma_mod_bound, lemma_mod_multiples_vanish,
    lemma_mul_mod_noop_general, lemma_small_mod,
};
use crate::math::{respond_spec, verify_spec};
use crate::params::GroupParameters;
use crate::server::UserInfoV;

verus! {

/// Exponentiation by `gen` is injective on exponents below `q`: the group
/// element determines the exponent. This holds exactly when `gen` has order
/// `q` modulo `p`; it fails for degenerate parameters such as `gen == 1`.
pub open spec fn exp_injective(gen: int, q: nat, p: int) -> bool {
    forall|i: nat, j: nat|
        i < q && j < q && #[trigger] (pow(gen, i) % p) == #[trigger] (pow(gen, j) % p) ==> i == j
}

/// `gen^e mod p` depends only on `e mod q` once `gen^q mod p == 1`.
proof fn lemma_pow_cycle(gen: int, e: nat, q: nat, p: int)
    requires
        p > 1,
        q > 0,
        pow(gen, q) % p == 1,
    ensures
        pow(gen, e) % p == pow(gen, (e % q) as nat) % p,
{
    let d = (e / q) as nat;
    let r = (e % q) as nat;
    lemma_fundamental_div_mod(e as int, q as int);
    assert(e == q * d + r);
    lemma_pow_adds(gen, (q * d) as nat, r);
    lemma_pow_multiplies(gen, q, d);
    lemma_pow_mod_noop(pow(gen, q), d, p);
    lemma1_pow(d);
    assert(pow(gen, (q * d) as nat) % p == pow(pow(gen, q) % p, d) % p);
    assert(pow(gen, (q * d) as nat) % p == 1int % p);
    lemma_small_mod(1, p as nat);
    lemma_mul_mod_noop_general(pow(gen, (q * d) as nat), pow(gen, r), p);
    lemma_mod_bound(pow(gen, r), p);
    lemma_small_mod((pow(gen, r) % p) as nat, p as nat);
    assert(pow(gen, e) % p == ((pow(gen, (q * d) as nat) % p) * (pow(gen, r) % p)) % p);
}

/// The verification equation's left side, reduced: `gen^s * (gen^x mod p)^c`
/// is `gen^((s + x*c) mod q)`, all modulo `p`.
proof fn lemma_lhs_reduce(gen: int, p: int, q: nat, x: nat, c: nat, s: nat)
    requires
        p > 1,
        q > 0,
        pow(gen, q) % p == 1,
    ensures
        (pow(gen, s) * pow(pow(gen, x) % p, c)) % p == pow(gen, (((s + x * c) as nat) % q) as nat)
            % p,
{
    lemma_pow_mod_noop(pow(gen, x), c, p);
    lemma_pow_multiplies(gen, x, c);
    lemma_mul_mod_noop_general(pow(gen, s), pow(pow(gen, x) % p, c), p);
    lemma_mul_mod_noop_general(pow(gen, s), pow(gen, (x * c) as nat), p);
    assert((pow(gen, s) * pow(pow(gen, x) % p, c)) % p == (pow(gen, s) * pow(
        gen,
        (x * c) as nat,
    )) % p);
    lemma_pow_adds(gen, s, (x * c) as nat);
    lemma_pow_cycle(gen, (s + x * c) as nat, q, p);
}

/// Adding the same term on both sides of a congruence can be cancelled.
proof fn lemma_mod_add_cancel(a: int, b: int, t: int, q: int)
    requires
        q > 0,
        (a + t) % q == (b + t) % q,
    ensures
        a % q == b % q,
{
    lemma_fundamental_div_mod(a + t, q);
    lemma_fundamental_div_mod(b + t, q);
    let d1 = (a + t) / q;
    let d2 = (b + t) / q;
    assert(a == q * (d1 - d2) + b) by {
        assert(a + t == q * d1 + (a + t) % q);
        assert(b + t == q * d2 + (b + t) % q);
        assert(q * d1 - q * d2 == q * (d1 - d2)) by (nonlinear_arith);
    }
    lemma_mod_multiples_vanish(d1 - d2, b, q);
}

/// The honest response hits the right exponent: `s + x*c` is `k` modulo `q`,
/// and `s` itself lies in `[0, q)`.
proof fn lemma_respond_exponent(k: nat, c: nat, x: nat, q: nat)
    requires
        q > 0,
    ensures
        0 <= respond_spec(k as int, c as int, x as int, q as int) < q,
        (respond_spec(k as int, c as int, x as int, q as int) + x * c) % (q as int) == k as int
            % (q as int),
{
    let s = respond_spec(k as int, c as int, x as int, q as int);
    lemma_mod_bound(k as int - c as int * x as int, q as int);
    lemma_fundamental_div_mod(k as int - c as int * x as int, q as int);
    let t = (k as int - c as int * x as int) / (q as int);
    assert(s + x * c == q as int * (-t) + k) by {
        assert(k as int - c as int * x as int == q as int * t + s);
        assert(c as int * x as int == x as int * c as int) by (nonlinear_arith);
        assert(q as int * (-t) == -(q as int * t)) by (nonlinear_arith);
    }
    lemma_mod_multiples_vanish(-t, k as int, q as int);
}

/// Soundness: for every secret `x`, ephemeral secret `k` and challenge `c`,
/// the response `(k - c*x) mod q` passes verification against the commitment
/// pairs of `x` and `k`.
pub proof fn lemma_soundness(g: GroupParameters, x: nat, k: nat, c: nat)
    requires
        g.wf(),
    ensures
        ({
            let p = g.p as int;
            let s = respond_spec(k as int, c as int, x as int, g.q as int);
            verify_spec(
                pow(g.alpha as int, k) % p,
                pow(g.beta as int, k) % p,
                pow(g.alpha as int, x) % p,
                pow(g.beta as int, x) % p,
                c,
                s as nat,
                g,
            )
        }),
{
    let p = g.p as int;
    let q = g.q as nat;
    let s = respond_spec(k as int, c as int, x as int, g.q as int) as nat;
    lemma_respond_exponent(k, c, x, q);
    lemma_lhs_reduce(g.alpha as int, p, q, x, c, s);
    lemma_lhs_reduce(g.beta as int, p, q, x, c, s);
    assert(((s + x * c) as nat % q) as int == (k as int) % (q as int)) by {
        lemma_mod_bound(k as int, q as int);
    }
    lemma_pow_cycle(g.alpha as int, k, q, p);
    lemma_pow_cycle(g.beta as int, k, q, p);
}

/// Non-forgery: against one set of commitments and one challenge, at most
/// one response below `q` passes verification, provided the generator's
/// exponentiation is injective. (With `alpha == 1` every response would
/// pass; such parameters are exactly the ones `exp_injective` rules out.)
pub proof fn lemma_non_forgery(
    g: GroupParameters,
    x: nat,
    c: nat,
    s1: nat,
    s2: nat,
    r1: int,
    r2: int,
)
    requires
        g.wf(),
        exp_injective(g.alpha as int, g.q as nat, g.p as int),
        s1 < g.q,
        s2 < g.q,
        verify_spec(
            r1,
            r2,
            pow(g.alpha as int, x) % (g.p as int),
            pow(g.beta as int, x) % (g.p as int),
            c,
            s1,
            g,
        ),
        verify_spec(
            r1,
            r2,
            pow(g.alpha as int, x) % (g.p as int),
            pow(g.beta as int, x) % (g.p as int),
            c,
            s2,
            g,
        ),
    ensures
        s1 == s2,
{
    let p = g.p as int;
    let q = g.q as nat;
    let a = g.alpha as int;
    lemma_lhs_reduce(a, p, q, x, c, s1);
    lemma_lhs_reduce(a, p, q, x, c, s2);
    let e1 = ((s1 + x * c) as nat % q) as nat;
    let e2 = ((s2 + x * c) as nat % q) as nat;
    lemma_mod_bound((s1 + x * c) as int, q as int);
    lemma_mod_bound((s2 + x * c) as int, q as int);
    assert(pow(a, e1) % p == pow(a, e2) % p);
    assert(e1 == e2);
    lemma_mod_add_cancel(s1 as int, s2 as int, (x * c) as int, q as int);
    lemma_small_mod(s1, q);
    lemma_small_mod(s2, q);
}

/// An honest login is always accepted: when a user's record holds the
/// commitment pairs of `x` and `k` together with the live challenge, the
/// response `(k - c*x) mod q` satisfies the record's verification
/// equations, so the coordinator issues a session.
pub proof fn lemma_honest_record_accepted(
    g: GroupParameters,
    rec: UserInfoV,
    x: nat,
    k: nat,
    sv: nat,
)
    requires
        g.wf(),
        rec.y1 == pow(g.alpha as int, x) % (g.p as int),
        rec.y2 == pow(g.beta as int, x) % (g.p as int),
        rec.r1 == pow(g.alpha as int, k) % (g.p as int),
        rec.r2 == pow(g.beta as int, k) % (g.p as int),
        sv as int == respond_spec(k as int, rec.c as int, x as int, g.q as int),
    ensures
        verify_spec(rec.r1 as int, rec.r2 as int, rec.y1 as int, rec.y2 as int, rec.c, sv, g),
{
    lemma_soundness(g, x, k, rec.c);
}

/// The generator 4 of the demonstration group has order exactly 11 modulo
/// 23: its first eleven powers are pairwise distinct, so `exp_injective`
/// holds of the constants that `GroupParameters::get_constants` returns.
pub proof fn lemma_toy_injective()
    ensures
        exp_injective(4, 11, 23),
{
    assert forall|i: nat, j: nat|
        i < 11 && j < 11 && #[trigger] (pow(4, i) % 23) == #[trigger] (pow(4, j) % 23) implies i
        == j by {
        reveal_with_fuel(pow, 12);
    }
}

/// Staleness: once a newer challenge `c2` has overwritten `c1` in the
/// record, the response computed for `c1` still passes verification exactly
/// when `x*c1` and `x*c2` agree modulo `q` — for a prime `q`, a nonzero
/// secret and distinct challenges they never do, so the stale response is
/// rejected.
pub proof fn lemma_staleness(g: GroupParameters, x: nat, k: nat, c1: nat, c2: nat)
    requires
        g.wf(),
        exp_injective(g.alpha as int, g.q as nat, g.p as int),
    ensures
        ({
            let p = g.p as int;
            let s1 = respond_spec(k as int, c1 as int, x as int, g.q as int);
            verify_spec(
                pow(g.alpha as int, k) % p,
                pow(g.beta as int, k) % p,
                pow(g.alpha as int, x) % p,
                pow(g.beta as int, x) % p,
                c2,
                s1 as nat,
                g,
            ) <==> (x * c1) % (g.q as nat) == (x * c2) % (g.q as nat)
        }),
{
    let p = g.p as int;
    let q = g.q as nat;
    let a = g.alpha as int;
    let b = g.beta as int;
    lemma_respond_exponent(k, c1, x, q);
    let s1 = respond_spec(k as int, c1 as int, x as int, g.q as int) as nat;
    lemma_lhs_reduce(a, p, q, x, c2, s1);
    lemma_lhs_reduce(b, p, q, x, c2, s1);
    lemma_pow_cycle(a, k, q, p);
    lemma_pow_cycle(b, k, q, p);
    lemma_mod_bound((s1 + x * c2) as int, q as int);
    lemma_mod_bound((s1 + x * c1) as int, q as int);
    lemma_mod_bound(k as int, q as int);
    if (x * c1) % q == (x * c2) % q {
        // the exponents agree, so both equations pass
        lemma_add_mod_noop(s1 as int, (x * c1) as int, q as int);
        lemma_add_mod_noop(s1 as int, (x * c2) as int, q as int);
        lemma_small_mod(s1, q);
        assert(((s1 + x * c2) as nat % q) as int == (k as int) % (q as int));
    } else {
        // were verification to pass, injectivity would force the exponents,
        // and with them the challenges, to agree
        if pow(a, ((s1 + x * c2) as nat % q) as nat) % p == pow(a, ((k % q) as nat)) % p {
            assert((s1 + x * c2) as int % (q as int) == (s1 + x * c1) as int % (q as int));
            lemma_mod_add_cancel((x * c2) as int, (x * c1) as int, s1 as int, q as int);
        }
    }
}

} // verus!
