use vstd::prelude::*;

use vstd::arithmetic::div_mod::lemma_fundamental_div_mod_converse;
use vstd::arithmetic::power2::{lemma2_to64, lemma2_to64_rest, lemma_pow2_adds, lemma_pow2_pos, lemma_pow2_strictly_increases, lemma_pow2_unfold, pow2};

verus! {

/// `n / unit`, rounded to the nearest integer with ties going to the even neighbour.
pub open spec fn round_half_even(n: nat, unit: nat) -> nat
    recommends
        unit > 0,
{
    let q = n / unit;
    let r = n % unit;
    if 2 * r > unit || (2 * r == unit && q % 2 == 1) {
        q + 1
    } else {
        q
    }
}

/// The number of binary digits of `x` (none for zero).
pub open spec fn bit_len(x: nat) -> nat
    decreases x,
{
    if x == 0 {
        0
    } else {
        1 + bit_len(x / 2)
    }
}

/// The binary64 value nearest the whole number `x` (ties to an even
/// significand): `x` itself when it has at most 53 binary digits.
pub open spec fn double_of_nat(x: nat) -> nat {
    if bit_len(x) <= 53 {
        x
    } else {
        let s = (bit_len(x) - 53) as nat;
        round_half_even(x, pow2(s)) * pow2(s)
    }
}

/// The exponent `k` (from `from` on) at which `n * 2^k` first reaches
/// `2^52 * 10^9`: the binary64 value nearest `n / 10^9` is then
/// `round_half_even(n * 2^k, 10^9) / 2^k`.
pub open spec fn nanos_exponent(n: nat, from: nat) -> nat
    decreases 100 - from,
{
    if from >= 100 || n * pow2(from) >= pow2(52) * 1_000_000_000 {
        from
    } else {
        nanos_exponent(n, from + 1)
    }
}

/// `secs + nanos / 10^9` computed in binary64 arithmetic, multiplied by
/// `scale` and rounded half to even to a whole number: the digits that
/// fixed-precision formatting of that binary64 value shows.
///
/// `a` is the double nearest `secs`, `bm / 2^k` the double nearest
/// `nanos / 10^9`, and, when `a` has `m + 1 <= 53` binary digits,
/// `xm / 2^(52 - m)` the double nearest their sum (the sum has the same
/// binary exponent as `a`, since the fraction is below one). When `a` has
/// more digits the fraction is below half a unit in the last place and the
/// sum is `a`.
pub open spec fn binary64_seconds_digits(secs: nat, nanos: nat, scale: nat) -> nat {
    let a = double_of_nat(secs);
    let k = if nanos == 0 { 0nat } else { nanos_exponent(nanos, 0) };
    let bm = round_half_even(nanos * pow2(k), 1_000_000_000);
    let m = (bit_len(a) - 1) as nat;
    if m <= 52 {
        let t = (52 - m) as nat;
        let xm = round_half_even((a * pow2(k) + bm) * pow2(t), pow2(k));
        round_half_even(xm * scale, pow2(t))
    } else {
        a * scale
    }
}

proof fn lemma_bit_len(x: nat)
    ensures
        x < pow2(bit_len(x)),
        x > 0 ==> pow2((bit_len(x) - 1) as nat) <= x,
    decreases x,
{
    if x > 0 {
        lemma_bit_len(x / 2);
        lemma_pow2_unfold(bit_len(x));
        if x / 2 > 0 {
            lemma_pow2_unfold((bit_len(x) - 1) as nat);
        } else {
            assert(bit_len(x / 2) == 0);
            lemma2_to64();
        }
    } else {
        lemma_pow2_pos(0);
    }
}

proof fn lemma_bit_len_bound(x: nat, n: nat)
    requires
        x < pow2(n),
    ensures
        bit_len(x) <= n,
{
    lemma_bit_len(x);
    if bit_len(x) > n {
        if n < (bit_len(x) - 1) as nat {
            lemma_pow2_strictly_increases(n, (bit_len(x) - 1) as nat);
        }
    }
}

proof fn lemma_rhe_bounds(n: nat, unit: nat)
    requires
        unit > 0,
    ensures
        n / unit <= round_half_even(n, unit) <= n / unit + 1,
{
}

proof fn lemma_div_below(x: nat, d: nat, c: nat)
    requires
        d > 0,
        x < c * d,
    ensures
        x / d < c,
{
    vstd::arithmetic::div_mod::lemma_fundamental_div_mod(x as int, d as int);
    let q = x / d;
    if q >= c {
        assert(q * d >= c * d) by (nonlinear_arith)
            requires
                q >= c,
                d > 0,
        ;
    }
}

proof fn lemma_div_below_floor(x: nat, d: nat, c: nat)
    requires
        d > 0,
        c * d <= x,
    ensures
        c <= x / d,
{
    vstd::arithmetic::div_mod::lemma_fundamental_div_mod(x as int, d as int);
    let q = x / d;
    if q < c {
        assert(q * d + d <= c * d) by (nonlinear_arith)
            requires
                q < c,
                d > 0,
        ;
    }
}

proof fn lemma_div_at_most(x: nat, d: nat, c: nat)
    requires
        d > 0,
        x <= c * d,
    ensures
        x / d <= c,
{
    assert((c + 1) * d == c * d + d) by (nonlinear_arith);
    lemma_div_below(x, d, c + 1);
}

/// Rounding `i * u + z` over `u` rounds `z` over `u` with the parity of the
/// whole quotient.
proof fn lemma_split_rounding(i: nat, z: nat, w: nat, u: nat)
    requires
        u > 0,
    ensures
        round_half_even(i * u + z * w, u) == ({
            let q = i + (z * w) / u;
            let r = (z * w) % u;
            if 2 * r > u || (2 * r == u && q % 2 == 1) { q + 1 } else { q }
        }),
{
    let zw = z * w;
    vstd::arithmetic::div_mod::lemma_fundamental_div_mod(zw as int, u as int);
    let q = i + zw / u;
    let r = zw % u;
    assert(i * u + zw == q * u + r) by (nonlinear_arith)
        requires
            zw == u * (zw / u) + r,
            q == i + zw / u,
    ;
    lemma_fundamental_div_mod_converse((i * u + zw) as int, u as int, q as int, r as int);
}

/// The exponent at which `n * 2^k` first reaches `2^52 * 10^9`, with that product.
fn nanos_exponent_exec(n: u128) -> (r: (u32, u128))
    requires
        1 <= n < 1_000_000_000,
    ensures
        r.0 == nanos_exponent(n as nat, 0),
        53 <= r.0 <= 83,
        r.1 == n * pow2(r.0 as nat),
        r.1 < pow2(53) * 1_000_000_000,
{
    proof {
        lemma2_to64();
        lemma2_to64_rest();
    }
    let bound = pow2_exec(52) * 1_000_000_000;
    let mut k: u32 = 0;
    let mut v: u128 = n;
    while v < bound
        invariant
            bound == pow2(52) * 1_000_000_000,
            pow2(52) == 0x10000000000000,
            1 <= n < 1_000_000_000,
            k <= 83,
            v == n * pow2(k as nat),
            v < 2 * bound,
            nanos_exponent(n as nat, 0) == nanos_exponent(n as nat, k as nat),
        decreases 83 - k,
    {
        proof {
            if k >= 83 {
                lemma_pow2_adds(64, 19);
                lemma2_to64();
                assert(pow2(83) == 0x800000000000000000000);
                if k > 83 {
                    lemma_pow2_strictly_increases(83, k as nat);
                }
                assert(v >= pow2(k as nat)) by (nonlinear_arith)
                    requires
                        v == n * pow2(k as nat),
                        n >= 1,
                ;
            }
            lemma_pow2_unfold(k as nat + 1);
            assert(v * 2 == n * pow2(k as nat + 1)) by (nonlinear_arith)
                requires
                    v == n * pow2(k as nat),
                    pow2(k as nat + 1) == 2 * pow2(k as nat),
            ;
        }
        v = v * 2;
        k = k + 1;
    }
    proof {
        if k <= 52 {
            if k < 52 {
                lemma_pow2_strictly_increases(k as nat, 52);
            }
            lemma_pow2_pos(k as nat);
            assert(v < bound) by (nonlinear_arith)
                requires
                    v == n * pow2(k as nat),
                    n < 1_000_000_000,
                    0 < pow2(k as nat) <= pow2(52),
                    bound == pow2(52) * 1_000_000_000,
            ;
        }
        lemma_pow2_unfold(53);
    }
    (k, v)
}

fn pow2_exec(e: u32) -> (r: u128)
    requires
        e <= 100,
    ensures
        r == pow2(e as nat),
{
    let mut r: u128 = 1;
    let mut i: u32 = 0;
    proof {
        lemma2_to64();
    }
    while i < e
        invariant
            i <= e <= 100,
            r == pow2(i as nat),
        decreases e - i,
    {
        proof {
            lemma_pow2_unfold((i + 1) as nat);
            if i + 1 < 100 {
                lemma_pow2_strictly_increases((i + 1) as nat, 100);
            }
            lemma_pow2_adds(64, 36);
            lemma2_to64();
            assert(pow2(36) == 0x1000000000) by {
                lemma_pow2_adds(32, 4);
            }
        }
        r = r * 2;
        i = i + 1;
    }
    r
}

fn bit_len_exec(x: u128) -> (r: u32)
    ensures
        r == bit_len(x as nat),
        r <= 128,
{
    proof {
        lemma2_to64();
        lemma_pow2_adds(64, 64);
        lemma_bit_len_bound(x as nat, 128);
    }
    let mut y = x;
    let mut c: u32 = 0;
    while y > 0
        invariant
            c + bit_len(y as nat) == bit_len(x as nat),
            bit_len(x as nat) <= 128,
        decreases y,
    {
        y = y / 2;
        c = c + 1;
    }
    c
}

fn round_half_even_exec(n: u128, unit: u128) -> (r: u128)
    requires
        0 < unit <= 0x1_0000_0000_0000_0000_0000_0000_0000,
        n < 0x1_0000_0000_0000_0000_0000_0000_0000,
    ensures
        r == round_half_even(n as nat, unit as nat),
{
    let q = n / unit;
    let rem = n % unit;
    if 2 * rem > unit || (2 * rem == unit && q % 2 == 1) {
        q + 1
    } else {
        q
    }
}

/// The binary64 value nearest a whole number below `2^65`.
fn nearest_double(secs: u128) -> (a: u128)
    requires
        1 <= secs < 0x2_0000_0000_0000_0000,
    ensures
        a == double_of_nat(secs as nat),
        1 <= a <= 0x2_0000_0000_0000_0000,
{
    proof {
        lemma2_to64();
        lemma2_to64_rest();
        lemma_pow2_unfold(65);
        lemma_bit_len(secs as nat);
        lemma_bit_len_bound(secs as nat, 65);
    }
    let bl = bit_len_exec(secs);
    if bl <= 53 {
        return secs;
    }
    let s = bl - 53;
    let ps = pow2_exec(s);
    proof {
        lemma_pow2_adds(53, s as nat);
        lemma_pow2_adds(52, s as nat);
        lemma_rhe_bounds(secs as nat, ps as nat);
        lemma_div_below(secs as nat, ps as nat, pow2(53));
        lemma_div_below_floor(secs as nat, ps as nat, pow2(52));
        lemma_pow2_pos(s as nat);
        assert((bl - 1) as nat == 52 + s);
    }
    let h = round_half_even_exec(secs, ps);
    proof {
        assert(h * ps <= pow2(53) * pow2(s as nat)) by (nonlinear_arith)
            requires
                h <= pow2(53),
                ps == pow2(s as nat),
        ;
        if bl < 65 {
            lemma_pow2_strictly_increases(bl as nat, 65);
        }
        assert(h * ps >= 1) by (nonlinear_arith)
            requires
                h >= 1,
                ps >= 1,
        ;
    }
    h * ps
}

/// The double nearest `(a * 2^k + bm) / 2^k`, for `a` of `m + 1 <= 53` binary
/// digits, times `scale` and rounded half to even.
fn sum_digits(a: u128, m: u32, bm: u128, k: u32, nanos_zero: bool, scale: u128) -> (r: u128)
    requires
        1 <= a,
        m <= 52,
        a < pow2(m as nat + 1),
        bm <= pow2(53),
        k <= 83,
        nanos_zero ==> bm == 0 && k == 0,
        !nanos_zero ==> k >= 53,
        scale == 10 || scale == 100,
    ensures
        r == ({
            let t = (52 - m) as nat;
            let xm = round_half_even((a as nat * pow2(k as nat) + bm as nat) * pow2(t), pow2(k as nat));
            round_half_even(xm * scale as nat, pow2(t))
        }),
{
    proof {
        lemma2_to64();
        lemma2_to64_rest();
    }
    let t = 52 - m;
    let pt = pow2_exec(t);
    let pk = pow2_exec(k);
    proof {
        lemma_pow2_adds(m as nat + 1, t as nat);
        lemma_pow2_pos(t as nat);
        lemma_pow2_pos(k as nat);
        assert(a * pt < pow2(53)) by (nonlinear_arith)
            requires
                a < pow2(m as nat + 1),
                pt == pow2(t as nat),
                pow2(53) == pow2(m as nat + 1) * pow2(t as nat),
                pt > 0,
        ;
        if t < 52 {
            lemma_pow2_strictly_increases(t as nat, 52);
        }
        assert(bm * pt <= pow2(53) * pow2(52)) by (nonlinear_arith)
            requires
                bm <= pow2(53),
                pt <= pow2(52),
        ;
        if k < 83 {
            lemma_pow2_strictly_increases(k as nat, 83);
        }
        lemma_pow2_adds(64, 19);
    }
    let z = bm * pt;
    proof {
        if !nanos_zero {
            lemma_pow2_adds(52, 53);
            if k > 53 {
                lemma_pow2_strictly_increases(53, k as nat);
            }
            assert(z <= pow2(52) * pk) by (nonlinear_arith)
                requires
                    z == bm * pt,
                    bm <= pow2(53),
                    pt <= pow2(52),
                    pow2(53) <= pk,
            ;
            lemma_div_at_most(z as nat, pk as nat, pow2(52));
        }
    }
    let q0 = z / pk;
    let rem = z % pk;
    let base = a * pt + q0;
    let xm = if 2 * rem > pk || (2 * rem == pk && base % 2 == 1) { base + 1 } else { base };
    proof {
        lemma_split_rounding(a as nat * pt as nat, bm as nat, pt as nat, pk as nat);
        assert((a as nat * pow2(k as nat) + bm as nat) * pow2(t as nat)
            == (a as nat * pt as nat) * pk as nat + bm as nat * pt as nat) by (nonlinear_arith)
            requires
                pk == pow2(k as nat),
                pt == pow2(t as nat),
        ;
    }
    round_half_even_exec(xm * scale, pt)
}

/// See `binary64_seconds_digits`.
pub fn seconds_digits(secs: u128, nanos: u128, scale: u128) -> (r: u128)
    requires
        1 <= secs < 0x2_0000_0000_0000_0000,
        nanos < 1_000_000_000,
        scale == 10 || scale == 100,
    ensures
        r == binary64_seconds_digits(secs as nat, nanos as nat, scale as nat),
{
    proof {
        lemma2_to64();
        lemma2_to64_rest();
    }
    let a = nearest_double(secs);
    let (k, v) = if nanos == 0 { (0u32, 0u128) } else { nanos_exponent_exec(nanos) };
    proof {
        lemma_div_below(v as nat, 1_000_000_000, pow2(53));
        lemma_rhe_bounds(v as nat, 1_000_000_000);
    }
    let bm = round_half_even_exec(v, 1_000_000_000);
    proof {
        if nanos == 0 {
            assert(v == nanos * pow2(k as nat));
        }
    }
    let al = bit_len_exec(a);
    proof {
        lemma_bit_len(a as nat);
    }
    let m = al - 1;
    if m <= 52 {
        sum_digits(a, m, bm, k, nanos == 0, scale)
    } else {
        a * scale
    }
}

} // verus!
