//! The integer that a JSON number literal denotes, read exactly from its digits.
use vstd::prelude::*;

use crate::json;

verus! {

pub open spec fn pow10(n: nat) -> nat
    decreases n,
{
    if n == 0 {
        1
    } else {
        10 * pow10((n - 1) as nat)
    }
}

/// The value of a sequence of decimal digits.
pub open spec fn digits_value(d: Seq<char>) -> nat
    decreases d.len(),
{
    if d.len() == 0 {
        0
    } else {
        digits_value(d.drop_last()) * 10 + (d.last() as int - '0' as int) as nat
    }
}

pub open spec fn all_digits(d: Seq<char>) -> bool {
    forall|i: int| 0 <= i < d.len() ==> json::is_ascii_digit(#[trigger] d[i])
}

// The parts of a literal `t`, found by the grammar of `number_end`.
pub open spec fn sign_end(t: Seq<char>) -> int {
    json::skip_char(t, 0, '-')
}

pub open spec fn int_end(t: Seq<char>) -> int {
    json::digits_end(t, sign_end(t))
}

pub open spec fn has_dot(t: Seq<char>) -> bool {
    0 <= int_end(t) < t.len() && t[int_end(t)] == '.'
}

pub open spec fn frac_end(t: Seq<char>) -> int {
    if has_dot(t) {
        json::digits_end(t, int_end(t) + 1)
    } else {
        int_end(t)
    }
}

pub open spec fn has_exp(t: Seq<char>) -> bool {
    0 <= frac_end(t) < t.len() && (t[frac_end(t)] == 'e' || t[frac_end(t)] == 'E')
}

pub open spec fn exp_plus_end(t: Seq<char>) -> int {
    json::skip_char(t, frac_end(t) + 1, '+')
}

pub open spec fn exp_digits_start(t: Seq<char>) -> int {
    json::skip_char(t, exp_plus_end(t), '-')
}

/// The digits of the significand: those before and after the point.
pub open spec fn significand(t: Seq<char>) -> Seq<char> {
    t.subrange(sign_end(t), int_end(t)) + (if has_dot(t) {
        t.subrange(int_end(t) + 1, frac_end(t))
    } else {
        Seq::empty()
    })
}

pub open spec fn fraction_len(t: Seq<char>) -> nat {
    if has_dot(t) {
        (frac_end(t) - int_end(t) - 1) as nat
    } else {
        0
    }
}

pub open spec fn exponent(t: Seq<char>) -> int {
    if has_exp(t) {
        let v = digits_value(t.subrange(exp_digits_start(t), json::number_end(t, 0))) as int;
        if exp_digits_start(t) > exp_plus_end(t) {
            -v
        } else {
            v
        }
    } else {
        0
    }
}

/// Whether `t` is exactly one decimal number literal.
pub open spec fn is_decimal_literal(t: Seq<char>) -> bool {
    &&& t.len() > 0
    &&& (t[0] == '-' || json::is_ascii_digit(t[0]))
    &&& json::number_end(t, 0) == t.len()
    &&& json::number_is_decimal(t, 0)
}

/// The integer `±digits × 10^e / 10^frac`, if it is one.
pub open spec fn scaled_integer(digits: Seq<char>, frac: nat, e: int, negative: bool) -> Option<int> {
    let num = digits_value(digits) * pow10(if e >= 0 { e as nat } else { 0 });
    let den = pow10(frac + (if e < 0 { (-e) as nat } else { 0nat }));
    if num % den == 0 {
        let v = (num / den) as int;
        Some(if negative { -v } else { v })
    } else {
        None
    }
}

/// The integer that the literal `t` denotes, if it denotes one:
/// significand × 10^exponent / 10^fraction_len, with the sign.
pub open spec fn literal_integer(t: Seq<char>) -> Option<int> {
    if !is_decimal_literal(t) {
        None
    } else {
        scaled_integer(significand(t), fraction_len(t), exponent(t), sign_end(t) > 0)
    }
}

/// The whole numbers from which on a literal, read as an `f64`, is infinite:
/// at least 17976931348623159 × 10^292 in magnitude, just above `f64::MAX`.
pub open spec fn f64_limit() -> int {
    (17976931348623159 * pow10(292)) as int
}

/// `x` saturated to the range of an `i64`.
pub open spec fn saturated(x: int) -> i64 {
    if x > i64::MAX {
        i64::MAX
    } else if x < i64::MIN {
        i64::MIN
    } else {
        x as i64
    }
}

/// `Some` of `v` saturated to an `i64`, unless it is too large for an `f64`.
pub open spec fn as_i64_saturating(v: Option<int>) -> Option<i64> {
    match v {
        Some(x) => if -f64_limit() < x < f64_limit() {
            Some(saturated(x))
        } else {
            None
        },
        None => None,
    }
}

/// The `i64` that the literal `t` denotes, if it denotes an integer: saturated
/// to the range of an `i64`, and none when it is too large for an `f64`.
pub open spec fn literal_i64(t: Seq<char>) -> Option<i64> {
    as_i64_saturating(literal_integer(t))
}


// ---------------------------------------------------------------------------
// Facts about digits and powers of ten.
// ---------------------------------------------------------------------------

pub proof fn lemma_pow10_positive(n: nat)
    ensures
        pow10(n) >= 1,
    decreases n,
{
    if n > 0 {
        lemma_pow10_positive((n - 1) as nat);
    }
}

pub proof fn lemma_pow10_add(a: nat, b: nat)
    ensures
        pow10(a + b) == pow10(a) * pow10(b),
    decreases b,
{
    if b > 0 {
        let r = (b - 1) as nat;
        lemma_pow10_add(a, r);
        assert((a + b - 1) as nat == a + r);
        assert(pow10(a + b) == 10 * pow10(a + r));
        assert(pow10(b) == 10 * pow10(r));
        let x = pow10(a);
        let y = pow10(r);
        assert(x * (10 * y) == 10 * (x * y)) by (nonlinear_arith);
        assert(pow10(a + b) == pow10(a) * pow10(b));
    } else {
        assert(pow10(0) == 1);
        assert(a + b == a);
    }
}

pub proof fn lemma_pow10_monotone(a: nat, b: nat)
    requires
        a <= b,
    ensures
        pow10(a) <= pow10(b),
    decreases b,
{
    if a < b {
        lemma_pow10_monotone(a, (b - 1) as nat);
        lemma_pow10_positive((b - 1) as nat);
    }
}

pub proof fn lemma_digits_value_append(a: Seq<char>, b: Seq<char>)
    ensures
        digits_value(a + b) == digits_value(a) * pow10(b.len()) + digits_value(b),
    decreases b.len(),
{
    if b.len() == 0 {
        assert(a + b =~= a);
        assert(digits_value(b) == 0);
        assert(pow10(0) == 1);
    } else {
        lemma_digits_value_append(a, b.drop_last());
        assert((a + b).drop_last() =~= a + b.drop_last());
        assert((a + b).last() == b.last());
        let x = digits_value(a);
        let y = digits_value(b.drop_last());
        let p = pow10(b.drop_last().len());
        let c = (b.last() as int - '0' as int) as nat;
        assert(pow10(b.len()) == 10 * p);
        assert(digits_value(b) == y * 10 + c);
        assert(digits_value(a + b) == digits_value(a + b.drop_last()) * 10 + c);
        assert(digits_value(a + b.drop_last()) == x * p + y);
        assert((x * p + y) * 10 + c == x * (10 * p) + (y * 10 + c)) by (nonlinear_arith);
        assert(digits_value(a + b) == digits_value(a) * pow10(b.len()) + digits_value(b));
    }
}

pub proof fn lemma_digits_value_zeros(z: Seq<char>)
    requires
        forall|i: int| 0 <= i < z.len() ==> z[i] == '0',
    ensures
        digits_value(z) == 0,
    decreases z.len(),
{
    if z.len() > 0 {
        lemma_digits_value_zeros(z.drop_last());
    }
}

pub proof fn lemma_digits_value_bounds(d: Seq<char>)
    requires
        all_digits(d),
    ensures
        digits_value(d) < pow10(d.len()),
        d.len() > 0 && d[0] != '0' ==> digits_value(d) >= pow10((d.len() - 1) as nat),
    decreases d.len(),
{
    if d.len() > 0 {
        let r = d.drop_last();
        lemma_digits_value_bounds(r);
        let x = digits_value(r);
        let c = d.last() as int - '0' as int;
        assert(json::is_ascii_digit(d[d.len() - 1]));
        assert(x * 10 + c < pow10(r.len()) * 10) by (nonlinear_arith)
            requires
                x < pow10(r.len()),
                0 <= c < 10,
        ;
        if d[0] != '0' && d.len() > 1 {
            assert(r[0] == d[0]);
            assert(x * 10 + c >= pow10((r.len() - 1) as nat) * 10) by (nonlinear_arith)
                requires
                    x >= pow10((r.len() - 1) as nat),
                    0 <= c,
            ;
            assert(pow10((d.len() - 1) as nat) == 10 * pow10((r.len() - 1) as nat));
        } else if d[0] != '0' {
            assert(r.len() == 0);
            assert(x == 0);
            assert(c >= 1);
        }
    }
}

/// A multiple of 10^j with j >= 1 ends in the digit 0.
pub proof fn lemma_pow10_divides(x: int, j: nat)
    requires
        j >= 1,
        x % (pow10(j) as int) == 0,
    ensures
        x % 10 == 0,
{
    lemma_pow10_add(1, (j - 1) as nat);
    let q = pow10((j - 1) as nat) as int;
    lemma_pow10_positive((j - 1) as nat);
    let k = x / (pow10(j) as int);
    vstd::arithmetic::div_mod::lemma_fundamental_div_mod(x, pow10(j) as int);
    assert(x == (k * q) * 10) by (nonlinear_arith)
        requires
            x == (pow10(j) as int) * k + x % (pow10(j) as int),
            x % (pow10(j) as int) == 0,
            pow10(j) as int == 10 * q,
    ;
    vstd::arithmetic::div_mod::lemma_mod_multiples_basic(k * q, 10);
}

/// The exact quotient of c × 10^a by 10^b, for c not ending in the digit 0.
pub proof fn lemma_scaled_division(c: nat, a: nat, b: nat)
    requires
        c % 10 != 0,
    ensures
        ((c * pow10(a)) as int) % (pow10(b) as int) == 0 <==> a >= b,
        a >= b ==> ((c * pow10(a)) as int) / (pow10(b) as int) == c * pow10((a - b) as nat),
{
    lemma_pow10_positive(a);
    lemma_pow10_positive(b);
    if a >= b {
        let d = (a - b) as nat;
        lemma_pow10_add(d, b);
        lemma_pow10_positive(d);
        let m = (c * pow10(d)) as int;
        assert((c * pow10(a)) as int == m * (pow10(b) as int)) by (nonlinear_arith)
            requires
                pow10(a) == pow10(d) * pow10(b),
                m == c * pow10(d),
        ;
        vstd::arithmetic::div_mod::lemma_fundamental_div_mod_converse(
            (c * pow10(a)) as int,
            pow10(b) as int,
            m,
            0,
        );
    } else {
        let d = (b - a) as nat;
        lemma_pow10_add(a, d);
        lemma_pow10_positive(d);
        if ((c * pow10(a)) as int) % (pow10(b) as int) == 0 {
            let k = ((c * pow10(a)) as int) / (pow10(b) as int);
            vstd::arithmetic::div_mod::lemma_fundamental_div_mod(
                (c * pow10(a)) as int,
                pow10(b) as int,
            );
            assert(c * pow10(a) == (k * pow10(d)) * pow10(a)) by (nonlinear_arith)
                requires
                    (c * pow10(a)) as int == (pow10(b) as int) * k,
                    pow10(b) == pow10(a) * pow10(d),
            ;
            assert(c == k * pow10(d)) by (nonlinear_arith)
                requires
                    c * pow10(a) == (k * pow10(d)) * pow10(a),
                    pow10(a) >= 1,
            ;
            vstd::arithmetic::div_mod::lemma_mod_multiples_basic(k, pow10(d) as int);
            assert((k * pow10(d)) % (pow10(d) as int) == 0);
            lemma_pow10_divides(c as int, d);
        }
    }
}


/// A significand with `lz` leading and `|sig| - hz` trailing zeros, around the
/// digits `sig[lz..hz]` that start and end with a non-zero digit.
pub proof fn lemma_core_value(sig: Seq<char>, lz: int, hz: int)
    requires
        0 <= lz < hz <= sig.len(),
        all_digits(sig),
        forall|i: int| 0 <= i < lz ==> sig[i] == '0',
        forall|i: int| hz <= i < sig.len() ==> sig[i] == '0',
        sig[lz] != '0',
        sig[hz - 1] != '0',
    ensures
        digits_value(sig) == digits_value(sig.subrange(lz, hz)) * pow10((sig.len() - hz) as nat),
        digits_value(sig.subrange(lz, hz)) % 10 != 0,
        pow10((hz - lz - 1) as nat) <= digits_value(sig.subrange(lz, hz)) < pow10((hz - lz) as nat),
{
    let zl = sig.subrange(0, lz);
    let core = sig.subrange(lz, hz);
    let zt = sig.subrange(hz, sig.len() as int);
    assert(sig =~= zl + (core + zt));
    lemma_digits_value_append(zl, core + zt);
    lemma_digits_value_append(core, zt);
    lemma_digits_value_zeros(zl);
    lemma_digits_value_zeros(zt);
    assert(all_digits(core));
    lemma_digits_value_bounds(core);
    let c = (core.last() as int - '0' as int);
    assert(json::is_ascii_digit(core[core.len() - 1]));
    assert(1 <= c <= 9);
    vstd::arithmetic::div_mod::lemma_fundamental_div_mod_converse(
        digits_value(core) as int,
        10,
        digits_value(core.drop_last()) as int,
        c,
    );
}

const EXPONENT_CAP: u128 = 1_000_000_000_000_000_000_000_000_000_000u128;

/// The first position at or after `p` that holds no ASCII digit.
fn scan_digits(t: &Vec<char>, p: usize) -> (r: usize)
    requires
        p <= t@.len(),
    ensures
        r == json::digits_end(t@, p as int),
        p <= r <= t@.len(),
{
    proof {
        json::lemma_digits_end(t@, p as int);
    }
    let mut i = p;
    while i < t.len() && '0' <= t[i] && t[i] <= '9'
        invariant
            p <= i <= t@.len(),
            json::digits_end(t@, i as int) == json::digits_end(t@, p as int),
        decreases t@.len() - i,
    {
        i += 1;
    }
    i
}

/// The value of the digits `t[lo..hi]`, or `EXPONENT_CAP` when it is at least that.
fn capped_value(t: &Vec<char>, lo: usize, hi: usize) -> (r: u128)
    requires
        lo <= hi <= t@.len(),
        all_digits(t@.subrange(lo as int, hi as int)),
    ensures
        digits_value(t@.subrange(lo as int, hi as int)) >= EXPONENT_CAP ==> r == EXPONENT_CAP,
        digits_value(t@.subrange(lo as int, hi as int)) < EXPONENT_CAP ==> r == digits_value(
            t@.subrange(lo as int, hi as int),
        ),
{
    let mut v: u128 = 0;
    let mut i = lo;
    while i < hi
        invariant
            lo <= i <= hi <= t@.len(),
            all_digits(t@.subrange(lo as int, hi as int)),
            v <= EXPONENT_CAP,
            digits_value(t@.subrange(lo as int, i as int)) >= EXPONENT_CAP ==> v == EXPONENT_CAP,
            digits_value(t@.subrange(lo as int, i as int)) < EXPONENT_CAP ==> v == digits_value(
                t@.subrange(lo as int, i as int),
            ),
        decreases hi - i,
    {
        let ghost prev = t@.subrange(lo as int, i as int);
        assert(t@.subrange(lo as int, i + 1).drop_last() =~= prev);
        assert(t@.subrange(lo as int, hi as int)[i - lo] == t@[i as int]);
        let d = (t[i] as u32 - '0' as u32) as u128;
        if v >= EXPONENT_CAP {
            v = EXPONENT_CAP;
        } else {
            v = v * 10 + d;
            if v > EXPONENT_CAP {
                v = EXPONENT_CAP;
            }
        }
        i += 1;
    }
    v
}


/// The `i64` that `±sig × 10^e / 10^frac` denotes, when it is an integer that fits;
/// `e` is given by its sign and its magnitude capped at `EXPONENT_CAP`.
fn scaled_to_i64(sig: &Vec<char>, frac: usize, emag: u128, exp_negative: bool, negative: bool, Ghost(e): Ghost<int>) -> (r: Option<i64>)
    requires
        all_digits(sig@),
        frac <= sig@.len(),
        emag <= EXPONENT_CAP,
        exp_negative ==> e <= 0,
        !exp_negative ==> e >= 0,
        emag < EXPONENT_CAP ==> (if exp_negative { e == -(emag as int) } else { e == emag }),
        emag == EXPONENT_CAP ==> (if exp_negative { e <= -(EXPONENT_CAP as int) } else { e >= EXPONENT_CAP }),
    ensures
        r == as_i64_saturating(scaled_integer(sig@, frac as nat, e, negative)),
{
    let mut lz: usize = 0;
    while lz < sig.len() && sig[lz] == '0'
        invariant
            lz <= sig@.len(),
            forall|k: int| 0 <= k < lz ==> sig@[k] == '0',
        decreases sig@.len() - lz,
    {
        lz += 1;
    }
    let ghost ep: nat = if e >= 0 { e as nat } else { 0 };
    let ghost en: nat = if e < 0 { (-e) as nat } else { 0nat };
    if lz == sig.len() {
        proof {
            lemma_zero_scaled(sig@, frac as nat, e, negative);
            lemma_f64_limit();
        }
        return Some(0);
    }
    let mut hz: usize = sig.len();
    while sig[hz - 1] == '0'
        invariant
            lz < hz <= sig@.len(),
            sig@[lz as int] != '0',
            forall|k: int| hz <= k < sig@.len() ==> sig@[k] == '0',
        decreases hz,
    {
        hz -= 1;
    }
    let clen = hz - lz;
    let tz = sig.len() - hz;
    let ghost cv = digits_value(sig@.subrange(lz as int, hz as int));
    proof {
        lemma_core_value(sig@, lz as int, hz as int);
        lemma_scaled_core(sig@, frac as nat, e, negative, lz as int, hz as int);
    }
    let k: i128 = if exp_negative {
        tz as i128 - emag as i128 - frac as i128
    } else {
        tz as i128 + emag as i128 - frac as i128
    };
    if k < 0 {
        proof {
            assert((tz as nat + ep) < (frac as nat + en));
        }
        return None;
    }
    let ghost kk: nat = ((tz as nat + ep) - (frac as nat + en)) as nat;
    let ghost x: int = if negative { -(cv * pow10(kk)) } else { cv * pow10(kk) as int };
    assert(scaled_integer(sig@, frac as nat, e, negative) == Some(x));
    let n: i128 = clen as i128 + k;
    if n > 19 {
        proof {
            assert(clen + kk >= 20);
            lemma_too_large(cv, clen as nat, kk);
            lemma_magnitude(cv, clen as nat, kk);
            lemma_f64_limit();
        }
        if n >= 310 {
            proof {
                lemma_pow10_monotone(309, (clen + kk - 1) as nat);
            }
            return None;
        }
        if n <= 308 {
            proof {
                lemma_pow10_monotone((clen + kk) as nat, 308);
            }
            return Some(if negative { i64::MIN } else { i64::MAX });
        }
        let m: usize = if clen <= 17 { clen } else { 17 };
        let lead = leading_value(sig, lz, m);
        let mut p17: u128 = lead;
        let mut z: usize = m;
        assert(pow10(0) == 1);
        assert(lead * pow10(0) == lead) by (nonlinear_arith)
            requires
                pow10(0) == 1,
        ;
        while z < 17
            invariant
                m <= z <= 17,
                lead < pow10(m as nat),
                p17 == lead * pow10((z - m) as nat),
            decreases 17 - z,
        {
            proof {
                let q = pow10((z - m) as nat);
                lemma_pow10_positive((z - m) as nat);
                lemma_pow10_add(m as nat, (z - m) as nat);
                lemma_pow10_monotone((z + 1) as nat, 17);
                lemma_pow10_17();
                assert(pow10((z + 1) as nat) == 10 * pow10(z as nat));
                assert(((z + 1 - m) as nat) == ((z - m) as nat) + 1);
                assert(pow10(((z - m) as nat) + 1) == 10 * q);
                assert(lead * q * 10 < pow10((z + 1) as nat) && lead * (10 * q) == lead * q * 10) by (nonlinear_arith)
                    requires
                        lead < pow10(m as nat),
                        pow10(z as nat) == pow10(m as nat) * q,
                        pow10((z + 1) as nat) == 10 * pow10(z as nat),
                        q >= 1,
                {
                }
            }
            p17 = p17 * 10;
            z += 1;
        }
        proof {
            lemma_prefix_decides(sig@, lz as int, hz as int, m as nat, kk, lead as nat, p17 as nat);
        }
        if p17 >= 17976931348623159u128 {
            return None;
        }
        return Some(if negative { i64::MIN } else { i64::MAX });
    }
    assert(k == kk);
    let mut cvx: u128 = 0;
    let mut j = lz;
    while j < hz
        invariant
            lz <= j <= hz <= sig@.len(),
            hz - lz <= 19,
            all_digits(sig@),
            cvx == digits_value(sig@.subrange(lz as int, j as int)),
            cvx < pow10((j - lz) as nat),
        decreases hz - j,
    {
        proof {
            lemma_pow10_19();
            lemma_pow10_monotone((j - lz + 1) as nat, 19);
            assert(sig@.subrange(lz as int, j + 1).drop_last() =~= sig@.subrange(lz as int, j as int));
            assert(json::is_ascii_digit(sig@[j as int]));
        }
        let d = (sig[j] as u32 - '0' as u32) as u128;
        cvx = cvx * 10 + d;
        j += 1;
    }
    let kx = k as u32;
    let mut scale: u128 = 1;
    let mut m: u32 = 0;
    while m < kx
        invariant
            m <= kx,
            kx + clen <= 19,
            scale == pow10(m as nat),
        decreases kx - m,
    {
        proof {
            lemma_pow10_19();
            lemma_pow10_monotone((m + 1) as nat, 19);
        }
        scale = scale * 10;
        m += 1;
    }
    proof {
        lemma_pow10_19();
        lemma_pow10_add(clen as nat, kx as nat);
        lemma_pow10_monotone((clen + kx) as nat, 19);
        lemma_pow10_positive(kx as nat);
        lemma_f64_limit();
        assert(cvx < pow10(clen as nat));
        assert(cvx * scale < pow10(clen as nat) * pow10(kx as nat)) by (nonlinear_arith)
            requires
                cvx < pow10(clen as nat),
                scale == pow10(kx as nat),
                scale >= 1,
        ;
    }
    let value = cvx * scale;
    if negative {
        if value <= 9223372036854775808u128 {
            Some((0i128 - value as i128) as i64)
        } else {
            Some(i64::MIN)
        }
    } else {
        if value <= 9223372036854775807u128 {
            Some(value as i64)
        } else {
            Some(i64::MAX)
        }
    }
}

/// The value of the `m` digits of `sig` from `lo` on.
fn leading_value(sig: &Vec<char>, lo: usize, m: usize) -> (r: u128)
    requires
        lo + m <= sig@.len(),
        m <= 19,
        all_digits(sig@),
    ensures
        r == digits_value(sig@.subrange(lo as int, lo + m)),
        r < pow10(m as nat),
{
    let total = sig.len();
    let end = lo + m;
    let mut v: u128 = 0;
    let mut j = lo;
    while j < end
        invariant
            end == lo + m,
            lo <= j <= lo + m <= sig@.len(),
            m <= 19,
            all_digits(sig@),
            v == digits_value(sig@.subrange(lo as int, j as int)),
            v < pow10((j - lo) as nat),
        decreases end - j,
    {
        proof {
            lemma_pow10_19();
            lemma_pow10_monotone((j - lo + 1) as nat, 19);
            assert(sig@.subrange(lo as int, j + 1).drop_last() =~= sig@.subrange(lo as int, j as int));
            assert(json::is_ascii_digit(sig@[j as int]));
        }
        let d = (sig[j] as u32 - '0' as u32) as u128;
        v = v * 10 + d;
        j += 1;
    }
    v
}

pub proof fn lemma_pow10_17()
    ensures
        pow10(16) == 10000000000000000nat,
        pow10(17) == 100000000000000000nat,
{
    reveal_with_fuel(pow10, 18);
}

/// The limit lies between 10^308 and 10^309, above every `i64`.
pub proof fn lemma_f64_limit()
    ensures
        pow10(308) <= f64_limit() < pow10(309),
        f64_limit() > 10000000000000000000,
{
    lemma_pow10_17();
    lemma_pow10_add(16, 292);
    lemma_pow10_add(17, 292);
    lemma_pow10_positive(292);
    let p = pow10(292);
    assert(10000000000000000 * p <= 17976931348623159 * p < 100000000000000000 * p) by (nonlinear_arith)
        requires
            p >= 1,
    ;
    lemma_pow10_19();
    lemma_pow10_monotone(19, 308);
}

/// A number of `clen` significant digits (the first not zero) times `10^k`
/// lies in `[10^(clen + k - 1), 10^(clen + k))`.
proof fn lemma_magnitude(cv: nat, clen: nat, k: nat)
    requires
        clen >= 1,
        pow10((clen - 1) as nat) <= cv < pow10(clen),
    ensures
        pow10((clen + k - 1) as nat) <= cv * pow10(k) < pow10(clen + k),
{
    lemma_pow10_add((clen - 1) as nat, k);
    lemma_pow10_add(clen, k);
    lemma_pow10_positive(k);
    let p = pow10(k);
    assert(pow10((clen - 1) as nat) * p <= cv * p < pow10(clen) * p) by (nonlinear_arith)
        requires
            pow10((clen - 1) as nat) <= cv < pow10(clen),
            p >= 1,
    ;
}

pub proof fn lemma_pow10_19()
    ensures
        pow10(19) == 10000000000000000000nat,
{
    reveal_with_fuel(pow10, 20);
}

proof fn lemma_zero_scaled(sig: Seq<char>, frac: nat, e: int, negative: bool)
    requires
        forall|k: int| 0 <= k < sig.len() ==> sig[k] == '0',
    ensures
        scaled_integer(sig, frac, e, negative) == Some(0int),
{
    lemma_digits_value_zeros(sig);
    let ep: nat = if e >= 0 { e as nat } else { 0 };
    let en: nat = if e < 0 { (-e) as nat } else { 0nat };
    lemma_pow10_positive(frac + en);
    assert(0nat * pow10(ep) == 0);
    vstd::arithmetic::div_mod::lemma_fundamental_div_mod_converse(0, pow10(frac + en) as int, 0, 0);
}

/// In terms of the digits between the zeros: `±cv × 10^(tz + e⁺ - frac - e⁻)`.
proof fn lemma_scaled_core(sig: Seq<char>, frac: nat, e: int, negative: bool, lz: int, hz: int)
    requires
        0 <= lz < hz <= sig.len(),
        digits_value(sig) == digits_value(sig.subrange(lz, hz)) * pow10((sig.len() - hz) as nat),
        digits_value(sig.subrange(lz, hz)) % 10 != 0,
    ensures
        ({
            let cv = digits_value(sig.subrange(lz, hz));
            let ep: nat = if e >= 0 { e as nat } else { 0 };
            let en: nat = if e < 0 { (-e) as nat } else { 0nat };
            let a = (sig.len() - hz) as nat + ep;
            let b = frac + en;
            &&& a < b ==> scaled_integer(sig, frac, e, negative) is None
            &&& a >= b ==> scaled_integer(sig, frac, e, negative) == Some(
                if negative { -(cv * pow10((a - b) as nat)) } else { cv * pow10((a - b) as nat) as int },
            )
        }),
{
    let cv = digits_value(sig.subrange(lz, hz));
    let tz = (sig.len() - hz) as nat;
    let ep: nat = if e >= 0 { e as nat } else { 0 };
    let en: nat = if e < 0 { (-e) as nat } else { 0nat };
    lemma_pow10_add(tz, ep);
    assert(digits_value(sig) * pow10(ep) == cv * pow10(tz + ep)) by (nonlinear_arith)
        requires
            digits_value(sig) == cv * pow10(tz),
            pow10(tz + ep) == pow10(tz) * pow10(ep),
    ;
    lemma_scaled_division(cv, tz + ep, frac + en);
}

/// Among numbers of 309 digits, the first 17 decide whether one reaches the limit.
proof fn lemma_prefix_decides(sig: Seq<char>, lz: int, hz: int, m: nat, kk: nat, lead: nat, p17: nat)
    requires
        0 <= lz < hz <= sig.len(),
        all_digits(sig),
        (hz - lz) + kk == 309,
        m == (if hz - lz <= 17 { (hz - lz) as nat } else { 17nat }),
        lead == digits_value(sig.subrange(lz, lz + m)),
        p17 == lead * pow10((17 - m) as nat),
    ensures
        (digits_value(sig.subrange(lz, hz)) * pow10(kk) >= f64_limit()) <==> p17 >= 17976931348623159,
{
    let core = sig.subrange(lz, hz);
    let clen = (hz - lz) as nat;
    let cv = digits_value(core);
    let l = pow10(292);
    let d: nat = 17976931348623159;
    lemma_pow10_positive(292);
    if clen <= 17 {
        assert(sig.subrange(lz, lz + m) =~= core);
        lemma_pow10_add((17 - clen) as nat, 292);
        assert(kk == (17 - clen) as nat + 292);
        assert(cv * pow10(kk) == p17 * l) by (nonlinear_arith)
            requires
                pow10(kk) == pow10((17 - clen) as nat) * l,
                p17 == cv * pow10((17 - clen) as nat),
        ;
        assert((p17 * l >= d * l) <==> p17 >= d) by (nonlinear_arith)
            requires
                l >= 1,
        ;
    } else {
        let a = sig.subrange(lz, lz + 17);
        let b = sig.subrange(lz + 17, hz);
        assert(a + b =~= core);
        assert(pow10(0) == 1);
        assert((17 - m) as nat == 0);
        assert(lead * pow10(0) == lead) by (nonlinear_arith)
            requires
                pow10(0) == 1,
        ;
        assert(p17 == lead);
        lemma_digits_value_append(a, b);
        assert(all_digits(b)) by {
            assert forall|i: int| 0 <= i < b.len() implies json::is_ascii_digit(#[trigger] b[i]) by {
                assert(b[i] == sig[lz + 17 + i]);
            }
        }
        lemma_digits_value_bounds(b);
        let r = (clen - 17) as nat;
        assert(b.len() == r);
        let db = digits_value(b);
        lemma_pow10_add(r, kk);
        assert(r + kk == 292);
        let pk = pow10(kk);
        let pr = pow10(r);
        lemma_pow10_positive(kk);
        assert(cv == lead * pr + db);
        assert(lead * l <= cv * pk < (lead + 1) * l) by (nonlinear_arith)
            requires
                cv == lead * pr + db,
                db < pr,
                l == pr * pk,
                pk >= 1,
        ;
        assert((cv * pk >= d * l) <==> lead >= d) by (nonlinear_arith)
            requires
                lead * l <= cv * pk < (lead + 1) * l,
                l >= 1,
        ;
    }
}

/// A value with at least 20 digits does not fit in an `i64`.
proof fn lemma_too_large(cv: nat, clen: nat, k: nat)
    requires
        clen >= 1,
        cv >= pow10((clen - 1) as nat),
        clen + k >= 20,
    ensures
        cv * pow10(k) > 9223372036854775808,
{
    lemma_pow10_add((clen - 1) as nat, k);
    lemma_pow10_monotone(19, (clen - 1 + k) as nat);
    lemma_pow10_19();
    assert(cv * pow10(k) >= pow10((clen - 1) as nat) * pow10(k)) by (nonlinear_arith)
        requires
            cv >= pow10((clen - 1) as nat),
    ;
}


/// The digits of the significand of a decimal literal.
fn significand_digits(t: &Vec<char>, s_end: usize, i_end: usize, dot: bool, f_end: usize) -> (r: Vec<char>)
    requires
        is_decimal_literal(t@),
        s_end == sign_end(t@),
        i_end == int_end(t@),
        dot == has_dot(t@),
        f_end == frac_end(t@),
    ensures
        r@ == significand(t@),
        all_digits(r@),
{
    proof {
        json::lemma_digits_end(t@, s_end as int);
        if dot {
            json::lemma_digits_end(t@, i_end + 1);
        }
    }
    let mut sig: Vec<char> = Vec::new();
    let mut i = s_end;
    while i < i_end
        invariant
            s_end <= i <= i_end <= t@.len(),
            sig@ == t@.subrange(s_end as int, i as int),
        decreases i_end - i,
    {
        sig.push(t[i]);
        i += 1;
        assert(sig@ =~= t@.subrange(s_end as int, i as int));
    }
    if dot {
        let mut j = i_end + 1;
        while j < f_end
            invariant
                i_end + 1 <= j <= f_end <= t@.len(),
                sig@ == t@.subrange(s_end as int, i_end as int) + t@.subrange(i_end + 1, j as int),
            decreases f_end - j,
        {
            sig.push(t[j]);
            j += 1;
            assert(sig@ =~= t@.subrange(s_end as int, i_end as int) + t@.subrange(
                i_end + 1,
                j as int,
            ));
        }
    } else {
        assert(sig@ =~= t@.subrange(s_end as int, i_end as int) + Seq::<char>::empty());
    }
    proof {
        assert forall|k: int| 0 <= k < sig@.len() implies json::is_ascii_digit(#[trigger] sig@[k]) by {
            if k < i_end - s_end {
                assert(sig@[k] == t@[s_end + k]);
            } else {
                assert(sig@[k] == t@[i_end + 1 + (k - (i_end - s_end))]);
            }
        }
    }
    sig
}

/// Where the parts of a decimal literal end.
struct Shape {
    sign_end: usize,
    int_end: usize,
    has_dot: bool,
    frac_end: usize,
    has_exp: bool,
    plus_end: usize,
    digits_start: usize,
}

/// The parts of `t`, when it is a decimal literal.
#[verifier::rlimit(30)]
fn scan_literal(t: &Vec<char>) -> (r: Option<Shape>)
    ensures
        r is None <==> !is_decimal_literal(t@),
        r matches Some(sh) ==> {
            &&& sh.sign_end == sign_end(t@)
            &&& sh.int_end == int_end(t@)
            &&& sh.has_dot == has_dot(t@)
            &&& sh.frac_end == frac_end(t@)
            &&& sh.has_exp == has_exp(t@)
            &&& sh.has_exp ==> sh.plus_end == exp_plus_end(t@)
            &&& sh.has_exp ==> sh.digits_start == exp_digits_start(t@)
            &&& sh.has_exp ==> sh.digits_start <= t@.len()
        },
{
    let n = t.len();
    if n == 0 || !(t[0] == '-' || ('0' <= t[0] && t[0] <= '9')) {
        return None;
    }
    let s_end: usize = if t[0] == '-' { 1 } else { 0 };
    let i_end = scan_digits(t, s_end);
    let dot = i_end < n && t[i_end] == '.';
    let f_end = if dot { scan_digits(t, i_end + 1) } else { i_end };
    let exp = f_end < n && (t[f_end] == 'e' || t[f_end] == 'E');
    let mut plus_end: usize = 0;
    let mut d_start: usize = 0;
    let mut end = f_end;
    if exp {
        plus_end = if f_end + 1 < n && t[f_end + 1] == '+' { f_end + 2 } else { f_end + 1 };
        d_start = if plus_end < n && t[plus_end] == '-' { plus_end + 1 } else { plus_end };
        end = scan_digits(t, d_start);
    }
    assert(end == json::number_end(t@, 0));
    if end != n {
        return None;
    }
    let frac: usize = if dot { f_end - i_end - 1 } else { 0 };
    if (i_end - s_end) + frac == 0 {
        return None;
    }
    if exp && !(d_start - (f_end + 1) <= 1 && end > d_start) {
        return None;
    }
    Some(
        Shape {
            sign_end: s_end,
            int_end: i_end,
            has_dot: dot,
            frac_end: f_end,
            has_exp: exp,
            plus_end,
            digits_start: d_start,
        },
    )
}

/// The integer that a number literal denotes, when it is an integer that fits in an `i64`.
pub fn literal_to_i64(t: &Vec<char>) -> (r: Option<i64>)
    ensures
        r == literal_i64(t@),
{
    let sh = match scan_literal(t) {
        Some(sh) => sh,
        None => {
            return None;
        },
    };
    let sig = significand_digits(t, sh.sign_end, sh.int_end, sh.has_dot, sh.frac_end);
    let mut emag: u128 = 0;
    let end = t.len();
    if sh.has_exp {
        proof {
            json::lemma_digits_end(t@, sh.digits_start as int);
            assert forall|k: int| 0 <= k < end - sh.digits_start implies json::is_ascii_digit(
                #[trigger] t@.subrange(sh.digits_start as int, end as int)[k],
            ) by {
                assert(t@.subrange(sh.digits_start as int, end as int)[k] == t@[sh.digits_start + k]);
            }
        }
        emag = capped_value(t, sh.digits_start, end);
    }
    let negative_exp = sh.has_exp && sh.digits_start > sh.plus_end;
    let frac: usize = if sh.has_dot { sh.frac_end - sh.int_end - 1 } else { 0 };
    proof {
        json::lemma_digits_end(t@, sh.sign_end as int);
        if sh.has_dot {
            json::lemma_digits_end(t@, sh.int_end + 1);
        }
        assert(fraction_len(t@) == frac);
        assert(sig@.len() == (sh.int_end - sh.sign_end) + frac);
    }
    scaled_to_i64(&sig, frac, emag, negative_exp, sh.sign_end > 0, Ghost(exponent(t@)))
}

} // verus!
