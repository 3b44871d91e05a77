//! Decimal text for integers and fixed-point values, and integer parsing,
//! the way Rust's `Display` / `FromStr` write and read them.
use vstd::prelude::*;
use crate::text::push_char;

verus! {

/// The ASCII digit for `d < 10`.
pub open spec fn digit(d: nat) -> char {
    (48 + d) as char
}

/// Decimal digits of `n`, without leading zeros ("0" for zero).
pub open spec fn dec(n: nat) -> Seq<char>
    decreases n,
{
    if n < 10 {
        seq![digit(n)]
    } else {
        dec(n / 10).push(digit(n % 10))
    }
}

/// Decimal text of a signed integer, with a leading '-' when negative.
pub open spec fn int_dec(i: int) -> Seq<char> {
    if i < 0 {
        seq!['-'] + dec((-i) as nat)
    } else {
        dec(i as nat)
    }
}

/// Exactly `width` digits of `n`, zero-padded on the left (`n < 10^width`).
pub open spec fn padded(n: nat, width: nat) -> Seq<char>
    decreases width,
{
    if width == 0 {
        Seq::empty()
    } else {
        padded(n / 10, (width - 1) as nat).push(digit(n % 10))
    }
}


/// `2^n`.
pub open spec fn two_to(n: nat) -> nat
    decreases n,
{
    if n == 0 { 1 } else { 2 * two_to((n - 1) as nat) }
}

/// `n / d` rounded to the nearest whole number, ties to the even one.
pub open spec fn div_round_even(n: nat, d: nat) -> nat {
    let q = n / d;
    let r = n % d;
    if 2 * r > d || (2 * r == d && q % 2 == 1) { q + 1 } else { q }
}

/// The scale `t` (from `t` on) that brings `m * 2^t / 8000` among the 53-bit significands
/// of a double: the least one with `m * 2^t >= 2^52 * 8000`.
pub open spec fn f64_shift(m: nat, t: nat) -> nat
    decreases 0x1_0000_0000_0000_0000_0000 - t,
{
    if m == 0 || t >= 0x1_0000_0000_0000_0000_0000 || m * two_to(t) >= 0x10_0000_0000_0000 * 8000 {
        t
    } else {
        f64_shift(m, t + 1)
    }
}

/// The double nearest to `m / 1000`, times `scale / 8000`, rounded to a whole number ties
/// to even: the double is `8k / 2^t`, `k` its significand rounded ties to even, and
/// `{:.N}` rounds its exact value so.
pub open spec fn f64_scaled(m: nat, scale: nat) -> nat {
    if m == 0 {
        0
    } else {
        let t = f64_shift(m, 0);
        let k = div_round_even(m * two_to(t), 8000);
        div_round_even(scale * k, two_to(t))
    }
}

/// The hundredths of the double nearest to `m / 1000` (as `{:.2}` rounds them).
pub open spec fn f64_hundredths(m: nat) -> nat {
    f64_scaled(m, 800)
}

/// The thousandths of the double nearest to `m / 1000` (as `{:.3}` rounds them; `m`
/// itself unless `m` is beyond what a double holds to the thousandth).
pub open spec fn f64_thousandths(m: nat) -> nat {
    f64_scaled(m, 8000)
}

/// `m` thousandths as a double written with exactly three decimals (`{:.3}` of
/// `m as f64 / 1000.0`).
pub open spec fn fixed3(m: nat) -> Seq<char> {
    let c = f64_thousandths(m);
    dec(c / 1000) + seq!['.'] + padded(c % 1000, 3)
}

/// `m` thousandths as a double written with two decimals (`{:.2}` of `m as f64 / 1000.0`).
pub open spec fn fixed2_of_milli(m: nat) -> Seq<char> {
    let c = f64_hundredths(m);
    dec(c / 100) + seq!['.'] + padded(c % 100, 2)
}

/// The shortest text of `m / 1000`: no fraction when whole, else trailing zeros dropped.
pub open spec fn milli_text(m: nat) -> Seq<char> {
    let f = m % 1000;
    if f == 0 {
        dec(m / 1000)
    } else if f % 100 == 0 {
        dec(m / 1000) + seq!['.'] + padded(f / 100, 1)
    } else if f % 10 == 0 {
        dec(m / 1000) + seq!['.'] + padded(f / 10, 2)
    } else {
        dec(m / 1000) + seq!['.'] + padded(f, 3)
    }
}

/// Whether every character of `s` is an ASCII digit.
pub open spec fn all_digits(s: Seq<char>) -> bool {
    forall|i: int| 0 <= i < s.len() ==> '0' <= #[trigger] s[i] <= '9'
}

/// The value of a run of ASCII digits.
pub open spec fn digits_value(s: Seq<char>) -> nat
    decreases s.len(),
{
    if s.len() == 0 {
        0
    } else {
        digits_value(s.drop_last()) * 10 + ((s.last() as int) - 48) as nat
    }
}

/// What `str::parse` reads from `s` as an integer before the range check:
/// an optional '+' or '-' followed by at least one ASCII digit.
pub open spec fn parse_int(s: Seq<char>) -> Option<int> {
    if s.len() > 0 && (s[0] == '+' || s[0] == '-') {
        let rest = s.skip(1);
        if rest.len() > 0 && all_digits(rest) {
            if s[0] == '-' {
                Some(-(digits_value(rest) as int))
            } else {
                Some(digits_value(rest) as int)
            }
        } else {
            None
        }
    } else if s.len() > 0 && all_digits(s) {
        Some(digits_value(s) as int)
    } else {
        None
    }
}

/// What `str::parse::<u64>` reads: digits with an optional '+', within range.
pub open spec fn parse_u64_spec(s: Seq<char>) -> Option<u64> {
    match parse_int(s) {
        Some(v) => if 0 <= v <= u64::MAX && !(s.len() > 0 && s[0] == '-') {
            Some(v as u64)
        } else {
            None
        },
        None => None,
    }
}

/// What `str::parse::<i64>` reads.
pub open spec fn parse_i64_spec(s: Seq<char>) -> Option<i64> {
    match parse_int(s) {
        Some(v) => if i64::MIN <= v <= i64::MAX { Some(v as i64) } else { None },
        None => None,
    }
}

/// What `str::parse::<i32>` reads.
pub open spec fn parse_i32_spec(s: Seq<char>) -> Option<i32> {
    match parse_int(s) {
        Some(v) => if i32::MIN <= v <= i32::MAX { Some(v as i32) } else { None },
        None => None,
    }
}

fn digit_char(d: u64) -> (c: char)
    requires
        d < 10,
    ensures
        c == digit(d as nat),
{
    let b: u8 = 48u8 + (d as u8);
    b as char
}

/// Appends the decimal digits of `n`.
pub fn push_dec(s: &mut String, n: u64)
    ensures
        final(s)@ == old(s)@ + dec(n as nat),
    decreases n,
{
    if n < 10 {
        push_char(s, digit_char(n));
        assert(dec(n as nat) == seq![digit(n as nat)]);
    } else {
        push_dec(s, n / 10);
        push_char(s, digit_char(n % 10));
    }
}

/// Appends exactly `width` digits of `n`, zero-padded.
pub fn push_padded(s: &mut String, n: u64, width: u64)
    ensures
        final(s)@ == old(s)@ + padded(n as nat, width as nat),
    decreases width,
{
    if width == 0 {
        assert(final(s)@ =~= old(s)@ + padded(n as nat, width as nat));
    } else {
        push_padded(s, n / 10, width - 1);
        push_char(s, digit_char(n % 10));
    }
}

/// Decimal text of an unsigned integer (`n.to_string()`).
pub fn u64_text(n: u64) -> (r: String)
    ensures
        r@ == dec(n as nat),
{
    let mut s = String::new();
    push_dec(&mut s, n);
    assert(s@ =~= dec(n as nat));
    s
}

/// Decimal text of a signed integer (`i.to_string()`).
pub fn i64_text(i: i64) -> (r: String)
    ensures
        r@ == int_dec(i as int),
{
    let mut s = String::new();
    if i < 0 {
        push_char(&mut s, '-');
        let m: u64 = if i == i64::MIN { 9223372036854775808u64 } else { (-i) as u64 };
        push_dec(&mut s, m);
    } else {
        push_dec(&mut s, i as u64);
    }
    assert(s@ =~= int_dec(i as int));
    s
}


proof fn lemma_two_to_above(t: nat)
    ensures
        two_to(t) > t,
    decreases t,
{
    if t > 0 {
        lemma_two_to_above((t - 1) as nat);
    }
}

/// The least `u` (from `u` on) with `n < 2^53 * d * 2^u`.
pub open spec fn up_shift(n: nat, d: nat, u: nat) -> nat
    decreases 0x4_0000_0000_0000_0000_0000_0000_0000_0000 - u,
{
    if d == 0 || u >= 0x4_0000_0000_0000_0000_0000_0000_0000_0000 || n < 0x20_0000_0000_0000 * d * two_to(u) {
        u
    } else {
        up_shift(n, d, u + 1)
    }
}

/// The least `s` (from `s` on) with `n * 2^s >= 2^52 * d`.
pub open spec fn down_shift(n: nat, d: nat, s: nat) -> nat
    decreases 0x4_0000_0000_0000_0000_0000_0000_0000_0000 - s,
{
    if n == 0 || s >= 0x4_0000_0000_0000_0000_0000_0000_0000_0000 || n * two_to(s) >= 0x10_0000_0000_0000 * d {
        s
    } else {
        down_shift(n, d, s + 1)
    }
}

/// The double nearest to `n / d` (ties to even), as a fraction (numerator, denominator):
/// a 53-bit significand, scaled by a power of two.
pub open spec fn ratio_double(n: nat, d: nat) -> (nat, nat) {
    if n >= 0x10_0000_0000_0000 * d {
        let u = up_shift(n, d, 0);
        (div_round_even(n, d * two_to(u)) * two_to(u), 1)
    } else {
        let s = down_shift(n, d, 0);
        (div_round_even(n * two_to(s), d), two_to(s))
    }
}

/// The double nearest to the whole number `n` (`n as f64`): `n` itself below 2^53.
pub open spec fn int_double(n: nat) -> nat {
    if n < 0x20_0000_0000_0000 { n } else { ratio_double(n, 1).0 }
}

proof fn lemma_up_shift(n: nat, d: nat, u: nat)
    requires
        d >= 1,
        n < 0x4_0000_0000_0000_0000_0000_0000_0000_0000,
        n >= 0x10_0000_0000_0000 * d * two_to(u),
    ensures
        n < 0x20_0000_0000_0000 * d * two_to(up_shift(n, d, u)),
        n >= 0x10_0000_0000_0000 * d * two_to(up_shift(n, d, u)),
    decreases 0x4_0000_0000_0000_0000_0000_0000_0000_0000 - u,
{
    lemma_two_to_above(u);
    assert(0x10_0000_0000_0000 * d * two_to(u) >= two_to(u)) by (nonlinear_arith)
        requires d >= 1;
    if u < 0x4_0000_0000_0000_0000_0000_0000_0000_0000 && n >= 0x20_0000_0000_0000 * d * two_to(u) {
        assert(0x10_0000_0000_0000 * d * two_to(u + 1) == 0x20_0000_0000_0000 * d * two_to(u)) by (nonlinear_arith)
            requires two_to(u + 1) == 2 * two_to(u);
        lemma_up_shift(n, d, u + 1);
    }
}

proof fn lemma_down_shift(n: nat, d: nat, s: nat)
    requires
        n >= 1,
        1 <= d <= 0x40_0000_0000_0000_0000,
        n * two_to(s) < 0x20_0000_0000_0000 * d,
    ensures
        n * two_to(down_shift(n, d, s)) >= 0x10_0000_0000_0000 * d,
    decreases 0x4_0000_0000_0000_0000_0000_0000_0000_0000 - s,
{
    lemma_two_to_above(s);
    assert(n * two_to(s) >= two_to(s)) by (nonlinear_arith)
        requires n >= 1;
    assert(s < 0x4_0000_0000_0000_0000_0000_0000_0000_0000);
    if n * two_to(s) < 0x10_0000_0000_0000 * d {
        assert(n * two_to(s + 1) == 2 * (n * two_to(s))) by (nonlinear_arith)
            requires two_to(s + 1) == 2 * two_to(s);
        lemma_down_shift(n, d, s + 1);
    }
}

/// The double nearest to `n / d` is below it by at most one part in 2^52.
pub proof fn lemma_ratio_double_below(n: nat, d: nat)
    requires
        1 <= n < 0x4_0000_0000_0000_0000_0000_0000_0000_0000,
        1 <= d <= 0x40_0000_0000_0000_0000,
    ensures
        ratio_double(n, d).1 >= 1,
        ratio_double(n, d).0 * d * 0x10_0000_0000_0000 >= n * ratio_double(n, d).1 * 0xF_FFFF_FFFF_FFFF,
{
    let big: nat = 0x10_0000_0000_0000;
    assert(two_to(0) == 1);
    if n >= big * d {
        lemma_up_shift(n, d, 0);
        let u = up_shift(n, d, 0);
        let pu = two_to(u);
        let dd = d * pu;
        lemma_two_to_above(u);
        assert(dd >= 1) by (nonlinear_arith)
            requires d >= 1, pu >= 1, dd == d * pu;
        assert(n >= big * dd) by (nonlinear_arith)
            requires n >= 0x10_0000_0000_0000 * d * pu, dd == d * pu, big == 0x10_0000_0000_0000;
        let q = n / dd;
        let k = div_round_even(n, dd);
        assert(k >= q);
        assert(q * dd >= n - dd) by (nonlinear_arith)
            requires q == n / dd, dd >= 1;
        assert(k * pu * d >= n - dd) by (nonlinear_arith)
            requires k >= q, q * dd >= n - dd, dd == d * pu;
        assert((k * pu) * d * big >= n * 1 * (big - 1)) by (nonlinear_arith)
            requires k * pu * d >= n - dd, n >= big * dd, big == 0x10_0000_0000_0000;
    } else {
        assert(n * two_to(0) < 0x20_0000_0000_0000 * d);
        lemma_down_shift(n, d, 0);
        let s = down_shift(n, d, 0);
        let ps = two_to(s);
        lemma_two_to_above(s);
        let m = n * ps;
        let q = m / d;
        let k = div_round_even(m, d);
        assert(k >= q);
        assert(q * d >= m - d) by (nonlinear_arith)
            requires q == m / d, d >= 1;
        assert(k * d * big >= n * ps * (big - 1)) by (nonlinear_arith)
            requires k >= q, q * d >= m - d, m == n * ps, m >= big * d, big == 0x10_0000_0000_0000;
    }
}

/// The double of a whole number is below it by at most one part in 2^52, and at most
/// twice it.
pub proof fn lemma_int_double_near(a: nat)
    requires
        1 <= a < 0x1_0000_0000_0000_0000,
    ensures
        int_double(a) * 0x10_0000_0000_0000 >= a * 0xF_FFFF_FFFF_FFFF,
        1 <= int_double(a) <= 2 * a,
{
    if a >= 0x20_0000_0000_0000 {
        lemma_ratio_double_below(a, 1);
        assert(a >= 0x10_0000_0000_0000 * 1);
        assert(ratio_double(a, 1).1 == 1);
        let x = ratio_double(a, 1).0;
        assert(x * 0x10_0000_0000_0000 >= a * 0xF_FFFF_FFFF_FFFF) by (nonlinear_arith)
            requires x * 1 * 0x10_0000_0000_0000 >= a * 1 * 0xF_FFFF_FFFF_FFFF;
        assert(two_to(0) == 1);
        lemma_up_shift(a, 1, 0);
        let u = up_shift(a, 1, 0);
        let pu = two_to(u);
        lemma_two_to_above(u);
        let q = a / (1 * pu);
        let k = div_round_even(a, 1 * pu);
        assert(k <= q + 1);
        assert(q * pu <= a) by (nonlinear_arith)
            requires q == a / (1 * pu), pu >= 1;
        assert(pu <= a) by (nonlinear_arith)
            requires a >= 0x10_0000_0000_0000 * 1 * pu;
        assert(k * pu <= 2 * a) by (nonlinear_arith)
            requires k <= q + 1, q * pu <= a, pu <= a;
        assert(q >= 1) by (nonlinear_arith)
            requires q == a / (1 * pu), a >= 0x10_0000_0000_0000 * 1 * pu, pu >= 1;
        assert(k * pu >= 1) by (nonlinear_arith)
            requires k >= q, q >= 1, pu >= 1;
    }
}

/// The significand `k` and the scale `2^t` of the double nearest to `m / 1000`, which is
/// `8k / 2^t`.
pub(crate) fn f64_parts(m: u64) -> (r: (u128, u128))
    requires
        m >= 1,
    ensures
        r.1 as nat == two_to(f64_shift(m as nat, 0)),
        r.0 as nat == div_round_even((m as nat) * two_to(f64_shift(m as nat, 0)), 8000),
        1 <= r.1 <= 0x8_0000_0000_0000_0000,
        1 <= r.0 <= 0x20_0000_0000_0000,
        8000 * r.0 <= m * r.1 + 8000,
{
    let big: u128 = 0x10_0000_0000_0000 * 8000;
    let mut n: u128 = m as u128;
    let mut p: u128 = 1;
    let mut t: u128 = 0;
    assert(n == m * p);
    while n < big
        invariant
            big == 0x10_0000_0000_0000 * 8000,
            m >= 1,
            n == m * p,
            p == two_to(t as nat),
            1 <= p <= n,
            n < 2 * big,
            f64_shift(m as nat, t as nat) == f64_shift(m as nat, 0),
        decreases 0x8_0000_0000_0000_0000 - t,
    {
        proof {
            lemma_two_to_above(t as nat);
        }
        assert(m * (2 * p) == 2 * (m * p)) by (nonlinear_arith);
        n = n * 2;
        p = p * 2;
        t = t + 1;
    }
    let q = n / 8000;
    let r = n % 8000;
    let k: u128 = if 2 * r > 8000 || (2 * r == 8000 && q % 2 == 1) { q + 1 } else { q };
    (k, p)
}

/// The double nearest to `n / d`, as a fraction.
pub(crate) fn ratio_double_of(n: u128, d: u128) -> (r: (u128, u128))
    requires
        1 <= n <= 0x400_0000_0000_0000_0000_0000_0000_0000,
        1 <= d <= 0x8_0000_0000_0000_0000,
    ensures
        (r.0 as nat, r.1 as nat) == ratio_double(n as nat, d as nat),
        r.0 >= 1,
        1 <= r.1 <= 0x100_0000_0000_0000_0000_0000_0000_0000,
        r.0 <= 2 * n + 0x20_0000_0000_0000,
{
    let lo: u128 = 0x10_0000_0000_0000;
    if n >= lo * d {
        let mut dd: u128 = d;
        let mut pu: u128 = 1;
        let mut u: u128 = 0;
        assert(dd == d * two_to(0));
        while n >= 2 * lo * dd
            invariant
                lo == 0x10_0000_0000_0000,
                1 <= d,
                n >= lo * d,
                n <= 0x400_0000_0000_0000_0000_0000_0000_0000,
                dd == d * pu,
                pu == two_to(u as nat),
                1 <= pu <= dd,
                lo * dd <= n,
                up_shift(n as nat, d as nat, u as nat) == up_shift(n as nat, d as nat, 0),
            decreases n - dd,
        {
            proof {
                lemma_two_to_above(u as nat);
            }
            assert(d * (2 * pu) == 2 * (d * pu)) by (nonlinear_arith);
            assert(0x20_0000_0000_0000 * d * pu == 2 * lo * dd) by (nonlinear_arith)
                requires dd == d * pu, lo == 0x10_0000_0000_0000;
            dd = dd * 2;
            pu = pu * 2;
            u = u + 1;
        }
        assert(0x20_0000_0000_0000 * d * pu == 2 * lo * dd) by (nonlinear_arith)
            requires dd == d * pu, lo == 0x10_0000_0000_0000;
        let q = n / dd;
        let rr = n % dd;
        let k: u128 = if 2 * rr > dd || (2 * rr == dd && q % 2 == 1) { q + 1 } else { q };
        assert(q <= 2 * lo) by (nonlinear_arith)
            requires q == n / dd, n < 2 * lo * dd, dd >= 1;
        assert(q >= lo) by (nonlinear_arith)
            requires q == n / dd, n >= lo * dd, dd >= 1;
        assert(k * pu >= 1) by (nonlinear_arith)
            requires k >= lo, pu >= 1, lo == 0x10_0000_0000_0000;
        assert(q * pu <= n) by (nonlinear_arith)
            requires q == n / dd, dd == d * pu, d >= 1, pu >= 1;
        assert(k * pu <= n + pu) by (nonlinear_arith)
            requires k <= q + 1, q * pu <= n;
        (k * pu, 1)
    } else {
        let mut nn: u128 = n;
        let mut ps: u128 = 1;
        let mut s: u128 = 0;
        assert(nn == n * two_to(0));
        while nn < lo * d
            invariant
                lo == 0x10_0000_0000_0000,
                1 <= n,
                1 <= d <= 0x8_0000_0000_0000_0000,
                nn == n * ps,
                ps == two_to(s as nat),
                1 <= ps <= nn,
                nn < 2 * lo * d,
                down_shift(n as nat, d as nat, s as nat) == down_shift(n as nat, d as nat, 0),
            decreases 0x4_0000_0000_0000_0000_0000_0000_0000_0000 - s,
        {
            proof {
                lemma_two_to_above(s as nat);
            }
            assert(n * (2 * ps) == 2 * (n * ps)) by (nonlinear_arith);
            nn = nn * 2;
            ps = ps * 2;
            s = s + 1;
        }
        let q = nn / d;
        let rr = nn % d;
        let k: u128 = if 2 * rr > d || (2 * rr == d && q % 2 == 1) { q + 1 } else { q };
        assert(q <= 2 * lo) by (nonlinear_arith)
            requires q == nn / d, nn < 2 * lo * d, d >= 1;
        assert(q >= lo) by (nonlinear_arith)
            requires q == nn / d, nn >= lo * d, d >= 1;
        (k, ps)
    }
}

/// The double nearest to the whole number `n` (`n as f64`).
pub(crate) fn int_double_of(n: u64) -> (r: u128)
    ensures
        r as nat == int_double(n as nat),
        n >= 1 ==> 1 <= r,
        r <= 0x4_0000_0000_0000_0000,
{
    if n < 0x20_0000_0000_0000 {
        n as u128
    } else {
        let (num, den) = ratio_double_of(n as u128, 1);
        assert(den == 1);
        num
    }
}

/// A double, given as a fraction, rounded to a whole number, halves away from zero
/// (`f64::round` on a non-negative value).
pub open spec fn round_half_away(q: (nat, nat)) -> nat {
    (2 * q.0 + q.1) / (2 * q.1)
}

/// The double nearest to `m / 1000`, times `scale / 8000`, rounded as `{:.N}` rounds.
fn scaled_of(m: u64, scale: u128) -> (c: u128)
    requires
        scale == 800 || scale == 8000,
    ensures
        c as nat == f64_scaled(m as nat, scale as nat),
        c <= m + 8001,
        scale == 800 ==> c < 0x8000_0000_0000_0000,
{
    if m == 0 {
        return 0;
    }
    let (k, p) = f64_parts(m);
    let num: u128 = scale * k;
    assert(num <= m * p + 8000);
    let c = num / p;
    let rr = num % p;
    assert(c <= num) by (nonlinear_arith)
        requires
            p >= 1,
            c == num / p,
    ;
    assert(c <= m + 8000) by (nonlinear_arith)
        requires
            p >= 1,
            c == num / p,
            num <= m * p + 8000,
    ;
    if 2 * rr > p || (2 * rr == p && c % 2 == 1) { c + 1 } else { c }
}

/// `m` thousandths as a double written with exactly three decimals (`{:.3}`).
pub fn fixed3_text(m: u64) -> (r: String)
    ensures
        r@ == fixed3(m as nat),
{
    let c = scaled_of(m, 8000);
    let mut s = String::new();
    push_dec(&mut s, (c / 1000) as u64);
    push_char(&mut s, '.');
    push_padded(&mut s, (c % 1000) as u64, 3);
    assert(s@ =~= fixed3(m as nat));
    s
}

/// `m` thousandths as a double written with two decimals (`{:.2}`).
pub fn fixed2_text(m: u64) -> (r: String)
    ensures
        r@ == fixed2_of_milli(m as nat),
{
    let c: u64 = scaled_of(m, 800) as u64;
    let mut s = String::new();
    push_dec(&mut s, c / 100);
    push_char(&mut s, '.');
    push_padded(&mut s, c % 100, 2);
    assert(s@ =~= fixed2_of_milli(m as nat));
    s
}

/// `m / 1000` written the way `f64`'s `Display` writes it, for values a double holds
/// to the thousandth (the frame rates it is used on, 5 to 50).
pub fn milli_text_of(m: u64) -> (r: String)
    ensures
        r@ == milli_text(m as nat),
{
    let mut s = String::new();
    push_dec(&mut s, m / 1000);
    let f = m % 1000;
    if f != 0 {
        push_char(&mut s, '.');
        if f % 100 == 0 {
            push_padded(&mut s, f / 100, 1);
        } else if f % 10 == 0 {
            push_padded(&mut s, f / 10, 2);
        } else {
            push_padded(&mut s, f, 3);
        }
    }
    assert(s@ =~= milli_text(m as nat));
    s
}


proof fn lemma_digits_prefix_le(s: Seq<char>, k: int)
    requires
        0 <= k <= s.len(),
        all_digits(s),
    ensures
        digits_value(s.take(k)) <= digits_value(s),
    decreases s.len(),
{
    if k < s.len() {
        assert(s.drop_last().take(k) =~= s.take(k));
        lemma_digits_prefix_le(s.drop_last(), k);
    } else {
        assert(s.take(k) =~= s);
    }
}

/// The value of the digit run `v[start..]`, when it is all digits and fits in `u64`.
fn digits_u64(v: &Vec<char>, start: usize) -> (r: Option<u64>)
    requires
        start <= v@.len(),
    ensures
        r == (if all_digits(v@.skip(start as int)) && digits_value(v@.skip(start as int)) <= u64::MAX {
            Some(digits_value(v@.skip(start as int)) as u64)
        } else {
            None
        }),
{
    let ghost t = v@.skip(start as int);
    let mut acc: u64 = 0;
    let mut i: usize = start;
    while i < v.len()
        invariant
            start <= i <= v@.len(),
            t == v@.skip(start as int),
            all_digits(t.take(i - start)),
            acc == digits_value(t.take(i - start)),
        decreases v@.len() - i,
    {
        let c = v[i];
        if !('0' <= c && c <= '9') {
            assert(t[i - start] == c);
            return None;
        }
        let d: u64 = ((c as u32) - 48) as u64;
        assert(t.take(i + 1 - start).drop_last() =~= t.take(i - start));
        assert(t.take(i + 1 - start).last() == c);
        let m = acc.checked_mul(10);
        match m {
            None => {
                proof {
                    if all_digits(t) {
                        lemma_digits_prefix_le(t, i + 1 - start);
                    }
                }
                return None;
            },
            Some(m) => {
                match m.checked_add(d) {
                    None => {
                        proof {
                            if all_digits(t) {
                                lemma_digits_prefix_le(t, i + 1 - start);
                            }
                        }
                        return None;
                    },
                    Some(n) => {
                        acc = n;
                    },
                }
            },
        }
        i = i + 1;
    }
    assert(t.take(i - start) =~= t);
    Some(acc)
}

/// `s.parse::<u64>().ok()`.
pub fn parse_u64(s: &str) -> (r: Option<u64>)
    ensures
        r == parse_u64_spec(s@),
{
    let v = crate::text::chars_of(s);
    if v.len() == 0 {
        return None;
    }
    if v[0] == '-' {
        return None;
    }
    let start: usize = if v[0] == '+' { 1 } else { 0 };
    if start == 1 && v.len() == 1 {
        return None;
    }
    let r = digits_u64(&v, start);
    proof {
        if start == 0 {
            assert(v@.skip(0) =~= v@);
        }
    }
    r
}

/// Reads an optional sign and digits; `Some((negative, magnitude))` when the magnitude fits in `u64`.
fn signed_parts(s: &str) -> (r: Option<(bool, u64)>)
    ensures
        match r {
            Some((neg, m)) => parse_int(s@) == Some(if neg { -(m as int) } else { m as int })
                && (neg <==> (s@.len() > 0 && s@[0] == '-')),
            None => parse_int(s@) is None || (parse_int(s@) matches Some(x) && (x > u64::MAX || x < -(u64::MAX as int))),
        },
{
    let v = crate::text::chars_of(s);
    if v.len() == 0 {
        return None;
    }
    let signed = v[0] == '-' || v[0] == '+';
    let start: usize = if signed { 1 } else { 0 };
    if signed && v.len() == 1 {
        return None;
    }
    let r = digits_u64(&v, start);
    proof {
        if start == 0 {
            assert(v@.skip(0) =~= v@);
        }
    }
    match r {
        Some(m) => Some((v[0] == '-', m)),
        None => None,
    }
}

/// `s.parse::<i64>().ok()`.
pub fn parse_i64(s: &str) -> (r: Option<i64>)
    ensures
        r == parse_i64_spec(s@),
{
    match signed_parts(s) {
        None => None,
        Some((neg, m)) => {
            if neg {
                if m <= 9223372036854775808u64 {
                    if m == 9223372036854775808u64 {
                        Some(i64::MIN)
                    } else {
                        Some(-(m as i64))
                    }
                } else {
                    None
                }
            } else if m <= i64::MAX as u64 {
                Some(m as i64)
            } else {
                None
            }
        },
    }
}

/// `s.parse::<i32>().ok()`.
pub fn parse_i32(s: &str) -> (r: Option<i32>)
    ensures
        r == parse_i32_spec(s@),
{
    match signed_parts(s) {
        None => None,
        Some((neg, m)) => {
            if neg {
                if m <= 2147483648u64 {
                    Some((-(m as i64)) as i32)
                } else {
                    None
                }
            } else if m <= 2147483647u64 {
                Some(m as i32)
            } else {
                None
            }
        },
    }
}


proof fn lemma_dec_digits(n: nat)
    ensures
        dec(n).len() > 0,
        all_digits(dec(n)),
        digits_value(dec(n)) == n,
    decreases n,
{
    assert((digit(n % 10) as int) == 48 + n % 10);
    if n < 10 {
        assert(dec(n).drop_last() =~= Seq::<char>::empty());
        assert(dec(n).last() == digit(n));
        assert(n % 10 == n);
        assert(digits_value(dec(n)) == digits_value(Seq::<char>::empty()) * 10 + ((dec(n).last() as int) - 48) as nat);
    }
    if n >= 10 {
        lemma_dec_digits(n / 10);
        let d = dec(n / 10);
        assert(dec(n).drop_last() =~= d);
        assert(dec(n).last() == digit(n % 10));
        assert(digits_value(dec(n)) == digits_value(d) * 10 + ((dec(n).last() as int) - 48) as nat);
        assert((n / 10) * 10 + n % 10 == n);
        assert forall|i: int| 0 <= i < dec(n).len() implies '0' <= #[trigger] dec(n)[i] <= '9' by {
            if i < d.len() {
                assert(dec(n)[i] == d[i]);
            }
        }
    }
}

/// Decimal text is made of digits only.
pub proof fn lemma_dec_all_digits(n: u64)
    ensures
        all_digits(dec(n as nat)),
{
    lemma_dec_digits(n as nat);
}

/// Decimal text reads back as the number it was written from: `n.to_string().parse()`
/// gives `n`.
pub proof fn law_decimal_round_trip(n: u64)
    ensures
        parse_u64_spec(dec(n as nat)) == Some(n),
        parse_i64_spec(dec(n as nat)) == (if n <= i64::MAX { Some(n as i64) } else { None::<i64> }),
{
    lemma_dec_digits(n as nat);
}

} // verus!
