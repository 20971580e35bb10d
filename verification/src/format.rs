//! Sizes, times and other numbers as the debug views show them.
use vstd::prelude::*;
use crate::num::{decimal, decimal_chars};
use crate::text::string_of;

verus! {

/// `2` to the power `k`.
pub open spec fn pow2(k: nat) -> nat
    decreases k,
{
    if k == 0 {
        1
    } else {
        2 * pow2((k - 1) as nat)
    }
}

/// `10` to the power `k`.
pub open spec fn pow10(k: nat) -> nat
    decreases k,
{
    if k == 0 {
        1
    } else {
        10 * pow10((k - 1) as nat)
    }
}

/// The number of halvings that bring `n` below `2^53`.
pub open spec fn excess_bits(n: nat) -> nat
    decreases n,
{
    if n < pow2(53) || n == 0 {
        0
    } else {
        1 + excess_bits(n / 2)
    }
}

/// `q`, or `q + 1`, whichever is nearer to `q + r / d`; on a tie, the even one.
pub open spec fn round_half_even(q: nat, r: nat, d: nat) -> nat {
    if 2 * r > d || (2 * r == d && q % 2 == 1) {
        q + 1
    } else {
        q
    }
}

/// The value of `n` as the nearest `f64` (std's `n as f64`): `n` rounded to its
/// 53 leading binary digits, ties to even (`n` itself below `2^53`).
pub open spec fn f64_value(n: nat) -> nat {
    let s = pow2(excess_bits(n));
    round_half_even(n / s, n % s, s) * s
}

/// `v / den` rounded to `d` decimal places, ties to even, times `10^d`.
pub open spec fn scaled_round(v: nat, den: nat, d: nat) -> nat {
    round_half_even(v * pow10(d) / den, v * pow10(d) % den, den)
}

/// The decimal digits of `n`, with zeros in front up to `w` digits.
pub open spec fn zero_padded(n: nat, w: nat) -> Seq<char> {
    if decimal(n).len() >= w {
        decimal(n)
    } else {
        Seq::new((w - decimal(n).len()) as nat, |i: int| '0') + decimal(n)
    }
}

/// The number `m / 10^d` written with `d` decimal places (std's `{:.d}` for a value
/// whose rounded form is `m / 10^d`).
pub open spec fn fixed_point(m: nat, d: nat) -> Seq<char> {
    decimal(m / pow10(d)) + seq!['.'] + zero_padded(m % pow10(d), d)
}

/// How the debug overlay writes a size in bytes: below 1024 the count and ` B`;
/// below 1024² the size in KB, one decimal place; below 1024³ in MB, one decimal
/// place; else in GB, two decimal places, from the size as an `f64`.
pub open spec fn format_bytes_spec(bytes: nat) -> Seq<char> {
    if bytes < 1024 {
        decimal(bytes) + " B"@
    } else if bytes < 1024 * 1024 {
        fixed_point(scaled_round(bytes, 1024, 1), 1) + " KB"@
    } else if bytes < 1024 * 1024 * 1024 {
        fixed_point(scaled_round(bytes, 1024 * 1024, 1), 1) + " MB"@
    } else {
        fixed_point(scaled_round(f64_value(bytes), 1024 * 1024 * 1024, 2), 2) + " GB"@
    }
}

fn round_half_even_exec(q: u128, r: u128, d: u128) -> (m: u128)
    requires
        q < u128::MAX,
        r < d,
        d < 0x8000_0000_0000_0000_0000_0000_0000_0000,
    ensures
        m == round_half_even(q as nat, r as nat, d as nat),
{
    if 2 * r > d || (2 * r == d && q % 2 == 1) {
        q + 1
    } else {
        q
    }
}

proof fn lemma_pow2_facts(k: nat)
    ensures
        pow2(k) > 0,
        pow2(k + 1) == 2 * pow2(k),
    decreases k,
{
    if k > 0 {
        lemma_pow2_facts((k - 1) as nat);
    }
}

proof fn lemma_pow2_mono(a: nat, b: nat)
    requires
        a <= b,
    ensures
        pow2(a) <= pow2(b),
    decreases b,
{
    lemma_pow2_facts(b);
    if a < b {
        lemma_pow2_mono(a, (b - 1) as nat);
        lemma_pow2_facts((b - 1) as nat);
    }
}

proof fn lemma_pow2_add(a: nat, b: nat)
    ensures
        pow2(a) * pow2(b) == pow2(a + b),
    decreases a,
{
    if a > 0 {
        lemma_pow2_add((a - 1) as nat, b);
        assert(pow2(a) * pow2(b) == 2 * (pow2((a - 1) as nat) * pow2(b))) by (nonlinear_arith)
            requires
                pow2(a) == 2 * pow2((a - 1) as nat),
        ;
        assert(pow2(a + b) == 2 * pow2((a - 1 + b) as nat));
        assert(((a - 1) as nat + b) as nat == (a - 1 + b) as nat);
    } else {
        assert(pow2(0) == 1);
        assert(1 * pow2(b) == pow2(b));
    }
}

/// The value of `n` as the nearest `f64`.
fn f64_value_exec(n: u64) -> (v: u128)
    ensures
        v == f64_value(n as nat),
        v <= 0x1_0000_0000_0000_0000,
{
    proof {
        assert(pow2(53) == 0x20_0000_0000_0000) by {
            reveal_with_fuel(pow2, 54);
        }
        assert(pow2(11) == 2048) by {
            reveal_with_fuel(pow2, 12);
        }
        assert(pow2(64) == 0x1_0000_0000_0000_0000) by {
            reveal_with_fuel(pow2, 65);
        }
    }
    let mut m: u64 = n;
    let mut s: u128 = 1;
    let ghost mut k: nat = 0;
    assert((n as nat) / 1 == n);
    while m >= 0x20_0000_0000_0000
        invariant
            pow2(53) == 0x20_0000_0000_0000,
            m as nat == (n as nat) / (s as nat),
            s as nat == pow2(k),
            s >= 1,
            k <= 11,
            pow2(11) == 2048,
            pow2(64) == 0x1_0000_0000_0000_0000,
            k + excess_bits(m as nat) == excess_bits(n as nat),
        decreases m,
    {
        assert(s * m <= n) by (nonlinear_arith)
            requires
                m as int == (n as int) / (s as int),
                s >= 1,
        ;
        assert(s * 0x20_0000_0000_0000 <= n) by (nonlinear_arith)
            requires
                s * m <= n,
                m >= 0x20_0000_0000_0000,
        ;
        proof {
            lemma_pow2_add(k, 53);
            if k + 53 >= 64 {
                lemma_pow2_mono(64, k + 53);
            }
            assert(k <= 10);
            vstd::arithmetic::div_mod::lemma_div_denominator(n as int, s as int, 2);
            lemma_pow2_facts(k);
            k = k + 1;
        }
        m = m / 2;
        s = s * 2;
    }
    let q: u128 = m as u128;
    assert(q * s <= n) by (nonlinear_arith)
        requires
            q as int == (n as int) / (s as int),
            s >= 1,
    ;
    let r: u128 = (n as u128) - q * s;
    assert(r == (n as nat) % (s as nat) && r < s) by {
        vstd::arithmetic::div_mod::lemma_fundamental_div_mod(n as int, s as int);
        vstd::arithmetic::div_mod::lemma_mod_bound(n as int, s as int);
    }
    proof {
        lemma_pow2_mono(k, 11);
    }
    assert(s <= 2048);
    let rounded = round_half_even_exec(q, r, s);
    assert(rounded * s <= 0x1_0000_0000_0000_0000) by (nonlinear_arith)
        requires
            rounded <= q + 1,
            q < 0x20_0000_0000_0000,
            s <= 2048,
            s >= 1,
    ;
    rounded * s
}

/// `v / den` rounded to `d` decimal places, ties to even, times `10^d`.
fn scaled_round_exec(v: u128, den: u128, d: u32, p: u128) -> (m: u128)
    requires
        v <= 0x1_0000_0000_0000_0000,
        p == pow10(d as nat),
        p <= 100,
        0 < den <= 0x4000_0000,
    ensures
        m == scaled_round(v as nat, den as nat, d as nat),
{
    assert(v * p <= 0x1_0000_0000_0000_0000 * 100) by (nonlinear_arith)
        requires
            v <= 0x1_0000_0000_0000_0000,
            p <= 100,
    ;
    let x = v * p;
    let q = x / den;
    let r = x % den;
    assert(q <= x);
    round_half_even_exec(q, r, den)
}

/// The decimal digits of `n`, with zeros in front up to `w` digits.
fn zero_padded_exec(n: u64, w: usize) -> (r: Vec<char>)
    ensures
        r@ == zero_padded(n as nat, w as nat),
{
    let d = decimal_chars(n);
    if d.len() >= w {
        d
    } else {
        let mut r: Vec<char> = Vec::new();
        let k = w - d.len();
        let mut i: usize = 0;
        while i < k
            invariant
                i <= k,
                r@ == Seq::new(i as nat, |j: int| '0'),
            decreases k - i,
        {
            r.push('0');
            i = i + 1;
            assert(r@ =~= Seq::new(i as nat, |j: int| '0'));
        }
        let mut j: usize = 0;
        let ghost zeros = r@;
        while j < d.len()
            invariant
                j <= d@.len(),
                r@ == zeros + d@.take(j as int),
            decreases d.len() - j,
        {
            r.push(d[j]);
            j = j + 1;
            assert(r@ =~= zeros + d@.take(j as int));
        }
        assert(d@.take(d@.len() as int) == d@);
        r
    }
}

fn push_all(out: &mut Vec<char>, v: &[char])
    ensures
        final(out)@ == old(out)@ + v@,
{
    let mut i: usize = 0;
    let ghost start = out@;
    while i < v.len()
        invariant
            i <= v@.len(),
            out@ == start + v@.take(i as int),
        decreases v.len() - i,
    {
        out.push(v[i]);
        i = i + 1;
        assert(out@ =~= start + v@.take(i as int));
    }
    assert(v@.take(v@.len() as int) == v@);
}

/// `m / 10^d` with `d` decimal places.
fn fixed_point_exec(m: u128, d: u32, p: u128) -> (r: Vec<char>)
    requires
        p == pow10(d as nat),
        1 <= p <= 100,
        m <= 0x100_0000_0000_0000,
    ensures
        r@ == fixed_point(m as nat, d as nat),
{
    let whole = m / p;
    let frac = m % p;
    let mut out = decimal_chars(whole as u64);
    out.push('.');
    let f = zero_padded_exec(frac as u64, d as usize);
    push_all(&mut out, f.as_slice());
    out
}

/// The size in bytes as the debug overlay shows it.
pub fn format_bytes(bytes: u64) -> (r: String)
    ensures
        r@ == format_bytes_spec(bytes as nat),
{
    proof {
        reveal_strlit(" B");
        reveal_strlit(" KB");
        reveal_strlit(" MB");
        reveal_strlit(" GB");
        assert(pow10(1) == 10) by {
            reveal_with_fuel(pow10, 2);
        }
        assert(pow10(2) == 100) by {
            reveal_with_fuel(pow10, 3);
        }
    }
    let mut out: Vec<char>;
    if bytes < 1024 {
        out = decimal_chars(bytes);
        out.push(' ');
        out.push('B');
        assert(out@ =~= decimal(bytes as nat) + " B"@);
    } else if bytes < 1024 * 1024 {
        let m = scaled_round_exec(bytes as u128, 1024, 1, 10);
        assert(m <= 0x100_0000_0000_0000) by (nonlinear_arith)
            requires
                m == round_half_even(
                    (bytes as nat) * 10 / 1024,
                    (bytes as nat) * 10 % 1024,
                    1024,
                ),
                bytes < 1024 * 1024,
        ;
        out = fixed_point_exec(m, 1, 10);
        out.push(' ');
        out.push('K');
        out.push('B');
        assert(out@ =~= fixed_point(m as nat, 1) + " KB"@);
    } else if bytes < 1024 * 1024 * 1024 {
        let m = scaled_round_exec(bytes as u128, 1024 * 1024, 1, 10);
        assert(m <= 0x100_0000_0000_0000) by (nonlinear_arith)
            requires
                m == round_half_even(
                    (bytes as nat) * 10 / (1024 * 1024),
                    (bytes as nat) * 10 % (1024 * 1024),
                    1024 * 1024,
                ),
                bytes < 1024 * 1024 * 1024,
        ;
        out = fixed_point_exec(m, 1, 10);
        out.push(' ');
        out.push('M');
        out.push('B');
        assert(out@ =~= fixed_point(m as nat, 1) + " MB"@);
    } else {
        let v = f64_value_exec(bytes);
        let m = scaled_round_exec(v, 1024 * 1024 * 1024, 2, 100);
        assert(m <= 0x100_0000_0000_0000) by (nonlinear_arith)
            requires
                m == round_half_even(
                    (v as nat) * 100 / (1024 * 1024 * 1024),
                    (v as nat) * 100 % (1024 * 1024 * 1024),
                    1024 * 1024 * 1024,
                ),
                v <= 0x1_0000_0000_0000_0000,
        ;
        out = fixed_point_exec(m, 2, 100);
        out.push(' ');
        out.push('G');
        out.push('B');
        assert(out@ =~= fixed_point(m as nat, 2) + " GB"@);
    }
    string_of(out.as_slice())
}

/// The memory that the process uses, as the debug overlay shows it: the working-set
/// size where the system reported one, else 0.
pub fn get_process_memory_bytes(working_set: Option<usize>) -> (r: u64)
    ensures
        r == match working_set {
            Some(w) => w as nat,
            None => 0,
        },
{
    match working_set {
        Some(w) => w as u64,
        None => 0,
    }
}

/// The time of day of a debug-log event, `HH:MM:SS.mmm` (UTC), from the whole
/// seconds since the Unix epoch and the milliseconds past them.
pub open spec fn clock_time(total_secs: nat, millis: nat) -> Seq<char> {
    zero_padded((total_secs / 3600) % 24, 2) + seq![':'] + zero_padded((total_secs / 60) % 60, 2)
        + seq![':'] + zero_padded(total_secs % 60, 2) + seq!['.'] + zero_padded(millis, 3)
}

pub fn format_clock_time(total_secs: u64, millis: u32) -> (r: String)
    ensures
        r@ == clock_time(total_secs as nat, millis as nat),
{
    let mut out = zero_padded_exec((total_secs / 3600) % 24, 2);
    out.push(':');
    push_all(&mut out, zero_padded_exec((total_secs / 60) % 60, 2).as_slice());
    out.push(':');
    push_all(&mut out, zero_padded_exec(total_secs % 60, 2).as_slice());
    out.push('.');
    push_all(&mut out, zero_padded_exec(millis as u64, 3).as_slice());
    string_of(out.as_slice())
}

} // verus!
