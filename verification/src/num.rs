//! Decimal and hexadecimal digits: the number formats that the editor shows and
//! the number syntax that it accepts (std's `from_str_radix` for unsigned types).
use vstd::prelude::*;

verus! {

/// The lowercase digit for `d` (0..36): `0`-`9`, then `a`-`z`.
pub open spec fn digit_char(d: nat) -> char {
    if d < 10 {
        (48 + d) as char
    } else {
        (87 + d) as char
    }
}

pub fn digit_char_exec(d: u32) -> (c: char)
    requires
        d < 36,
    ensures
        c == digit_char(d as nat),
{
    if d < 10 {
        char_of(48 + d)
    } else {
        char_of(87 + d)
    }
}

/// The ASCII character with code `x`.
fn char_of(x: u32) -> (c: char)
    requires
        x < 128,
    ensures
        c == x as char,
{
    let b: u8 = x as u8;
    b as char
}

/// The decimal digits of `n`, with no leading zero (std's `{}` for unsigned integers).
pub open spec fn decimal(n: nat) -> Seq<char>
    decreases n,
{
    if n < 10 {
        seq![digit_char(n)]
    } else {
        decimal(n / 10).push(digit_char(n % 10))
    }
}

/// The decimal digits of `n`.
pub fn decimal_chars(n: u64) -> (r: Vec<char>)
    ensures
        r@ == decimal(n as nat),
{
    let mut m: u64 = n;
    let mut acc: Vec<char> = Vec::new();
    while m >= 10
        invariant
            decimal(n as nat) == decimal(m as nat) + acc@,
        decreases m,
    {
        let d = digit_char_exec((m % 10) as u32);
        let ghost old_acc = acc@;
        acc.insert(0, d);
        assert(decimal(m as nat) == decimal((m / 10) as nat).push(digit_char((m % 10) as nat)));
        assert(decimal(m as nat) + old_acc =~= decimal((m / 10) as nat) + acc@);
        m = m / 10;
    }
    let d = digit_char_exec(m as u32);
    let ghost old_acc = acc@;
    acc.insert(0, d);
    assert(acc@ =~= decimal(m as nat) + old_acc);
    acc
}

/// `n` as exactly `width` lowercase hexadecimal digits, keeping the low ones
/// (std's `{:0width$x}` for a number below `16^width`).
pub open spec fn hex_padded(n: nat, width: nat) -> Seq<char>
    decreases width,
{
    if width == 0 {
        Seq::empty()
    } else {
        hex_padded(n / 16, (width - 1) as nat).push(digit_char(n % 16))
    }
}

/// `n` as exactly `width` lowercase hexadecimal digits.
pub fn hex_padded_chars(n: u64, width: usize) -> (r: Vec<char>)
    ensures
        r@ == hex_padded(n as nat, width as nat),
{
    let mut m: u64 = n;
    let mut w: usize = width;
    let mut acc: Vec<char> = Vec::new();
    while w > 0
        invariant
            hex_padded(n as nat, width as nat) == hex_padded(m as nat, w as nat) + acc@,
        decreases w,
    {
        let d = digit_char_exec((m % 16) as u32);
        let ghost old_acc = acc@;
        acc.insert(0, d);
        assert(hex_padded(m as nat, w as nat) + old_acc =~= hex_padded(
            (m / 16) as nat,
            (w - 1) as nat,
        ) + acc@);
        m = m / 16;
        w = w - 1;
    }
    assert(hex_padded(m as nat, 0) + acc@ =~= acc@);
    acc
}

/// The value of digit `c` in `radix`, or -1 where it is no digit there.
pub open spec fn digit_value(c: char, radix: nat) -> int {
    let v: int = if '0' <= c <= '9' {
        c as int - 48
    } else if 'a' <= c <= 'z' {
        c as int - 87
    } else if 'A' <= c <= 'Z' {
        c as int - 55
    } else {
        -1
    };
    if v < radix {
        v
    } else {
        -1
    }
}

pub fn digit_value_exec(c: char, radix: u32) -> (r: Option<u32>)
    requires
        radix <= 36,
    ensures
        match r {
            Some(v) => v as int == digit_value(c, radix as nat) && v >= 0,
            None => digit_value(c, radix as nat) < 0,
        },
{
    let v: u32 = if '0' <= c && c <= '9' {
        (c as u32) - 48
    } else if 'a' <= c && c <= 'z' {
        (c as u32) - 87
    } else if 'A' <= c && c <= 'Z' {
        (c as u32) - 55
    } else {
        return None;
    };
    if v < radix {
        Some(v)
    } else {
        None
    }
}

/// Whether every character of `s` is a digit in `radix`.
pub open spec fn all_digits(s: Seq<char>, radix: nat) -> bool {
    forall|i: int| 0 <= i < s.len() ==> digit_value(#[trigger] s[i], radix) >= 0
}

/// The number that the digits `s` spell in `radix`.
pub open spec fn digits_value(s: Seq<char>, radix: nat) -> nat
    decreases s.len(),
{
    if s.len() == 0 {
        0
    } else {
        (digits_value(s.drop_last(), radix) * radix + digit_value(s.last(), radix)) as nat
    }
}

/// What std's `from_str_radix` gives for an unsigned type whose largest value is
/// `max`: one optional leading `+` (not alone), then at least one digit, all in
/// `radix`, spelling a number no larger than `max`.
pub open spec fn parse_unsigned(s: Seq<char>, radix: nat, max: nat) -> Option<nat> {
    let d = if s.len() >= 2 && s[0] == '+' {
        s.drop_first()
    } else {
        s
    };
    if d.len() > 0 && all_digits(d, radix) && digits_value(d, radix) <= max {
        Some(digits_value(d, radix))
    } else {
        None
    }
}

proof fn lemma_digits_value_grows(s: Seq<char>, radix: nat, i: int)
    requires
        1 <= radix,
        0 <= i <= s.len(),
        all_digits(s, radix),
    ensures
        digits_value(s.take(i), radix) <= digits_value(s, radix),
    decreases s.len() - i,
{
    if i < s.len() {
        let t = s.take(i + 1);
        assert(t.drop_last() == s.take(i));
        assert(digit_value(t.last(), radix) >= 0) by {
            assert(t.last() == s[i]);
        }
        let a = digits_value(s.take(i), radix);
        let d = digit_value(t.last(), radix);
        assert(a * radix + d >= a) by (nonlinear_arith)
            requires
                radix >= 1,
                d >= 0,
                a >= 0,
        ;
        lemma_digits_value_grows(s, radix, i + 1);
    } else {
        assert(s.take(i) == s);
    }
}

/// Parses `v` as std's `from_str_radix` does for an unsigned type whose largest
/// value is `max`.
pub fn parse_unsigned_chars(v: &[char], radix: u32, max: u64) -> (r: Option<u64>)
    requires
        2 <= radix <= 36,
    ensures
        match r {
            Some(x) => parse_unsigned(v@, radix as nat, max as nat) == Some(x as nat),
            None => parse_unsigned(v@, radix as nat, max as nat) is None,
        },
{
    let n = v.len();
    let start: usize = if n >= 2 && v[0] == '+' {
        1
    } else {
        0
    };
    let ghost d = if v@.len() >= 2 && v@[0] == '+' {
        v@.drop_first()
    } else {
        v@
    };
    assert(d == v@.skip(start as int));
    if start == n {
        return None;
    }
    let mut acc: u64 = 0;
    let mut i: usize = start;
    assert(d.take(0) == Seq::<char>::empty());
    while i < n
        invariant
            n == v@.len(),
            2 <= radix <= 36,
            start <= i <= n,
            d == v@.skip(start as int),
            d == (if v@.len() >= 2 && v@[0] == '+' {
                v@.drop_first()
            } else {
                v@
            }),
            all_digits(d.take(i - start), radix as nat),
            acc as nat == digits_value(d.take(i - start), radix as nat),
            acc <= max,
        decreases n - i,
    {
        let ghost k = i - start;
        assert(d[k] == v@[i as int]);
        assert(d.take(k + 1).drop_last() == d.take(k));
        assert(d.take(k + 1).last() == v@[i as int]);
        match digit_value_exec(v[i], radix) {
            None => {
                assert(!all_digits(d, radix as nat)) by {
                    assert(digit_value(d[k], radix as nat) < 0);
                }
                return None;
            },
            Some(dv) => {
                assert(all_digits(d.take(k + 1), radix as nat)) by {
                    assert forall|j: int| 0 <= j < k + 1 implies digit_value(
                        #[trigger] d.take(k + 1)[j],
                        radix as nat,
                    ) >= 0 by {
                        if j < k {
                            assert(d.take(k + 1)[j] == d.take(k)[j]);
                        }
                    }
                }
                let m = acc.checked_mul(radix as u64);
                let s = match m {
                    Some(m) => m.checked_add(dv as u64),
                    None => None,
                };
                match s {
                    Some(s) if s <= max => {
                        acc = s;
                    },
                    _ => {
                        proof {
                            if all_digits(d, radix as nat) {
                                lemma_digits_value_grows(d, radix as nat, k + 1);
                            }
                        }
                        return None;
                    },
                }
            },
        }
        i = i + 1;
    }
    assert(d.take(n - start) == d);
    Some(acc)
}

// ---------------------------------------------------------------------------
// Reading back what was written
// ---------------------------------------------------------------------------

/// `16` to the power `w`.
pub open spec fn pow16(w: nat) -> nat
    decreases w,
{
    if w == 0 {
        1
    } else {
        16 * pow16((w - 1) as nat)
    }
}

pub proof fn lemma_digit_char(d: nat, radix: nat)
    requires
        d < radix <= 36,
    ensures
        digit_value(digit_char(d), radix) == d,
        ('0' <= digit_char(d) <= '9') || ('a' <= digit_char(d) <= 'z'),
        digit_char(d) != '+',
{
}

/// The decimal digits of `n` are digits and spell `n`.
pub proof fn lemma_decimal(n: nat)
    ensures
        decimal(n).len() >= 1,
        all_digits(decimal(n), 10),
        digits_value(decimal(n), 10) == n,
        forall|i: int| 0 <= i < decimal(n).len() ==> '0' <= #[trigger] decimal(n)[i] <= '9',
    decreases n,
{
    if n < 10 {
        lemma_digit_char(n, 10);
        assert(decimal(n).drop_last() =~= Seq::<char>::empty());
        assert(decimal(n).last() == digit_char(n));
        assert(digits_value(decimal(n).drop_last(), 10) == 0);
        assert(digit_value(decimal(n).last(), 10) == n);
    } else {
        lemma_decimal(n / 10);
        lemma_digit_char(n % 10, 10);
        let s = decimal(n);
        let t = decimal(n / 10);
        assert(s.drop_last() == t);
        assert forall|i: int| 0 <= i < s.len() implies digit_value(#[trigger] s[i], 10) >= 0 by {
            if i < t.len() {
                assert(s[i] == t[i]);
            }
        }
        assert forall|i: int| 0 <= i < s.len() implies '0' <= #[trigger] s[i] <= '9' by {
            if i < t.len() {
                assert(s[i] == t[i]);
            }
        }
        assert(s.last() == digit_char(n % 10));
        assert(digits_value(s, 10) == (n / 10) * 10 + n % 10);
        assert((n / 10) * 10 + n % 10 == n);
    }
}

/// The `w` hexadecimal digits of `n` are lowercase digits and spell `n` modulo `16^w`.
pub proof fn lemma_hex_padded(n: nat, w: nat)
    ensures
        hex_padded(n, w).len() == w,
        all_digits(hex_padded(n, w), 16),
        digits_value(hex_padded(n, w), 16) == n % pow16(w),
        forall|i: int|
            0 <= i < w ==> ('0' <= #[trigger] hex_padded(n, w)[i] <= '9') || ('a'
                <= hex_padded(n, w)[i] <= 'f'),
    decreases w,
{
    if w == 0 {
        assert(n % 1 == 0);
    } else {
        let w1 = (w - 1) as nat;
        lemma_hex_padded(n / 16, w1);
        lemma_digit_char(n % 16, 16);
        let s = hex_padded(n, w);
        let t = hex_padded(n / 16, w1);
        assert(s.drop_last() == t);
        assert forall|i: int| 0 <= i < s.len() implies digit_value(#[trigger] s[i], 16) >= 0 by {
            if i < t.len() {
                assert(s[i] == t[i]);
            }
        }
        assert forall|i: int| 0 <= i < w implies ('0' <= #[trigger] s[i] <= '9') || ('a' <= s[i]
            <= 'f') by {
            if i < t.len() {
                assert(s[i] == t[i]);
            }
        }
        assert(pow16(w1) > 0) by {
            lemma_pow16_pos(w1);
        }
        vstd::arithmetic::div_mod::lemma_mod_breakdown(n as int, 16, pow16(w1) as int);
        assert(pow16(w) == 16 * pow16(w1));
        assert(digits_value(s, 16) == (n / 16) % pow16(w1) * 16 + n % 16);
        assert((n / 16) % pow16(w1) * 16 == 16 * ((n / 16) % pow16(w1))) by (nonlinear_arith);
    }
}

pub proof fn lemma_pow16_pos(w: nat)
    ensures
        pow16(w) > 0,
    decreases w,
{
    if w > 0 {
        lemma_pow16_pos((w - 1) as nat);
    }
}

/// Reading back the decimal digits of `n` gives `n`, where `n` fits.
pub proof fn lemma_parse_decimal(n: nat, max: nat)
    requires
        n <= max,
    ensures
        parse_unsigned(decimal(n), 10, max) == Some(n),
{
    lemma_decimal(n);
    assert('0' <= decimal(n)[0] <= '9');
}

/// Reading back the `w` hexadecimal digits of `n < 16^w` gives `n`, where `n` fits.
pub proof fn lemma_parse_hex_padded(n: nat, w: nat, max: nat)
    requires
        w >= 1,
        n < pow16(w),
        n <= max,
    ensures
        parse_unsigned(hex_padded(n, w), 16, max) == Some(n),
{
    lemma_hex_padded(n, w);
    assert(n % pow16(w) == n) by {
        vstd::arithmetic::div_mod::lemma_small_mod(n, pow16(w));
    }
    let c = hex_padded(n, w)[0];
    assert(('0' <= c <= '9') || ('a' <= c <= 'f'));
}

} // verus!
