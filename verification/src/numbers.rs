use vstd::prelude::*;
use vstd::string::*;
use crate::text::first_at;
use crate::text::lemma_first_at;
use crate::text::find_char;

verus! {

pub open spec fn is_digit(c: char) -> bool {
    48 <= c as int && c as int <= 57
}

pub open spec fn digit_val(c: char) -> int {
    c as int - 48
}

pub open spec fn all_digits(s: Seq<char>) -> bool {
    forall|i: int| 0 <= i < s.len() ==> is_digit(s[i])
}

/// The integer denoted by a string of decimal digits, most significant first.
pub open spec fn digits_val(s: Seq<char>) -> int
    decreases s.len(),
{
    if s.len() == 0 {
        0
    } else {
        digits_val(s.drop_last()) * 10 + digit_val(s.last())
    }
}

pub open spec fn pow10(k: nat) -> int
    decreases k,
{
    if k == 0 {
        1
    } else {
        10 * pow10((k - 1) as nat)
    }
}

pub proof fn lemma_digits_val_nonneg(s: Seq<char>)
    requires
        all_digits(s),
    ensures
        digits_val(s) >= 0,
    decreases s.len(),
{
    if s.len() > 0 {
        lemma_digits_val_nonneg(s.drop_last());
    }
}

pub proof fn lemma_digits_val_prefix_le(s: Seq<char>, i: int)
    requires
        all_digits(s),
        0 <= i <= s.len(),
    ensures
        digits_val(s.take(i)) <= digits_val(s),
    decreases s.len(),
{
    if i == s.len() {
        assert(s.take(i) =~= s);
    } else {
        let t = s.drop_last();
        assert(t.take(i) =~= s.take(i));
        lemma_digits_val_prefix_le(t, i);
        lemma_digits_val_nonneg(t);
    }
}

pub proof fn lemma_digits_val_bound(s: Seq<char>)
    requires
        all_digits(s),
    ensures
        digits_val(s) < pow10(s.len()),
    decreases s.len(),
{
    if s.len() > 0 {
        lemma_digits_val_bound(s.drop_last());
    }
}

/// The number a digit string denotes, if it is one and fits a `u64`.
pub open spec fn spec_parse_u64(s: Seq<char>) -> Option<u64> {
    if s.len() > 0 && all_digits(s) && digits_val(s) <= u64::MAX {
        Some(digits_val(s) as u64)
    } else {
        None
    }
}

/// Parse an unsigned decimal integer; `None` on any non-digit, an empty
/// string, or overflow.
pub fn parse_u64(s: &str) -> (r: Option<u64>)
    ensures
        r == spec_parse_u64(s@),
{
    let n = s.unicode_len();
    if n == 0 {
        return None;
    }
    let mut acc: u64 = 0;
    let mut i: usize = 0;
    while i < n
        invariant
            n == s@.len(),
            0 <= i <= n,
            all_digits(s@.take(i as int)),
            acc == digits_val(s@.take(i as int)),
        decreases n - i,
    {
        let c = s.get_char(i);
        let u = c as u32;
        if !(48 <= u && u <= 57) {
            assert(!is_digit(s@[i as int]));
            return None;
        }
        let d = (u - 48) as u64;
        proof {
            assert(s@.take(i + 1).drop_last() =~= s@.take(i as int));
            assert(s@.take(i + 1).last() == s@[i as int]);
        }
        let step = match acc.checked_mul(10) {
            Some(t) => t.checked_add(d),
            None => None,
        };
        match step {
            Some(v) => {
                acc = v;
            },
            None => {
                proof {
                    if all_digits(s@) {
                        lemma_digits_val_prefix_le(s@, i + 1);
                    }
                }
                return None;
            },
        }
        i = i + 1;
    }
    proof {
        assert(s@.take(n as int) =~= s@);
    }
    Some(acc)
}

/// The signed integer a string denotes: an optional `+` or `-` sign
/// followed by digits, within the bounds of an `i64`.
pub open spec fn spec_parse_i64(s: Seq<char>) -> Option<i64> {
    if s.len() == 0 {
        None
    } else {
        let neg = s[0] == '-';
        let ds = if s[0] == '-' || s[0] == '+' {
            s.skip(1)
        } else {
            s
        };
        if ds.len() > 0 && all_digits(ds) {
            let v = if neg {
                -digits_val(ds)
            } else {
                digits_val(ds)
            };
            if i64::MIN <= v && v <= i64::MAX {
                Some(v as i64)
            } else {
                None
            }
        } else {
            None
        }
    }
}

/// Parse one report value as a signed integer.
///
/// Recognized labels with an integer type feed their values through here;
/// a `None` means the whole report is unreadable.
pub fn parse_value(s: &str) -> (r: Option<i64>)
    ensures
        r == spec_parse_i64(s@),
{
    let n = s.unicode_len();
    if n == 0 {
        return None;
    }
    let c0 = s.get_char(0);
    let neg = c0 == '-';
    let signed = c0 == '-' || c0 == '+';
    let ds = if signed {
        s.substring_char(1, n)
    } else {
        s
    };
    proof {
        if signed {
            assert(ds@ =~= s@.skip(1));
        }
    }
    match parse_u64(ds) {
        None => {
            proof {
                if ds@.len() > 0 && all_digits(ds@) {
                    lemma_digits_val_nonneg(ds@);
                }
            }
            None
        },
        Some(mag) => {
            proof {
                lemma_digits_val_nonneg(ds@);
            }
            if neg {
                if mag <= 9223372036854775807u64 {
                    Some(-(mag as i64))
                } else if mag == 9223372036854775808u64 {
                    Some(i64::MIN)
                } else {
                    None
                }
            } else {
                if mag <= 9223372036854775807u64 {
                    Some(mag as i64)
                } else {
                    None
                }
            }
        },
    }
}

pub open spec fn spec_parse_i32(s: Seq<char>) -> Option<i32> {
    match spec_parse_i64(s) {
        None => None,
        Some(v) => if i32::MIN <= v && v <= i32::MAX {
            Some(v as i32)
        } else {
            None
        },
    }
}

/// Parse one report value as a 32-bit integer, as the CPU-percentage and
/// exit-status fields are declared.
pub fn parse_value_i32(s: &str) -> (r: Option<i32>)
    ensures
        r == spec_parse_i32(s@),
{
    match parse_value(s) {
        None => None,
        Some(v) => {
            if -2147483648i64 <= v && v <= 2147483647i64 {
                Some(v as i32)
            } else {
                None
            }
        },
    }
}

/// A non-negative decimal number kept exactly: `whole` integer part and a
/// fraction `frac_num / frac_den`, the denominator the power of ten set by
/// how many fractional digits were written.
#[derive(Clone, Copy, Debug, PartialEq, Eq, Structural)]
pub struct Decimal {
    pub whole: u64,
    pub frac_num: u64,
    pub frac_den: u64,
}

impl Decimal {
    /// Well-formed: a proper fraction with a denominator a report could
    /// produce (at most nine fractional digits).
    pub open spec fn wf(self) -> bool {
        1 <= self.frac_den <= 1_000_000_000 && self.frac_num < self.frac_den
    }

    /// The numerator of the value over denominator `frac_den`.
    pub open spec fn num(self) -> int {
        self.whole * self.frac_den + self.frac_num
    }

    /// The exact value written as zero.
    pub fn zero() -> (r: Decimal)
        ensures
            r.wf(),
            r.num() == 0,
            r == (Decimal { whole: 0u64, frac_num: 0u64, frac_den: 1u64 }),
    {
        Decimal { whole: 0, frac_num: 0, frac_den: 1 }
    }
}

/// `a` denotes a number less than or equal to `b`'s.
pub open spec fn spec_dec_le(a: Decimal, b: Decimal) -> bool {
    a.num() * b.frac_den <= b.num() * a.frac_den
}

/// Compare two decimals by value, exactly, by cross-multiplication.
pub fn dec_le(a: &Decimal, b: &Decimal) -> (r: bool)
    requires
        a.wf(),
        b.wf(),
    ensures
        r == spec_dec_le(*a, *b),
{
    proof {
        assert((a.whole as u128) * (a.frac_den as u128) <= 18446744073709551615u128
            * 1000000000u128) by (nonlinear_arith)
            requires
                a.whole <= 18446744073709551615u64,
                a.frac_den <= 1000000000u64,
        ;
        assert((b.whole as u128) * (b.frac_den as u128) <= 18446744073709551615u128
            * 1000000000u128) by (nonlinear_arith)
            requires
                b.whole <= 18446744073709551615u64,
                b.frac_den <= 1000000000u64,
        ;
    }
    let an: u128 = (a.whole as u128) * (a.frac_den as u128) + (a.frac_num as u128);
    let bn: u128 = (b.whole as u128) * (b.frac_den as u128) + (b.frac_num as u128);
    proof {
        assert(an * (b.frac_den as u128) <= (18446744073709551615u128 * 1000000000u128
            + 999999999u128) * 1000000000u128) by (nonlinear_arith)
            requires
                an <= 18446744073709551615u128 * 1000000000u128 + 999999999u128,
                b.frac_den <= 1000000000u64,
        ;
        assert(bn * (a.frac_den as u128) <= (18446744073709551615u128 * 1000000000u128
            + 999999999u128) * 1000000000u128) by (nonlinear_arith)
            requires
                bn <= 18446744073709551615u128 * 1000000000u128 + 999999999u128,
                a.frac_den <= 1000000000u64,
        ;
    }
    an * (b.frac_den as u128) <= bn * (a.frac_den as u128)
}

/// The decimal a string denotes: digits, optionally followed by a dot and
/// one to nine fractional digits.
pub open spec fn spec_parse_dec(s: Seq<char>) -> Option<Decimal> {
    match first_at(s, '.') {
        None => match spec_parse_u64(s) {
            None => None,
            Some(w) => Some(Decimal { whole: w, frac_num: 0u64, frac_den: 1u64 }),
        },
        Some(i) => {
            let w = s.take(i);
            let f = s.skip(i + 1);
            if f.len() >= 1 && f.len() <= 9 && all_digits(f) {
                match spec_parse_u64(w) {
                    None => None,
                    Some(wv) => Some(
                        Decimal {
                            whole: wv,
                            frac_num: digits_val(f) as u64,
                            frac_den: pow10(f.len()) as u64,
                        },
                    ),
                }
            } else {
                None
            }
        },
    }
}

pub proof fn lemma_spec_parse_dec_wf(s: Seq<char>)
    ensures
        spec_parse_dec(s) is Some ==> spec_parse_dec(s)->Some_0.wf(),
{
    reveal_with_fuel(pow10, 11);
    match first_at(s, '.') {
        None => {},
        Some(i) => {
            let f = s.skip(i + 1);
            if f.len() >= 1 && f.len() <= 9 && all_digits(f) {
                lemma_digits_val_nonneg(f);
                lemma_digits_val_bound(f);
                lemma_pow10_mono(f.len());
            }
        },
    }
}

proof fn lemma_pow10_mono(k: nat)
    requires
        k <= 9,
    ensures
        pow10(k) <= 1_000_000_000,
    decreases 9 - k,
{
    reveal_with_fuel(pow10, 11);
    if k < 9 {
        lemma_pow10_mono(k + 1);
    }
}

/// Ten to the `k`, for a fractional-digit count.
fn pow10_u64(k: usize) -> (r: u64)
    requires
        k <= 9,
    ensures
        r as int == pow10(k as nat),
{
    proof {
        reveal_with_fuel(pow10, 11);
    }
    if k == 0 {
        1
    } else if k == 1 {
        10
    } else if k == 2 {
        100
    } else if k == 3 {
        1000
    } else if k == 4 {
        10000
    } else if k == 5 {
        100000
    } else if k == 6 {
        1000000
    } else if k == 7 {
        10000000
    } else if k == 8 {
        100000000
    } else {
        1000000000
    }
}

/// Parse a non-negative decimal number, e.g. a CPU-seconds value.
pub fn parse_decimal(s: &str) -> (r: Option<Decimal>)
    ensures
        r == spec_parse_dec(s@),
        r is Some ==> r->Some_0.wf(),
{
    proof {
        lemma_spec_parse_dec_wf(s@);
    }
    let n = s.unicode_len();
    match find_char(s, '.') {
        None => match parse_u64(s) {
            None => None,
            Some(w) => Some(Decimal { whole: w, frac_num: 0, frac_den: 1 }),
        },
        Some(i) => {
            let w = s.substring_char(0, i);
            let f = s.substring_char(i + 1, n);
            proof {
                assert(w@ =~= s@.take(i as int));
                assert(f@ =~= s@.skip(i + 1));
            }
            let flen = n - (i + 1);
            if flen < 1 || flen > 9 {
                return None;
            }
            match parse_u64(f) {
                None => {
                    proof {
                        if all_digits(f@) {
                            lemma_digits_val_nonneg(f@);
                            lemma_digits_val_bound(f@);
                            lemma_pow10_mono(f@.len());
                        }
                    }
                    None
                },
                Some(fv) => match parse_u64(w) {
                    None => None,
                    Some(wv) => {
                        let den = pow10_u64(flen);
                        proof {
                            lemma_digits_val_bound(f@);
                        }
                        Some(Decimal { whole: wv, frac_num: fv, frac_den: den })
                    },
                },
            }
        },
    }
}

/// The decimal digits of a non-negative integer, most significant first.
pub open spec fn dec_digits(n: int) -> Seq<char>
    decreases n,
{
    if n < 10 {
        seq![digit_char(n)]
    } else {
        dec_digits(n / 10).push(digit_char(n % 10))
    }
}

pub open spec fn digit_char(d: int) -> char {
    ((48 + d) as u8) as char
}

fn digit_str(d: u64) -> (r: &'static str)
    requires
        d < 10,
    ensures
        r@ =~= seq![digit_char(d as int)],
{
    proof {
        reveal_strlit("0");
        reveal_strlit("1");
        reveal_strlit("2");
        reveal_strlit("3");
        reveal_strlit("4");
        reveal_strlit("5");
        reveal_strlit("6");
        reveal_strlit("7");
        reveal_strlit("8");
        reveal_strlit("9");
    }
    if d == 0 {
        "0"
    } else if d == 1 {
        "1"
    } else if d == 2 {
        "2"
    } else if d == 3 {
        "3"
    } else if d == 4 {
        "4"
    } else if d == 5 {
        "5"
    } else if d == 6 {
        "6"
    } else if d == 7 {
        "7"
    } else if d == 8 {
        "8"
    } else {
        "9"
    }
}

fn push_digits(n: u64, out: &mut String)
    ensures
        final(out)@ == old(out)@ + dec_digits(n as int),
    decreases n,
{
    if n >= 10 {
        push_digits(n / 10, out);
    }
    out.append(digit_str(n % 10));
    proof {
        if n >= 10 {
            assert(old(out)@ + dec_digits(n as int / 10) + seq![digit_char(n as int % 10)]
                =~= old(out)@ + dec_digits(n as int));
        } else {
            assert(old(out)@ + seq![digit_char(n as int)] =~= old(out)@ + dec_digits(n as int));
        }
    }
}

/// Render an unsigned integer in decimal.
pub fn u64_to_string(n: u64) -> (r: String)
    ensures
        r@ == dec_digits(n as int),
{
    let mut s = String::new();
    push_digits(n, &mut s);
    proof {
        assert(Seq::<char>::empty() + dec_digits(n as int) =~= dec_digits(n as int));
    }
    s
}

/// Render a non-negative signed integer in decimal.
pub fn i64_to_string(n: i64) -> (r: String)
    requires
        n >= 0,
    ensures
        r@ == dec_digits(n as int),
{
    u64_to_string(n as u64)
}

} // verus!
