use vstd::prelude::*;
use vstd::string::*;
use crate::text::first_at;
use crate::text::lemma_first_at;
use crate::text::lemma_first_at_found;
use crate::text::find_char;
use crate::numbers::{
    all_digits, digits_val, is_digit, spec_parse_u64, spec_parse_dec, parse_u64, parse_decimal,
    lemma_digits_val_nonneg, Decimal,
};

verus! {

/// Total seconds of an `H:MM:SS.ss` or `MM:SS.ss` split: the whole parts
/// weighted 3600 and 60, the seconds' fraction carried through unchanged.
pub open spec fn spec_combine(hours: int, minutes: int, secs: Decimal) -> Option<Decimal> {
    let total = hours * 3600 + minutes * 60 + secs.whole;
    if total <= u64::MAX {
        Some(Decimal { whole: total as u64, frac_num: secs.frac_num, frac_den: secs.frac_den })
    } else {
        None
    }
}

/// The duration a compound elapsed-time string denotes.
///
/// The string must split on `:` into exactly two or three components;
/// every other shape is a parse error.  The last component is a decimal
/// seconds value, the ones before it whole minutes and hours.
pub open spec fn spec_parse_duration(s: Seq<char>) -> Option<Decimal> {
    match first_at(s, ':') {
        None => None,
        Some(i) => {
            let head = s.take(i);
            let rest = s.skip(i + 1);
            match first_at(rest, ':') {
                None => {
                    // MM:SS.ss
                    if spec_parse_u64(head) is Some && spec_parse_dec(rest) is Some {
                        spec_combine(0, digits_val(head), spec_parse_dec(rest)->Some_0)
                    } else {
                        None
                    }
                },
                Some(j) => {
                    let mins = rest.take(j);
                    let secs = rest.skip(j + 1);
                    if first_at(secs, ':') is Some {
                        None
                    } else if spec_parse_u64(head) is Some && spec_parse_u64(mins) is Some
                        && spec_parse_dec(secs) is Some {
                        spec_combine(digits_val(head), digits_val(mins), spec_parse_dec(secs)->Some_0)
                    } else {
                        None
                    }
                },
            }
        },
    }
}

/// Combine already-parsed components, refusing a total that overflows.
fn combine(hours: u64, minutes: u64, secs: Decimal) -> (r: Option<Decimal>)
    requires
        secs.wf(),
    ensures
        r == spec_combine(hours as int, minutes as int, secs),
        r is Some ==> r->Some_0.wf(),
{
    let hs = match hours.checked_mul(3600) {
        Some(v) => v,
        None => {
            return None;
        },
    };
    let ms = match minutes.checked_mul(60) {
        Some(v) => v,
        None => {
            return None;
        },
    };
    let t1 = match hs.checked_add(ms) {
        Some(v) => v,
        None => {
            return None;
        },
    };
    let total = match t1.checked_add(secs.whole) {
        Some(v) => v,
        None => {
            return None;
        },
    };
    Some(Decimal { whole: total, frac_num: secs.frac_num, frac_den: secs.frac_den })
}

/// Decode an elapsed wall-clock time such as `1:02:03.45` or `2:03.40`
/// into exact seconds.
pub fn parse_duration(s: &str) -> (r: Option<Decimal>)
    ensures
        r == spec_parse_duration(s@),
        r is Some ==> r->Some_0.wf(),
{
    let n = s.unicode_len();
    match find_char(s, ':') {
        None => None,
        Some(i) => {
            let head = s.substring_char(0, i);
            let rest = s.substring_char(i + 1, n);
            proof {
                assert(head@ =~= s@.take(i as int));
                assert(rest@ =~= s@.skip(i + 1));
            }
            let rn = rest.unicode_len();
            match find_char(rest, ':') {
                None => {
                    match parse_u64(head) {
                        None => None,
                        Some(m) => match parse_decimal(rest) {
                            None => None,
                            Some(sd) => {
                                proof {
                                    lemma_digits_val_nonneg(head@);
                                }
                                combine(0, m, sd)
                            },
                        },
                    }
                },
                Some(j) => {
                    let mins = rest.substring_char(0, j);
                    let secs = rest.substring_char(j + 1, rn);
                    proof {
                        assert(mins@ =~= rest@.take(j as int));
                        assert(secs@ =~= rest@.skip(j + 1));
                    }
                    if find_char(secs, ':').is_some() {
                        return None;
                    }
                    match parse_u64(head) {
                        None => None,
                        Some(h) => match parse_u64(mins) {
                            None => None,
                            Some(m) => match parse_decimal(secs) {
                                None => None,
                                Some(sd) => {
                                    proof {
                                        lemma_digits_val_nonneg(head@);
                                        lemma_digits_val_nonneg(mins@);
                                    }
                                    combine(h, m, sd)
                                },
                            },
                        },
                    }
                },
            }
        },
    }
}

/// Any character a valid decimal-seconds component can hold.
spec fn dec_chars_only(s: Seq<char>) -> bool {
    forall|k: int| 0 <= k < s.len() ==> (is_digit(s[k]) || s[k] == '.')
}

proof fn lemma_dec_string_chars(s: Seq<char>)
    requires
        spec_parse_dec(s) is Some,
    ensures
        dec_chars_only(s),
        forall|k: int| 0 <= k < s.len() ==> s[k] != ':',
{
    lemma_first_at(s, '.');
    match first_at(s, '.') {
        None => {
            assert(all_digits(s));
        },
        Some(i) => {
            let w = s.take(i);
            let f = s.skip(i + 1);
            assert forall|k: int| 0 <= k < s.len() implies (is_digit(s[k]) || s[k] == '.') by {
                if k < i {
                    assert(s[k] == w[k]);
                    assert(is_digit(w[k]));
                } else if k > i {
                    assert(s[k] == f[k - i - 1]);
                    assert(is_digit(f[k - i - 1]));
                }
            }
        },
    }
    assert forall|k: int| 0 <= k < s.len() implies s[k] != ':' by {
        assert(is_digit(s[k]) || s[k] == '.');
    }
}

proof fn lemma_digits_no_colon(s: Seq<char>)
    requires
        all_digits(s),
    ensures
        forall|k: int| 0 <= k < s.len() ==> s[k] != ':',
{
    assert forall|k: int| 0 <= k < s.len() implies s[k] != ':' by {
        assert(is_digit(s[k]));
    }
}

/// The elapsed-time decoding law for three components: a string written as
/// `H:MM:SS.ss` with valid parts decodes to exactly
/// `hours * 3600 + minutes * 60 + seconds`, the fraction kept as written.
pub proof fn lemma_duration_value_hms(s: Seq<char>, h: Seq<char>, m: Seq<char>, sec: Seq<char>)
    requires
        s =~= h + seq![':'] + m + seq![':'] + sec,
        spec_parse_u64(h) is Some,
        spec_parse_u64(m) is Some,
        spec_parse_dec(sec) is Some,
        digits_val(h) * 3600 + digits_val(m) * 60 + spec_parse_dec(sec)->Some_0.whole
            <= u64::MAX,
    ensures
        spec_parse_duration(s) is Some,
        spec_parse_duration(s)->Some_0.whole == digits_val(h) * 3600 + digits_val(m) * 60
            + spec_parse_dec(sec)->Some_0.whole,
        spec_parse_duration(s)->Some_0.frac_num == spec_parse_dec(sec)->Some_0.frac_num,
        spec_parse_duration(s)->Some_0.frac_den == spec_parse_dec(sec)->Some_0.frac_den,
{
    lemma_digits_no_colon(h);
    lemma_digits_no_colon(m);
    lemma_dec_string_chars(sec);
    let hl = h.len() as int;
    assert forall|k: int| 0 <= k < hl implies s[k] != ':' by {
        assert(s[k] == h[k]);
    }
    assert(s[hl] == ':');
    lemma_first_at_found(s, ':', hl);
    let rest = s.skip(hl + 1);
    assert(rest =~= m + seq![':'] + sec);
    assert(s.take(hl) =~= h);
    let ml = m.len() as int;
    assert forall|k: int| 0 <= k < ml implies rest[k] != ':' by {
        assert(rest[k] == m[k]);
    }
    assert(rest[ml] == ':');
    lemma_first_at_found(rest, ':', ml);
    assert(rest.take(ml) =~= m);
    let secs = rest.skip(ml + 1);
    assert(secs =~= sec);
    lemma_first_at(secs, ':');
    if first_at(secs, ':') is Some {
        let bad = first_at(secs, ':')->Some_0;
        assert(secs[bad] == ':');
    }
    lemma_digits_val_nonneg(h);
    lemma_digits_val_nonneg(m);
}

/// The elapsed-time decoding law for two components: a string written as
/// `MM:SS.ss` with valid parts decodes to exactly
/// `minutes * 60 + seconds`, the fraction kept as written.
pub proof fn lemma_duration_value_ms(s: Seq<char>, m: Seq<char>, sec: Seq<char>)
    requires
        s =~= m + seq![':'] + sec,
        spec_parse_u64(m) is Some,
        spec_parse_dec(sec) is Some,
        digits_val(m) * 60 + spec_parse_dec(sec)->Some_0.whole <= u64::MAX,
    ensures
        spec_parse_duration(s) is Some,
        spec_parse_duration(s)->Some_0.whole == digits_val(m) * 60
            + spec_parse_dec(sec)->Some_0.whole,
        spec_parse_duration(s)->Some_0.frac_num == spec_parse_dec(sec)->Some_0.frac_num,
        spec_parse_duration(s)->Some_0.frac_den == spec_parse_dec(sec)->Some_0.frac_den,
{
    lemma_digits_no_colon(m);
    lemma_dec_string_chars(sec);
    let ml = m.len() as int;
    assert forall|k: int| 0 <= k < ml implies s[k] != ':' by {
        assert(s[k] == m[k]);
    }
    assert(s[ml] == ':');
    lemma_first_at_found(s, ':', ml);
    let rest = s.skip(ml + 1);
    assert(rest =~= sec);
    assert(s.take(ml) =~= m);
    lemma_first_at(rest, ':');
    if first_at(rest, ':') is Some {
        let bad = first_at(rest, ':')->Some_0;
        assert(rest[bad] == ':');
    }
    lemma_digits_val_nonneg(m);
}

} // verus!
