use vstd::prelude::*;
use vstd::string::*;

verus! {

/// ASCII whitespace, as trimmed from report lines and job commands.
pub open spec fn is_ws(c: char) -> bool {
    c == ' ' || c == '\t' || c == '\n' || c == '\r'
}

/// Executable twin of `is_ws`.
pub fn ws_char(c: char) -> (r: bool)
    ensures
        r == is_ws(c),
{
    c == ' ' || c == '\t' || c == '\n' || c == '\r'
}

/// The string with leading whitespace removed.
pub open spec fn ltrim(s: Seq<char>) -> Seq<char>
    decreases s.len(),
{
    if s.len() > 0 && is_ws(s[0]) {
        ltrim(s.skip(1))
    } else {
        s
    }
}

/// The string with trailing whitespace removed.
pub open spec fn rtrim(s: Seq<char>) -> Seq<char>
    decreases s.len(),
{
    if s.len() > 0 && is_ws(s.last()) {
        rtrim(s.drop_last())
    } else {
        s
    }
}

/// The string with surrounding whitespace removed.
pub open spec fn trimmed(s: Seq<char>) -> Seq<char> {
    rtrim(ltrim(s))
}

proof fn lemma_ltrim_at(s: Seq<char>, lo: int)
    requires
        0 <= lo <= s.len(),
        forall|j: int| 0 <= j < lo ==> is_ws(s[j]),
        lo == s.len() || !is_ws(s[lo]),
    ensures
        ltrim(s) =~= s.skip(lo),
    decreases lo,
{
    if lo == 0 {
        assert(s.skip(0) =~= s);
    } else {
        assert(is_ws(s[0]));
        lemma_ltrim_at(s.skip(1), lo - 1);
        assert(s.skip(1).skip(lo - 1) =~= s.skip(lo));
    }
}

proof fn lemma_rtrim_at(s: Seq<char>, hi: int)
    requires
        0 <= hi <= s.len(),
        forall|j: int| hi <= j < s.len() ==> is_ws(s[j]),
        hi == 0 || !is_ws(s[hi - 1]),
    ensures
        rtrim(s) =~= s.take(hi),
    decreases s.len(),
{
    if hi == s.len() {
        assert(s.take(hi) =~= s);
    } else {
        assert(is_ws(s.last()));
        lemma_rtrim_at(s.drop_last(), hi);
        assert(s.drop_last().take(hi) =~= s.take(hi));
    }
}

/// Remove surrounding ASCII whitespace, as report keys and values are
/// cleaned before interpretation.
pub fn trim(s: &str) -> (r: &str)
    ensures
        r@ == trimmed(s@),
{
    let n = s.unicode_len();
    let mut lo: usize = 0;
    while lo < n && ws_char(s.get_char(lo))
        invariant
            n == s@.len(),
            0 <= lo <= n,
            forall|j: int| 0 <= j < lo ==> is_ws(s@[j]),
        decreases n - lo,
    {
        lo = lo + 1;
    }
    proof {
        lemma_ltrim_at(s@, lo as int);
    }
    let mut hi: usize = n;
    while hi > lo && ws_char(s.get_char(hi - 1))
        invariant
            n == s@.len(),
            0 <= lo <= hi <= n,
            forall|j: int| 0 <= j < lo ==> is_ws(s@[j]),
            lo == n || !is_ws(s@[lo as int]),
            forall|j: int| hi <= j < n ==> is_ws(s@[j]),
        decreases hi,
    {
        hi = hi - 1;
    }
    let r = s.substring_char(lo, hi);
    proof {
        let t = s@.skip(lo as int);
        if hi == lo {
            lemma_rtrim_at(t, 0);
        } else {
            lemma_rtrim_at(t, hi - lo);
        }
        assert(t.take(hi - lo) =~= s@.subrange(lo as int, hi as int));
    }
    r
}

/// Character-for-character string equality, used to match report labels.
pub fn str_eq(a: &str, b: &str) -> (r: bool)
    ensures
        r == (a@ == b@),
{
    let na = a.unicode_len();
    let nb = b.unicode_len();
    if na != nb {
        return false;
    }
    let mut i: usize = 0;
    while i < na
        invariant
            na == a@.len(),
            na == b@.len(),
            0 <= i <= na,
            forall|j: int| 0 <= j < i ==> a@[j] == b@[j],
        decreases na - i,
    {
        if a.get_char(i) != b.get_char(i) {
            return false;
        }
        i = i + 1;
    }
    proof {
        assert(a@ =~= b@);
    }
    true
}

/// The string with leading copies of `c` removed.
pub open spec fn ltrim_c(s: Seq<char>, c: char) -> Seq<char>
    decreases s.len(),
{
    if s.len() > 0 && s[0] == c {
        ltrim_c(s.skip(1), c)
    } else {
        s
    }
}

/// The string with trailing copies of `c` removed.
pub open spec fn rtrim_c(s: Seq<char>, c: char) -> Seq<char>
    decreases s.len(),
{
    if s.len() > 0 && s.last() == c {
        rtrim_c(s.drop_last(), c)
    } else {
        s
    }
}

proof fn lemma_ltrim_c_at(s: Seq<char>, c: char, lo: int)
    requires
        0 <= lo <= s.len(),
        forall|j: int| 0 <= j < lo ==> s[j] == c,
        lo == s.len() || s[lo] != c,
    ensures
        ltrim_c(s, c) =~= s.skip(lo),
    decreases lo,
{
    if lo == 0 {
        assert(s.skip(0) =~= s);
    } else {
        lemma_ltrim_c_at(s.skip(1), c, lo - 1);
        assert(s.skip(1).skip(lo - 1) =~= s.skip(lo));
    }
}

proof fn lemma_rtrim_c_at(s: Seq<char>, c: char, hi: int)
    requires
        0 <= hi <= s.len(),
        forall|j: int| hi <= j < s.len() ==> s[j] == c,
        hi == 0 || s[hi - 1] != c,
    ensures
        rtrim_c(s, c) =~= s.take(hi),
    decreases s.len(),
{
    if hi == s.len() {
        assert(s.take(hi) =~= s);
    } else {
        lemma_rtrim_c_at(s.drop_last(), c, hi);
        assert(s.drop_last().take(hi) =~= s.take(hi));
    }
}

/// Remove trailing copies of `c`, as a percentage value sheds its `%`.
pub fn trim_end_char(s: &str, c: char) -> (r: &str)
    ensures
        r@ == rtrim_c(s@, c),
{
    let n = s.unicode_len();
    let mut hi: usize = n;
    while hi > 0 && s.get_char(hi - 1) == c
        invariant
            n == s@.len(),
            0 <= hi <= n,
            forall|j: int| hi <= j < n ==> s@[j] == c,
        decreases hi,
    {
        hi = hi - 1;
    }
    proof {
        lemma_rtrim_c_at(s@, c, hi as int);
    }
    let r = s.substring_char(0, hi);
    proof {
        assert(r@ =~= s@.take(hi as int));
    }
    r
}

/// Remove surrounding copies of `c`, as a command sheds its quotes.
pub fn trim_both_char(s: &str, c: char) -> (r: &str)
    ensures
        r@ == rtrim_c(ltrim_c(s@, c), c),
{
    let n = s.unicode_len();
    let mut lo: usize = 0;
    while lo < n && s.get_char(lo) == c
        invariant
            n == s@.len(),
            0 <= lo <= n,
            forall|j: int| 0 <= j < lo ==> s@[j] == c,
        decreases n - lo,
    {
        lo = lo + 1;
    }
    proof {
        lemma_ltrim_c_at(s@, c, lo as int);
    }
    let mut hi: usize = n;
    while hi > lo && s.get_char(hi - 1) == c
        invariant
            n == s@.len(),
            0 <= lo <= hi <= n,
            forall|j: int| 0 <= j < lo ==> s@[j] == c,
            lo == n || s@[lo as int] != c,
            forall|j: int| hi <= j < n ==> s@[j] == c,
        decreases hi,
    {
        hi = hi - 1;
    }
    let r = s.substring_char(lo, hi);
    proof {
        let t = s@.skip(lo as int);
        if hi == lo {
            lemma_rtrim_c_at(t, c, 0);
        } else {
            lemma_rtrim_c_at(t, c, hi - lo);
        }
        assert(t.take(hi - lo) =~= s@.subrange(lo as int, hi as int));
    }
    r
}

/// Position of the last `": "` in a report line, splitting label from
/// value, if the line has one.
pub open spec fn last_colon_space(s: Seq<char>) -> Option<int>
    decreases s.len(),
{
    if s.len() < 2 {
        None
    } else if s[s.len() - 2] == ':' && s[s.len() - 1] == ' ' {
        Some(s.len() - 2)
    } else {
        last_colon_space(s.drop_last())
    }
}

pub proof fn lemma_last_colon_space(s: Seq<char>)
    ensures
        match last_colon_space(s) {
            Some(i) => 0 <= i <= s.len() - 2 && s[i] == ':' && s[i + 1] == ' '
                && forall|k: int| i < k <= s.len() - 2 ==> !(#[trigger] s[k] == ':' && s[k + 1] == ' '),
            None => forall|k: int| 0 <= k <= s.len() - 2 ==> !(#[trigger] s[k] == ':' && s[k + 1] == ' '),
        },
    decreases s.len(),
{
    if s.len() >= 2 && !(s[s.len() - 2] == ':' && s[s.len() - 1] == ' ') {
        let t = s.drop_last();
        lemma_last_colon_space(t);
        match last_colon_space(t) {
            Some(i) => {
                assert forall|k: int| i < k <= s.len() - 2 implies !(#[trigger] s[k] == ':' && s[k + 1]
                    == ' ') by {
                    if k <= s.len() - 3 {
                        assert(s[k] == t[k] && s[k + 1] == t[k + 1]);
                    }
                }
            },
            None => {
                assert forall|k: int| 0 <= k <= s.len() - 2 implies !(#[trigger] s[k] == ':' && s[k + 1]
                    == ' ') by {
                    if k <= s.len() - 3 {
                        assert(s[k] == t[k] && s[k + 1] == t[k + 1]);
                    }
                }
            },
        }
    }
}

pub proof fn lemma_last_colon_space_found(s: Seq<char>, i: int)
    requires
        0 <= i <= s.len() - 2,
        s[i] == ':',
        s[i + 1] == ' ',
        forall|k: int| i < k <= s.len() - 2 ==> !(#[trigger] s[k] == ':' && s[k + 1] == ' '),
    ensures
        last_colon_space(s) == Some(i),
    decreases s.len(),
{
    if i < s.len() - 2 {
        let t = s.drop_last();
        assert(t[i] == ':' && t[i + 1] == ' ');
        assert forall|k: int| i < k <= t.len() - 2 implies !(#[trigger] t[k] == ':' && t[k + 1] == ' ') by {
            assert(t[k] == s[k] && t[k + 1] == s[k + 1]);
        }
        lemma_last_colon_space_found(t, i);
    }
}

/// Find the last `": "` in a line.
pub fn find_last_colon_space(s: &str) -> (r: Option<usize>)
    ensures
        match r {
            Some(i) => i + 2 <= s@.len() && last_colon_space(s@) == Some(i as int),
            None => last_colon_space(s@) is None,
        },
{
    let n = s.unicode_len();
    if n < 2 {
        proof {
            lemma_last_colon_space(s@);
        }
        return None;
    }
    let mut i: usize = n - 1;
    while i > 0
        invariant
            n == s@.len(),
            n >= 2,
            0 <= i <= n - 1,
            forall|k: int| i <= k <= n - 2 ==> !(#[trigger] s@[k] == ':' && s@[k + 1] == ' '),
        decreases i,
    {
        i = i - 1;
        if s.get_char(i) == ':' && s.get_char(i + 1) == ' ' {
            proof {
                lemma_last_colon_space_found(s@, i as int);
            }
            return Some(i);
        }
    }
    proof {
        lemma_last_colon_space(s@);
        if last_colon_space(s@) is Some {
            let j = last_colon_space(s@)->Some_0;
            assert(s@[j] == ':' && s@[j + 1] == ' ');
        }
    }
    None
}

/// Left-to-right, non-overlapping replacement of every occurrence of
/// `pat` by `rep`, as substitution tokens are expanded in job commands.
pub open spec fn replace_all(s: Seq<char>, pat: Seq<char>, rep: Seq<char>) -> Seq<char>
    decreases s.len(),
{
    if pat.len() == 0 || s.len() < pat.len() {
        s
    } else if s.take(pat.len() as int) == pat {
        rep + replace_all(s.skip(pat.len() as int), pat, rep)
    } else {
        seq![s[0]] + replace_all(s.skip(1), pat, rep)
    }
}

/// Whether `pat` occurs in `s` starting at `i`.
fn match_at(s: &str, i: usize, pat: &str) -> (r: bool)
    requires
        i + pat@.len() <= s@.len(),
        s@.len() <= usize::MAX,
    ensures
        r == (s@.subrange(i as int, i + pat@.len()) == pat@),
{
    let plen = pat.unicode_len();
    let mut k: usize = 0;
    while k < plen
        invariant
            plen == pat@.len(),
            i + plen <= s@.len(),
            s@.len() <= usize::MAX,
            0 <= k <= plen,
            forall|j: int| 0 <= j < k ==> s@[i + j] == pat@[j],
        decreases plen - k,
    {
        if s.get_char(i + k) != pat.get_char(k) {
            proof {
                assert(s@.subrange(i as int, i + plen)[k as int] != pat@[k as int]);
            }
            return false;
        }
        k = k + 1;
    }
    proof {
        assert(s@.subrange(i as int, i + plen) =~= pat@);
    }
    true
}

/// Replace every occurrence of `pat` in `s` by `rep`, left to right,
/// without rescanning replacements.
pub fn replace_all_str(s: &str, pat: &str, rep: &str) -> (r: String)
    requires
        pat@.len() > 0,
    ensures
        r@ == replace_all(s@, pat@, rep@),
{
    let n = s.unicode_len();
    let plen = pat.unicode_len();
    let mut out = String::new();
    let mut i: usize = 0;
    proof {
        assert(s@.skip(0) =~= s@);
        assert(Seq::<char>::empty() + replace_all(s@, pat@, rep@) =~= replace_all(
            s@,
            pat@,
            rep@,
        ));
    }
    while i < n
        invariant
            n == s@.len(),
            plen == pat@.len(),
            plen > 0,
            0 <= i <= n,
            replace_all(s@, pat@, rep@) == out@ + replace_all(s@.skip(i as int), pat@, rep@),
        decreases n - i,
    {
        let ghost t = s@.skip(i as int);
        if plen <= n - i && match_at(s, i, pat) {
            proof {
                assert(t.take(plen as int) =~= s@.subrange(i as int, i + plen));
                assert(t.skip(plen as int) =~= s@.skip(i + plen));
                assert(out@ + (rep@ + replace_all(s@.skip(i + plen), pat@, rep@)) =~= (out@
                    + rep@) + replace_all(s@.skip(i + plen), pat@, rep@));
            }
            out.append(rep);
            i = i + plen;
        } else {
            proof {
                if plen <= n - i {
                    assert(t.take(plen as int) =~= s@.subrange(i as int, i + plen));
                }
                assert(t.skip(1) =~= s@.skip(i + 1));
                if t.len() < plen {
                    assert(replace_all(t, pat@, rep@) == t);
                    assert(replace_all(t.skip(1), pat@, rep@) == t.skip(1));
                    assert(t =~= seq![t[0]] + t.skip(1));
                }
                assert(replace_all(t, pat@, rep@) == seq![s@[i as int]] + replace_all(
                    s@.skip(i + 1),
                    pat@,
                    rep@,
                ));
                assert(out@ + (seq![s@[i as int]] + replace_all(s@.skip(i + 1), pat@, rep@))
                    =~= (out@ + seq![s@[i as int]]) + replace_all(s@.skip(i + 1), pat@, rep@));
            }
            let ch = s.substring_char(i, i + 1);
            proof {
                assert(ch@ =~= seq![s@[i as int]]);
            }
            out.append(ch);
            i = i + 1;
        }
    }
    proof {
        assert(s@.skip(n as int) =~= Seq::<char>::empty());
        assert(out@ + Seq::<char>::empty() =~= out@);
    }
    out
}

/// Position of the first occurrence of `c`, if any.
pub open spec fn first_at(s: Seq<char>, c: char) -> Option<int>
    decreases s.len(),
{
    if s.len() == 0 {
        None
    } else if s[0] == c {
        Some(0)
    } else {
        match first_at(s.skip(1), c) {
            None => None,
            Some(j) => Some(j + 1),
        }
    }
}

pub proof fn lemma_first_at(s: Seq<char>, c: char)
    ensures
        match first_at(s, c) {
            Some(i) => 0 <= i < s.len() && s[i] == c && forall|k: int| 0 <= k < i ==> s[k] != c,
            None => forall|k: int| 0 <= k < s.len() ==> s[k] != c,
        },
    decreases s.len(),
{
    if s.len() > 0 && s[0] != c {
        let t = s.skip(1);
        lemma_first_at(t, c);
        match first_at(t, c) {
            Some(j) => {
                assert(s[j + 1] == t[j]);
                assert forall|k: int| 0 <= k < j + 1 implies s[k] != c by {
                    if k > 0 {
                        assert(s[k] == t[k - 1]);
                    }
                }
            },
            None => {
                assert forall|k: int| 0 <= k < s.len() implies s[k] != c by {
                    if k > 0 {
                        assert(s[k] == t[k - 1]);
                    }
                }
            },
        }
    }
}

/// The first index at which `c` occurs is exactly `first_at`.
pub proof fn lemma_first_at_found(s: Seq<char>, c: char, i: int)
    requires
        0 <= i < s.len(),
        s[i] == c,
        forall|k: int| 0 <= k < i ==> s[k] != c,
    ensures
        first_at(s, c) == Some(i),
    decreases s.len(),
{
    if i > 0 {
        lemma_first_at_found(s.skip(1), c, i - 1);
    }
}

/// Find the first occurrence of `c` in `s`.
pub fn find_char(s: &str, c: char) -> (r: Option<usize>)
    ensures
        match r {
            Some(i) => 0 <= i < s@.len() && first_at(s@, c) == Some(i as int),
            None => first_at(s@, c) is None,
        },
{
    let n = s.unicode_len();
    let mut i: usize = 0;
    while i < n
        invariant
            n == s@.len(),
            0 <= i <= n,
            forall|k: int| 0 <= k < i ==> s@[k] != c,
        decreases n - i,
    {
        if s.get_char(i) == c {
            proof {
                lemma_first_at_found(s@, c, i as int);
            }
            return Some(i);
        }
        i = i + 1;
    }
    proof {
        lemma_first_at(s@, c);
        if first_at(s@, c) is Some {
            let j = first_at(s@, c)->Some_0;
            assert(s@[j] == c);
        }
    }
    None
}

} // verus!
