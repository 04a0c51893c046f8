//! Character-sequence utilities: whitespace trimming, joining of text
//! fragments, substring search, and digit parsing.
//!
//! All table text is handled as sequences of `char`, so that every rule about
//! markers, labels and numbers is stated over `Seq<char>` and checked.

use vstd::prelude::*;
use vstd::std_specs::iter::IteratorSpec;

verus! {

/// The characters treated as trimmable whitespace: the code points with the
/// Unicode White_Space property.
pub open spec fn is_space(c: char) -> bool {
    ||| 9 <= c as int <= 13
    ||| c == ' '
    ||| c == '\u{85}'
    ||| c == '\u{a0}'
    ||| c == '\u{1680}'
    ||| 0x2000 <= c as int <= 0x200a
    ||| c == '\u{2028}'
    ||| c == '\u{2029}'
    ||| c == '\u{202f}'
    ||| c == '\u{205f}'
    ||| c == '\u{3000}'
}

fn is_space_c(c: char) -> (b: bool)
    ensures
        b == is_space(c),
{
    ('\u{9}' <= c && c <= '\u{d}') || c == ' ' || c == '\u{85}' || c == '\u{a0}' || c
        == '\u{1680}' || ('\u{2000}' <= c && c <= '\u{200a}') || c == '\u{2028}' || c
        == '\u{2029}' || c == '\u{202f}' || c == '\u{205f}' || c == '\u{3000}'
}

/// `s` with leading whitespace removed.
pub open spec fn trim_start_spec(s: Seq<char>) -> Seq<char>
    decreases s.len(),
{
    if s.len() > 0 && is_space(s[0]) {
        trim_start_spec(s.drop_first())
    } else {
        s
    }
}

/// `s` with trailing whitespace removed.
pub open spec fn trim_end_spec(s: Seq<char>) -> Seq<char>
    decreases s.len(),
{
    if s.len() > 0 && is_space(s[s.len() - 1]) {
        trim_end_spec(s.drop_last())
    } else {
        s
    }
}

/// `s` with leading and trailing whitespace removed.
pub open spec fn trim_spec(s: Seq<char>) -> Seq<char> {
    trim_end_spec(trim_start_spec(s))
}

proof fn lemma_trim_start_char(s: Seq<char>, k: int)
    requires
        0 <= k <= s.len(),
        forall|i: int| 0 <= i < k ==> is_space(s[i]),
        k == s.len() || !is_space(s[k]),
    ensures
        trim_start_spec(s) == s.subrange(k, s.len() as int),
    decreases k,
{
    if k == 0 {
        assert(s.subrange(0, s.len() as int) =~= s);
    } else {
        assert(is_space(s[0]));
        let d = s.drop_first();
        assert(forall|i: int| 0 <= i < k - 1 ==> is_space(d[i]));
        lemma_trim_start_char(d, k - 1);
        assert(d.subrange(k - 1, d.len() as int) =~= s.subrange(k, s.len() as int));
    }
}

proof fn lemma_trim_end_char(s: Seq<char>, k: int)
    requires
        0 <= k <= s.len(),
        forall|i: int| k <= i < s.len() ==> is_space(s[i]),
        k == 0 || !is_space(s[k - 1]),
    ensures
        trim_end_spec(s) == s.subrange(0, k),
    decreases s.len() - k,
{
    if k == s.len() {
        assert(s.subrange(0, k) =~= s);
    } else {
        assert(is_space(s[s.len() - 1]));
        let d = s.drop_last();
        assert(forall|i: int| k <= i < d.len() ==> is_space(d[i]));
        lemma_trim_end_char(d, k);
        assert(d.subrange(0, k) =~= s.subrange(0, k));
    }
}

/// Copy of `v` with leading and trailing whitespace removed.
pub fn trimmed(v: &Vec<char>) -> (r: Vec<char>)
    ensures
        r@ == trim_spec(v@),
{
    let mut start: usize = 0;
    while start < v.len() && is_space_c(v[start])
        invariant
            start <= v.len(),
            forall|i: int| 0 <= i < start ==> is_space(v@[i]),
        decreases v.len() - start,
    {
        start = start + 1;
    }
    let mut end: usize = v.len();
    while end > start && is_space_c(v[end - 1])
        invariant
            start <= end <= v.len(),
            forall|i: int| end <= i < v@.len() ==> is_space(v@[i]),
        decreases end,
    {
        end = end - 1;
    }
    proof {
        lemma_trim_start_char(v@, start as int);
        let t = v@.subrange(start as int, v@.len() as int);
        assert(forall|i: int| end - start <= i < t.len() ==> is_space(t[i]));
        lemma_trim_end_char(t, end - start);
        assert(t.subrange(0, end - start) =~= v@.subrange(start as int, end as int));
    }
    let mut r: Vec<char> = Vec::new();
    let mut i: usize = start;
    while i < end
        invariant
            start <= i <= end <= v.len(),
            r@ == v@.subrange(start as int, i as int),
        decreases end - i,
    {
        r.push(v[i]);
        proof {
            assert(r@ =~= v@.subrange(start as int, i + 1 as int));
        }
        i = i + 1;
    }
    r
}

/// Whether `p` occurs in `s` starting at index `i`.
pub open spec fn has_sub_at(s: Seq<char>, p: Seq<char>, i: int) -> bool {
    0 <= i && i + p.len() <= s.len() && s.subrange(i, i + p.len()) == p
}

/// Whether `p` occurs anywhere in `s`.
pub open spec fn has_sub(s: Seq<char>, p: Seq<char>) -> bool {
    exists|i: int| has_sub_at(s, p, i)
}

fn match_at(hay: &Vec<char>, pat: &Vec<char>, i: usize) -> (b: bool)
    requires
        i + pat.len() <= hay.len(),
    ensures
        b == has_sub_at(hay@, pat@, i as int),
{
    let mut j: usize = 0;
    while j < pat.len()
        invariant
            j <= pat.len(),
            i + pat.len() <= hay.len(),
            forall|k: int| 0 <= k < j ==> hay@[i + k] == pat@[k],
        decreases pat.len() - j,
    {
        if hay[i + j] != pat[j] {
            proof {
                let sub = hay@.subrange(i as int, i + pat@.len());
                assert(sub[j as int] == hay@[i + j]);
                assert(sub != pat@);
            }
            return false;
        }
        j = j + 1;
    }
    proof {
        assert(hay@.subrange(i as int, i + pat@.len()) =~= pat@);
    }
    true
}

/// Whether the text `hay` contains the text `pat` as a contiguous run.
pub fn contains_text(hay: &Vec<char>, pat: &Vec<char>) -> (b: bool)
    ensures
        b == has_sub(hay@, pat@),
{
    if pat.len() > hay.len() {
        return false;
    }
    if pat.len() == 0 {
        proof {
            assert(has_sub_at(hay@, pat@, 0)) by {
                assert(hay@.subrange(0, 0) =~= pat@);
            }
        }
        return true;
    }
    let bound = hay.len() - pat.len();
    let mut i: usize = 0;
    while i <= bound
        invariant
            bound == hay.len() - pat.len(),
            1 <= pat.len() <= hay.len(),
            i <= bound + 1,
            forall|j: int| 0 <= j < i ==> !has_sub_at(hay@, pat@, j),
        decreases bound + 1 - i,
    {
        if match_at(hay, pat, i) {
            return true;
        }
        i = i + 1;
    }
    false
}

/// Whether the text `s` ends with the text `p`.
pub open spec fn ends_with_spec(s: Seq<char>, p: Seq<char>) -> bool {
    p.len() <= s.len() && s.subrange(s.len() - p.len(), s.len() as int) == p
}

/// Whether the text `hay` ends with the text `pat`.
pub fn ends_with_text(hay: &Vec<char>, pat: &Vec<char>) -> (b: bool)
    ensures
        b == ends_with_spec(hay@, pat@),
{
    if pat.len() > hay.len() {
        return false;
    }
    match_at(hay, pat, hay.len() - pat.len())
}

/// Whether two texts hold the same characters.
pub fn text_eq(a: &Vec<char>, b: &Vec<char>) -> (r: bool)
    ensures
        r == (a@ == b@),
{
    if a.len() != b.len() {
        return false;
    }
    let mut j: usize = 0;
    while j < a.len()
        invariant
            a.len() == b.len(),
            j <= a.len(),
            forall|k: int| 0 <= k < j ==> a@[k] == b@[k],
        decreases a.len() - j,
    {
        if a[j] != b[j] {
            return false;
        }
        j = j + 1;
    }
    proof {
        assert(a@ =~= b@);
    }
    true
}

/// The characters of `s`, in order, as a vector.
pub fn str_to_chars(s: &str) -> (r: Vec<char>)
    ensures
        r@ == s@,
{
    let mut it = s.chars();
    let mut r: Vec<char> = Vec::new();
    loop
        invariant_except_break
            r@ + it.remaining() == s@,
            it.obeys_prophetic_iter_laws(),
            it.decrease() is Some,
        ensures
            r@ == s@,
        decreases it.decrease()->0,
    {
        match it.next() {
            Some(c) => {
                r.push(c);
            },
            None => {
                proof {
                    assert(it.remaining() =~= Seq::<char>::empty());
                    assert(r@ =~= s@);
                }
                break ;
            },
        }
    }
    r
}

/// Whether `c` is a decimal digit.
pub open spec fn is_digit(c: char) -> bool {
    48 <= c as int <= 57
}

/// The numeric value of a digit character.
pub open spec fn digit_val(c: char) -> int {
    c as int - 48
}

/// Whether every character of `s` is a decimal digit.
pub open spec fn all_digits(s: Seq<char>) -> bool {
    forall|i: int| 0 <= i < s.len() ==> is_digit(s[i])
}

/// The value of `s` read as a run of decimal digits, most significant first.
pub open spec fn digits_val(s: Seq<char>) -> int
    decreases s.len(),
{
    if s.len() == 0 {
        0
    } else {
        digits_val(s.drop_last()) * 10 + digit_val(s.last())
    }
}

/// The value of `s` if it is a non-empty run of decimal digits whose value is
/// at most `max`; `None` otherwise.
pub open spec fn parse_uint_spec(s: Seq<char>, max: int) -> Option<int> {
    if s.len() > 0 && all_digits(s) && digits_val(s) <= max {
        Some(digits_val(s))
    } else {
        None
    }
}

pub proof fn lemma_digits_val_nonneg(s: Seq<char>)
    requires
        all_digits(s),
    ensures
        digits_val(s) >= 0,
    decreases s.len(),
{
    if s.len() > 0 {
        assert(all_digits(s.drop_last()));
        lemma_digits_val_nonneg(s.drop_last());
    }
}

proof fn lemma_digits_val_take_succ(s: Seq<char>, i: int)
    requires
        0 <= i < s.len(),
    ensures
        digits_val(s.take(i + 1)) == digits_val(s.take(i)) * 10 + digit_val(s[i]),
{
    assert(s.take(i + 1).drop_last() =~= s.take(i));
    assert(s.take(i + 1).last() == s[i]);
}

proof fn lemma_digits_val_prefix_le(s: Seq<char>, i: int)
    requires
        all_digits(s),
        0 <= i <= s.len(),
    ensures
        digits_val(s.take(i)) <= digits_val(s),
    decreases s.len() - i,
{
    if i == s.len() {
        assert(s.take(i) =~= s);
    } else {
        lemma_digits_val_take_succ(s, i);
        assert(all_digits(s.take(i)));
        lemma_digits_val_nonneg(s.take(i));
        lemma_digits_val_prefix_le(s, i + 1);
    }
}

/// Parses `v` as a non-empty run of decimal digits with value at most `max`.
pub fn parse_uint(v: &Vec<char>, max: u64) -> (r: Option<u64>)
    ensures
        r matches Some(n) ==> parse_uint_spec(v@, max as int) == Some(n as int),
        r is None ==> parse_uint_spec(v@, max as int) is None,
{
    if v.len() == 0 {
        return None;
    }
    let mut acc: u64 = 0;
    let mut i: usize = 0;
    while i < v.len()
        invariant
            i <= v.len(),
            v.len() > 0,
            all_digits(v@.take(i as int)),
            acc as int == digits_val(v@.take(i as int)),
            acc <= max,
        decreases v.len() - i,
    {
        let c = v[i];
        if c < '0' || c > '9' {
            assert(!is_digit(v@[i as int]));
            return None;
        }
        let d = (c as u32 - 48) as u64;
        proof {
            assert(c as u32 == c as int);
            assert(d == digit_val(v@[i as int]));
        }
        let wide: u128 = acc as u128 * 10 + d as u128;
        proof {
            lemma_digits_val_take_succ(v@, i as int);
        }
        if wide > max as u128 {
            proof {
                if all_digits(v@) {
                    lemma_digits_val_prefix_le(v@, i + 1);
                }
            }
            return None;
        }
        acc = wide as u64;
        i = i + 1;
    }
    proof {
        assert(v@.take(v@.len() as int) =~= v@);
    }
    Some(acc)
}

/// The first index of `s` holding a character that satisfies `p`.
pub open spec fn find_first(s: Seq<char>, p: spec_fn(char) -> bool) -> Option<int>
    decreases s.len(),
{
    if s.len() == 0 {
        None
    } else if p(s[0]) {
        Some(0)
    } else {
        match find_first(s.drop_first(), p) {
            Some(i) => Some(i + 1),
            None => None,
        }
    }
}

pub proof fn lemma_find_first(s: Seq<char>, p: spec_fn(char) -> bool)
    ensures
        match find_first(s, p) {
            Some(i) => 0 <= i < s.len() && p(s[i]) && forall|j: int| 0 <= j < i ==> !p(s[j]),
            None => forall|j: int| 0 <= j < s.len() ==> !p(s[j]),
        },
    decreases s.len(),
{
    if s.len() > 0 && !p(s[0]) {
        let d = s.drop_first();
        lemma_find_first(d, p);
        assert(forall|j: int| 1 <= j < s.len() ==> s[j] == d[j - 1]);
        match find_first(d, p) {
            Some(i) => {
                assert(find_first(s, p) == Some(i + 1));
                assert(forall|j: int| 0 <= j < i + 1 ==> !p(s[j])) by {
                    assert(forall|j: int| 1 <= j < i + 1 ==> s[j] == d[j - 1] && !p(d[j - 1]));
                }
            },
            None => {
                assert(forall|j: int| 0 <= j < s.len() ==> !p(s[j])) by {
                    assert(forall|j: int| 1 <= j < s.len() ==> s[j] == d[j - 1] && !p(d[j - 1]));
                }
            },
        }
    }
}

/// `s` with every comma removed.
pub open spec fn strip_commas_spec(s: Seq<char>) -> Seq<char>
    decreases s.len(),
{
    if s.len() == 0 {
        Seq::empty()
    } else {
        let pre = strip_commas_spec(s.drop_last());
        if s.last() == ',' {
            pre
        } else {
            pre.push(s.last())
        }
    }
}

/// Copy of `v` with every comma removed.
pub fn strip_commas(v: &Vec<char>) -> (r: Vec<char>)
    ensures
        r@ == strip_commas_spec(v@),
{
    let mut r: Vec<char> = Vec::new();
    let mut i: usize = 0;
    while i < v.len()
        invariant
            i <= v.len(),
            r@ == strip_commas_spec(v@.take(i as int)),
        decreases v.len() - i,
    {
        proof {
            assert(v@.take(i + 1 as int).drop_last() =~= v@.take(i as int));
        }
        if v[i] != ',' {
            r.push(v[i]);
        }
        i = i + 1;
    }
    proof {
        assert(v@.take(v@.len() as int) =~= v@);
    }
    r
}

/// Ten to the power `n` (for small non-negative `n`).
pub open spec fn pow10(n: int) -> int
    decreases n,
{
    if n <= 0 {
        1
    } else {
        10 * pow10(n - 1)
    }
}

/// The largest whole-unit magnitude a fixed-point value may carry; chosen so
/// that `MAX_UNITS * SCALE + (SCALE - 1)` still fits in an `i64`.
pub const MAX_UNITS: u64 = 922_337_203_685_476;

/// The fixed-point scale: values carry four decimal places.
pub const SCALE: u64 = 10_000;

/// The fractional digits `fp`, truncated to four places and scaled to
/// ten-thousandths.
pub open spec fn frac_scaled(fp: Seq<char>) -> int {
    if fp.len() >= 4 {
        digits_val(fp.take(4))
    } else {
        digits_val(fp) * pow10(4 - fp.len())
    }
}

/// Reads `raw` as a decimal number with optional thousands separators, an
/// optional leading minus sign and an optional fractional part, and returns
/// its value in fixed-point ten-thousandths. Fractional digits beyond the
/// fourth are dropped; magnitudes above `MAX_UNITS` whole units are rejected.
pub open spec fn parse_fixed_spec(raw: Seq<char>) -> Option<i64> {
    let t = strip_commas_spec(raw);
    let neg = t.len() > 0 && t[0] == '-';
    let u = if neg {
        t.drop_first()
    } else {
        t
    };
    let (ip, fp) = match find_first(u, |c: char| c == '.') {
        Some(i) => (u.take(i), u.subrange(i + 1, u.len() as int)),
        None => (u, Seq::<char>::empty()),
    };
    if all_digits(ip) && all_digits(fp) && ip.len() + fp.len() > 0 && digits_val(ip)
        <= MAX_UNITS as int {
        let mag = digits_val(ip) * (SCALE as int) + frac_scaled(fp);
        Some(
            (if neg {
                -mag
            } else {
                mag
            }) as i64,
        )
    } else {
        None
    }
}

/// Copy of the characters of `v` from `a` (inclusive) to `b` (exclusive).
pub fn subvec(v: &Vec<char>, a: usize, b: usize) -> (r: Vec<char>)
    requires
        a <= b <= v.len(),
    ensures
        r@ == v@.subrange(a as int, b as int),
{
    let mut r: Vec<char> = Vec::new();
    let mut i: usize = a;
    while i < b
        invariant
            a <= i <= b <= v.len(),
            r@ == v@.subrange(a as int, i as int),
        decreases b - i,
    {
        r.push(v[i]);
        proof {
            assert(r@ =~= v@.subrange(a as int, i + 1 as int));
        }
        i = i + 1;
    }
    r
}

fn all_digits_exec(v: &Vec<char>) -> (b: bool)
    ensures
        b == all_digits(v@),
{
    let mut i: usize = 0;
    while i < v.len()
        invariant
            i <= v.len(),
            forall|j: int| 0 <= j < i ==> is_digit(v@[j]),
        decreases v.len() - i,
    {
        let c = v[i];
        if c < '0' || c > '9' {
            assert(!is_digit(v@[i as int]));
            return false;
        }
        i = i + 1;
    }
    true
}

/// Parses a table cell's text as a fixed-point number in ten-thousandths,
/// after removing thousands separators.
pub fn parse_fixed(v: &Vec<char>) -> (r: Option<i64>)
    ensures
        r == parse_fixed_spec(v@),
{
    let t = strip_commas(v);
    let ghost tv = t@;
    let neg = t.len() > 0 && t[0] == '-';
    let off: usize = if neg {
        1
    } else {
        0
    };
    let ghost u = if neg {
        tv.drop_first()
    } else {
        tv
    };
    proof {
        assert(u =~= tv.subrange(off as int, tv.len() as int));
    }
    // find the first dot at or after `off`
    let mut dot: usize = off;
    while dot < t.len() && t[dot] != '.'
        invariant
            off <= dot <= t.len(),
            tv == t@,
            forall|j: int| off <= j < dot ==> tv[j] != '.',
        decreases t.len() - dot,
    {
        dot = dot + 1;
    }
    proof {
        lemma_find_first(u, |c: char| c == '.');
        if dot < tv.len() {
            assert(u[dot - off] == '.');
            assert(forall|j: int| 0 <= j < dot - off ==> u[j] != '.');
            assert(find_first(u, |c: char| c == '.') == Some(dot - off));
        } else {
            assert(forall|j: int| 0 <= j < u.len() ==> u[j] != '.');
            assert(find_first(u, |c: char| c == '.') is None);
        }
    }
    let ip = subvec(&t, off, dot);
    let fp = if dot < t.len() {
        subvec(&t, dot + 1, t.len())
    } else {
        Vec::<char>::new()
    };
    proof {
        if dot < tv.len() {
            assert(ip@ =~= u.take(dot - off));
            assert(fp@ =~= u.subrange(dot - off + 1, u.len() as int));
        } else {
            assert(ip@ =~= u);
            assert(fp@ =~= Seq::<char>::empty());
        }
    }
    if !all_digits_exec(&fp) {
        return None;
    }
    if ip.len() == 0 && fp.len() == 0 {
        return None;
    }
    let units = if ip.len() == 0 {
        proof {
            assert(all_digits(ip@));
        }
        0u64
    } else {
        match parse_uint(&ip, MAX_UNITS) {
            Some(n) => n,
            None => {
                return None;
            },
        }
    };
    proof {
        lemma_digits_val_nonneg(fp@);
        assert(pow10(0) == 1);
        assert(pow10(1) == 10);
        assert(pow10(2) == 100);
        assert(pow10(3) == 1000);
        assert(pow10(4) == 10000);
    }
    let frac: u64 = if fp.len() >= 4 {
        let f4 = subvec(&fp, 0, 4);
        proof {
            assert(f4@ =~= fp@.take(4));
            assert(all_digits(f4@));
            lemma_digits_val_bound(f4@);
        }
        match parse_uint(&f4, 9_999) {
            Some(n) => n,
            None => {
                proof {
                    assert(false);
                }
                0u64
            },
        }
    } else if fp.len() == 0 {
        0u64
    } else {
        proof {
            lemma_digits_val_bound(fp@);
        }
        let n: u64 = match parse_uint(&fp, 9_999) {
            Some(m) => m,
            None => {
                proof {
                    assert(false);
                }
                0u64
            },
        };
        if fp.len() == 1 {
            n * 1000
        } else if fp.len() == 2 {
            n * 100
        } else {
            n * 10
        }
    };
    assert(frac as int == frac_scaled(fp@));
    assert(frac <= 9_999);
    let mag: i64 = (units as i64) * (SCALE as i64) + (frac as i64);
    if neg {
        Some(-mag)
    } else {
        Some(mag)
    }
}

/// A run of `n` digits has value below ten to the `n`.
pub proof fn lemma_digits_val_bound(s: Seq<char>)
    requires
        all_digits(s),
    ensures
        digits_val(s) < pow10(s.len() as int),
    decreases s.len(),
{
    if s.len() > 0 {
        assert(all_digits(s.drop_last()));
        lemma_digits_val_bound(s.drop_last());
    }
}

/// The text fragments of a cell, each trimmed, joined by single spaces; empty
/// fragments contribute no separator ahead of the first non-empty one.
pub open spec fn joined_texts(ts: Seq<Seq<char>>) -> Seq<char>
    decreases ts.len(),
{
    if ts.len() == 0 {
        Seq::empty()
    } else {
        let pre = joined_texts(ts.drop_last());
        let t = trim_spec(ts.last());
        if pre.len() == 0 {
            pre + t
        } else {
            pre + seq![' '] + t
        }
    }
}

/// The visible text of a cell: its fragments trimmed and joined, then the
/// whole trimmed once more.
pub open spec fn cell_text_spec(ts: Seq<Seq<char>>) -> Seq<char> {
    trim_spec(joined_texts(ts))
}

/// The views of a sequence of character vectors.
pub open spec fn views_of(ts: Seq<Vec<char>>) -> Seq<Seq<char>> {
    ts.map_values(|t: Vec<char>| t@)
}

pub fn extend_chars(dst: &mut Vec<char>, src: &Vec<char>)
    ensures
        final(dst)@ == old(dst)@ + src@,
{
    let mut i: usize = 0;
    while i < src.len()
        invariant
            i <= src.len(),
            dst@ == old(dst)@ + src@.take(i as int),
        decreases src.len() - i,
    {
        dst.push(src[i]);
        proof {
            assert(old(dst)@ + src@.take(i + 1 as int) =~= (old(dst)@ + src@.take(i as int)).push(
                src@[i as int],
            ));
        }
        i = i + 1;
    }
    proof {
        assert(src@.take(src@.len() as int) =~= src@);
    }
}

/// The visible text of a cell built from its raw text fragments, as the
/// original markup shows it: fragments trimmed, joined with single spaces,
/// and the result trimmed.
pub fn get_text(texts: &Vec<Vec<char>>) -> (r: Vec<char>)
    ensures
        r@ == cell_text_spec(views_of(texts@)),
{
    let mut acc: Vec<char> = Vec::new();
    let mut i: usize = 0;
    while i < texts.len()
        invariant
            i <= texts.len(),
            acc@ == joined_texts(views_of(texts@).take(i as int)),
        decreases texts.len() - i,
    {
        let tt = trimmed(&texts[i]);
        proof {
            assert(views_of(texts@).take(i + 1 as int).drop_last() =~= views_of(texts@).take(
                i as int,
            ));
            assert(views_of(texts@).take(i + 1 as int).last() == texts@[i as int]@);
        }
        if acc.len() == 0 {
            extend_chars(&mut acc, &tt);
        } else {
            acc.push(' ');
            extend_chars(&mut acc, &tt);
            proof {
                let pre = joined_texts(views_of(texts@).take(i as int));
                assert(pre + seq![' '] + tt@ =~= (pre.push(' ')) + tt@);
            }
        }
        i = i + 1;
    }
    proof {
        assert(views_of(texts@).take(texts@.len() as int) =~= views_of(texts@));
    }
    trimmed(&acc)
}

} // verus!
