//! Shared value types: periods, markets, error values.

use vstd::prelude::*;
use crate::text::{
    all_digits, digit_val, digits_val, extend_chars, find_first, is_digit, parse_uint_spec,
    parse_uint, str_to_chars, subvec, text_eq,
};

verus! {

/// A failure carried out of the library as plain text.
#[derive(Debug, Clone)]
pub struct Error {
    pub message: String,
}

impl Error {
    /// Builds an error from a message.
    pub fn new(message: &str) -> (r: Error)
        ensures
            r.message@ == message@,
    {
        Error { message: message.to_owned() }
    }
}

impl From<String> for Error {
    fn from(message: String) -> (r: Error) {
        Error { message }
    }
}

impl vstd::std_specs::convert::FromSpecImpl<String> for Error {
    open spec fn obeys_from_spec() -> bool {
        true
    }

    open spec fn from_spec(message: String) -> Error {
        Error { message }
    }
}

/// Why an extraction run failed as a whole. Per-cell parse failures are not
/// here: they only drop the single observation.
#[derive(PartialEq, Eq, Structural, Clone, Copy, Debug)]
pub enum ExtractError {
    /// No table carries the expected caption.
    NotFound,
    /// More than one table carries the expected caption; rather than guessing,
    /// the ambiguity is rejected.
    AmbiguousTable,
    /// A header row is missing, or one of the two expected axis markers never
    /// appears in the first header row.
    MissingAxis,
    /// A non-empty, non-estimate header cell does not parse as a period, so
    /// the column-to-period mapping is unreliable.
    MalformedPeriod,
}

/// A market segment code.
#[derive(PartialEq, Eq, Structural, Clone, Copy, Debug)]
pub enum Market {
    KOSPI,
    KOSDAQ,
    ETF,
}

/// The canonical text of a market code.
pub open spec fn market_text(m: Market) -> Seq<char> {
    match m {
        Market::KOSPI => "KOSPI"@,
        Market::KOSDAQ => "KOSDAQ"@,
        Market::ETF => "ETF"@,
    }
}

/// The market whose canonical text is `s`, if any.
pub open spec fn market_parse_spec(s: Seq<char>) -> Option<Market> {
    if s == market_text(Market::KOSPI) {
        Some(Market::KOSPI)
    } else if s == market_text(Market::KOSDAQ) {
        Some(Market::KOSDAQ)
    } else if s == market_text(Market::ETF) {
        Some(Market::ETF)
    } else {
        None
    }
}

impl Market {
    /// The canonical text of this market code.
    pub fn as_str(&self) -> (r: &'static str)
        ensures
            r@ == market_text(*self),
    {
        match self {
            Market::KOSPI => "KOSPI",
            Market::KOSDAQ => "KOSDAQ",
            Market::ETF => "ETF",
        }
    }

    /// Reads a market code back from its canonical text.
    pub fn from_text(s: &str) -> (r: Option<Market>)
        ensures
            r == market_parse_spec(s@),
    {
        let cs = str_to_chars(s);
        if text_eq(&cs, &str_to_chars("KOSPI")) {
            Some(Market::KOSPI)
        } else if text_eq(&cs, &str_to_chars("KOSDAQ")) {
            Some(Market::KOSDAQ)
        } else if text_eq(&cs, &str_to_chars("ETF")) {
            Some(Market::ETF)
        } else {
            None
        }
    }
}

impl core::str::FromStr for Market {
    type Err = Error;

    fn from_str(s: &str) -> Result<Market, Error> {
        match Market::from_text(s) {
            Some(m) => Ok(m),
            None => Err(Error::new("unknown market representation")),
        }
    }
}

/// A (year, month) period identifying one annual or quarterly column.
/// Ordered by year, then month.
#[derive(PartialEq, Eq, Structural, Clone, Copy, Debug, Hash)]
pub struct YearMonth {
    pub year: u16,
    pub month: u8,
}

/// Whether `c` separates the year from the month in a period's text.
pub open spec fn is_sep(c: char) -> bool {
    c == '.' || c == '-'
}

/// Reads a period from text of the form `YYYY.MM` or `YYYY-MM`: exactly one
/// separator, digits on both sides, the year at most `u16::MAX`, the month
/// between 1 and 12.
pub open spec fn ym_parse_spec(s: Seq<char>) -> Option<YearMonth> {
    match find_first(s, |c: char| is_sep(c)) {
        None => None,
        Some(i) => {
            let ypart = s.take(i);
            let mpart = s.subrange(i + 1, s.len() as int);
            if exists|j: int| 0 <= j < mpart.len() && is_sep(mpart[j]) {
                None
            } else {
                match (parse_uint_spec(ypart, u16::MAX as int), parse_uint_spec(
                    mpart,
                    u8::MAX as int,
                )) {
                    (Some(y), Some(m)) => if 1 <= m <= 12 {
                        Some(YearMonth { year: y as u16, month: m as u8 })
                    } else {
                        None
                    },
                    _ => None,
                }
            }
        },
    }
}

/// The digit character for a value below ten.
pub open spec fn dec_digit_char(n: int) -> char {
    (48 + n) as char
}

/// The decimal digits of `n`, most significant first.
pub open spec fn dec_digits(n: int) -> Seq<char>
    decreases n,
{
    if n < 10 {
        seq![dec_digit_char(n)]
    } else {
        dec_digits(n / 10).push(dec_digit_char(n % 10))
    }
}

/// The canonical text of a period: `YYYY.MM`, the month zero-padded to two
/// digits.
pub open spec fn ym_text_spec(ym: YearMonth) -> Seq<char> {
    dec_digits(ym.year as int) + seq!['.'] + (if ym.month >= 10 {
        dec_digits(ym.month as int)
    } else {
        seq!['0', dec_digit_char(ym.month as int)]
    })
}

/// Renders a number as decimal digits.
fn render_u16(n: u16) -> (r: Vec<char>)
    ensures
        r@ == dec_digits(n as int),
    decreases n,
{
    if n < 10 {
        let mut r: Vec<char> = Vec::new();
        let d = (48 + n) as u8 as char;
        proof {
            assert(d == dec_digit_char(n as int));
        }
        r.push(d);
        proof {
            assert(r@ =~= dec_digits(n as int));
        }
        r
    } else {
        let mut r = render_u16(n / 10);
        let d = (48 + n % 10) as u8 as char;
        proof {
            assert(d == dec_digit_char(n as int % 10));
        }
        r.push(d);
        r
    }
}

impl YearMonth {
    /// Builds a period from its parts.
    pub fn new(year: u16, month: u8) -> (r: Self)
        ensures
            r.year == year,
            r.month == month,
    {
        Self { year, month }
    }

    /// Strict ordering by year, then month.
    pub open spec fn lt_spec(self, other: YearMonth) -> bool {
        self.year < other.year || (self.year == other.year && self.month < other.month)
    }

    /// Whether this period comes strictly before `other`.
    pub fn is_before(&self, other: &YearMonth) -> (b: bool)
        ensures
            b == self.lt_spec(*other),
    {
        self.year < other.year || (self.year == other.year && self.month < other.month)
    }

    /// The canonical text of a period: the year's digits, a dot, and the
    /// two-digit month.
    pub fn to_text(&self) -> (r: Vec<char>)
        ensures
            r@ == ym_text_spec(*self),
    {
        let mut r = render_u16(self.year);
        r.push('.');
        if self.month >= 10 {
            let mm = render_u16(self.month as u16);
            extend_chars(&mut r, &mm);
        } else {
            r.push('0');
            let d = (48 + self.month) as u8 as char;
            proof {
                assert(d == dec_digit_char(self.month as int));
            }
            r.push(d);
        }
        proof {
            assert(r@ =~= ym_text_spec(*self));
        }
        r
    }

    /// Reads a period from text.
    pub fn parse_text(v: &Vec<char>) -> (r: Option<YearMonth>)
        ensures
            r == ym_parse_spec(v@),
    {
        let mut i: usize = 0;
        while i < v.len() && v[i] != '.' && v[i] != '-'
            invariant
                i <= v.len(),
                forall|j: int| 0 <= j < i ==> !is_sep(v@[j]),
            decreases v.len() - i,
        {
            i = i + 1;
        }
        proof {
            crate::text::lemma_find_first(v@, |c: char| is_sep(c));
        }
        if i == v.len() {
            proof {
                assert(find_first(v@, |c: char| is_sep(c)) is None);
            }
            return None;
        }
        proof {
            assert(is_sep(v@[i as int]));
            assert(find_first(v@, |c: char| is_sep(c)) == Some(i as int));
        }
        let ghost mpart = v@.subrange(i + 1, v@.len() as int);
        // reject a second separator
        let mut k: usize = i + 1;
        while k < v.len() && v[k] != '.' && v[k] != '-'
            invariant
                i + 1 <= k <= v.len(),
                forall|j: int| i + 1 <= j < k ==> !is_sep(v@[j]),
            decreases v.len() - k,
        {
            k = k + 1;
        }
        if k < v.len() {
            proof {
                assert(is_sep(mpart[k - (i + 1)]));
            }
            return None;
        }
        proof {
            assert(forall|j: int| 0 <= j < mpart.len() ==> mpart[j] == v@[i + 1 + j]);
            assert(!(exists|j: int| 0 <= j < mpart.len() && is_sep(mpart[j])));
        }
        let ypart_v = subvec(v, 0, i);
        let mpart_v = subvec(v, i + 1, v.len());
        proof {
            assert(ypart_v@ =~= v@.take(i as int));
            assert(mpart_v@ =~= mpart);
        }
        let y = match parse_uint(&ypart_v, 65_535) {
            Some(y) => y,
            None => {
                return None;
            },
        };
        let m = match parse_uint(&mpart_v, 255) {
            Some(m) => m,
            None => {
                return None;
            },
        };
        if 1 <= m && m <= 12 {
            Some(YearMonth { year: y as u16, month: m as u8 })
        } else {
            None
        }
    }
}

impl core::str::FromStr for YearMonth {
    type Err = Error;

    fn from_str(s: &str) -> Result<YearMonth, Error> {
        let cs = str_to_chars(s);
        match YearMonth::parse_text(&cs) {
            Some(ym) => Ok(ym),
            None => Err(Error::new("invalid period format")),
        }
    }
}

/// How the storage collaborator is reached; the surrounding application
/// fills it in (typically from its environment) and owns the connection.
#[derive(Debug, Clone)]
pub struct DatabaseConfig {
    pub url: String,
    pub max_connections: usize,
}

/// The extremes of a stored price series over some date range.
#[derive(PartialEq, Eq, Structural, Clone, Copy, Debug)]
pub struct StockPriceRange {
    pub highest: Option<u32>,
    pub lowest: Option<u32>,
}

proof fn lemma_dec_digits_are_digits(n: int)
    requires
        n >= 0,
    ensures
        all_digits(dec_digits(n)),
        digits_val(dec_digits(n)) == n,
        dec_digits(n).len() >= 1,
    decreases n,
{
    if n < 10 {
        assert(is_digit(dec_digit_char(n)));
        assert(dec_digits(n) =~= seq![dec_digit_char(n)]);
        assert(dec_digits(n).drop_last() =~= Seq::<char>::empty());
        assert(digits_val(Seq::<char>::empty()) == 0);
        assert(digits_val(dec_digits(n)) == 0 * 10 + digit_val(dec_digit_char(n)));
    } else {
        lemma_dec_digits_are_digits(n / 10);
        let pre = dec_digits(n / 10);
        assert(is_digit(dec_digit_char(n % 10)));
        assert(all_digits(pre.push(dec_digit_char(n % 10))));
        assert(dec_digits(n).drop_last() =~= pre);
        assert(digits_val(dec_digits(n)) == (n / 10) * 10 + (n % 10));
    }
}

/// Round trip: the canonical text of a valid period parses back to the same
/// period.
pub proof fn lemma_period_text_round_trip(ym: YearMonth)
    requires
        1 <= ym.month <= 12,
    ensures
        ym_parse_spec(ym_text_spec(ym)) == Some(ym),
{
    let yd = dec_digits(ym.year as int);
    let md = if ym.month >= 10 {
        dec_digits(ym.month as int)
    } else {
        seq!['0', dec_digit_char(ym.month as int)]
    };
    let s = ym_text_spec(ym);
    lemma_dec_digits_are_digits(ym.year as int);
    if ym.month >= 10 {
        lemma_dec_digits_are_digits(ym.month as int);
    } else {
        assert(is_digit('0'));
        assert(is_digit(dec_digit_char(ym.month as int)));
        assert(all_digits(md));
        assert(md.drop_last() =~= seq!['0']);
        assert(seq!['0'].drop_last() =~= Seq::<char>::empty());
        assert(digits_val(Seq::<char>::empty()) == 0);
        assert(digits_val(seq!['0']) == 0 * 10 + digit_val('0'));
        assert(digits_val(seq!['0']) == 0);
        assert(digits_val(md) == ym.month);
    }
    let dl = yd.len() as int;
    assert(s.len() == yd.len() + 1 + md.len());
    assert(s[dl] == '.');
    assert(forall|j: int| 0 <= j < dl ==> s[j] == yd[j] && is_digit(s[j]) && !is_sep(s[j]));
    assert(forall|j: int|
        dl + 1 <= j < s.len() ==> s[j] == md[j - (dl + 1)] && is_digit(s[j]) && !is_sep(s[j]));
    crate::text::lemma_find_first(s, |c: char| is_sep(c));
    match find_first(s, |c: char| is_sep(c)) {
        None => {
            assert(!is_sep(s[dl]));
            assert(false);
        },
        Some(i) => {
            assert(is_sep(s[i]));
            if i < dl {
                assert(false);
            }
            if i > dl {
                assert(!is_sep(s[dl]));
                assert(false);
            }
            assert(i == dl);
            let ypart = s.take(i);
            let mpart = s.subrange(i + 1, s.len() as int);
            assert(ypart =~= yd);
            assert(mpart =~= md);
            assert(!(exists|j: int| 0 <= j < mpart.len() && is_sep(mpart[j])));
            assert(parse_uint_spec(ypart, u16::MAX as int) == Some(ym.year as int));
            assert(parse_uint_spec(mpart, u8::MAX as int) == Some(ym.month as int));
        },
    }
}

} // verus!
