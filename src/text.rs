use vstd::prelude::*;

use crate::date::local_today;
use crate::error::{Field, ScrapeError};

verus! {

/// An ASCII decimal digit.
pub open spec fn is_digit(c: char) -> bool {
    '0' <= c && c <= '9'
}

/// The value of a string of decimal digits, most significant first.
pub open spec fn decimal_value(s: Seq<char>) -> int
    decreases s.len(),
{
    if s.len() == 0 {
        0
    } else {
        decimal_value(s.drop_last()) * 10 + (s.last() as int - '0' as int)
    }
}

/// The natural number that `s` writes in decimal digits, if `s` is a non-empty run of
/// digits whose value fits an `i32`.
pub open spec fn natural_i32(s: Seq<char>) -> Option<i32> {
    if s.len() > 0 && (forall|i: int| 0 <= i < s.len() ==> is_digit(#[trigger] s[i]))
        && decimal_value(s) <= i32::MAX {
        Some(decimal_value(s) as i32)
    } else {
        None
    }
}

/// What a displayed price may hold besides its digits: currency signs, spaces and
/// thousands separators.
pub open spec fn is_price_noise(c: char) -> bool {
    c == '\u{ffe5}' || c == '\u{a5}' || c == ',' || c == ' ' || c == '\u{3000}' || c == '\u{a0}'
        || c == '\t' || c == '\n' || c == '\r'
}

/// `s` without its price noise.
pub open spec fn strip_price_noise(s: Seq<char>) -> Seq<char>
    decreases s.len(),
{
    if s.len() == 0 {
        s
    } else if is_price_noise(s.last()) {
        strip_price_noise(s.drop_last())
    } else {
        strip_price_noise(s.drop_last()).push(s.last())
    }
}

/// The price, in the smallest currency unit, that a displayed price (`￥3,299`) stands for.
pub open spec fn price_value(text: Seq<char>) -> Option<i32> {
    natural_i32(strip_price_noise(text))
}

/// The number of units that an optional quantity indicator stands for: one where it is
/// absent, else the positive number it writes.
pub open spec fn quantity_value(text: Option<Seq<char>>) -> Option<i32> {
    match text {
        None => Some(1),
        Some(t) => match natural_i32(t) {
            Some(q) => if q > 0 {
                Some(q)
            } else {
                None
            },
            None => None,
        },
    }
}

/// A run of digits that does not fit an `i32` stays too large when it grows.
proof fn lemma_decimal_grows(s: Seq<char>, c: char)
    requires
        is_digit(c),
    ensures
        decimal_value(s.push(c)) >= decimal_value(s) * 10,
        decimal_value(s.push(c)) == decimal_value(s) * 10 + (c as int - '0' as int),
{
    assert(s.push(c).drop_last() =~= s);
}

/// The value of a digit string is never negative.
proof fn lemma_decimal_nonneg(s: Seq<char>)
    requires
        forall|i: int| 0 <= i < s.len() ==> is_digit(#[trigger] s[i]),
    ensures
        decimal_value(s) >= 0,
    decreases s.len(),
{
    if s.len() > 0 {
        let t = s.drop_last();
        assert forall|i: int| 0 <= i < t.len() implies is_digit(#[trigger] t[i]) by {
            assert(t[i] == s[i]);
        }
        lemma_decimal_nonneg(t);
    }
}

/// Reads the natural number that `text` writes in decimal digits, skipping price noise
/// where `skip_noise` is set.
fn scan_natural(text: &str, skip_noise: bool) -> (r: Option<i32>)
    ensures
        r == natural_i32(if skip_noise { strip_price_noise(text@) } else { text@ }),
{
    let n = text.unicode_len();
    let ghost kept: Seq<char> = Seq::empty();
    let mut nonempty = false;
    let mut all_digits = true;
    let mut value: i32 = 0;
    let mut i: usize = 0;
    while i < n
        invariant
            n == text@.len(),
            0 <= i <= n,
            kept == (if skip_noise {
                strip_price_noise(text@.subrange(0, i as int))
            } else {
                text@.subrange(0, i as int)
            }),
            nonempty == (kept.len() > 0),
            value >= 0,
            all_digits == ((forall|k: int| 0 <= k < kept.len() ==> is_digit(#[trigger] kept[k]))
                && decimal_value(kept) <= i32::MAX),
            all_digits ==> value == decimal_value(kept),
        decreases n - i,
    {
        let c = text.get_char(i);
        proof {
            let p = text@.subrange(0, i as int + 1);
            assert(p.drop_last() =~= text@.subrange(0, i as int));
            assert(p.last() == c);
        }
        if !(skip_noise && (c == '\u{ffe5}' || c == '\u{a5}' || c == ',' || c == ' ' || c
            == '\u{3000}' || c == '\u{a0}' || c == '\t' || c == '\n' || c == '\r')) {
            let ghost before = kept;
            proof {
                kept = kept.push(c);
            }
            if all_digits {
                if '0' <= c && c <= '9' {
                    let d: i32 = (c as u32 - '0' as u32) as i32;
                    proof {
                        lemma_decimal_grows(before, c);
                        assert(kept[kept.len() - 1] == c);
                        assert forall|k: int| 0 <= k < kept.len() implies is_digit(
                            #[trigger] kept[k],
                        ) by {
                            if k < before.len() {
                                assert(kept[k] == before[k]);
                            }
                        }
                    }
                    if value > (i32::MAX - d) / 10 {
                        all_digits = false;
                        proof {
                            assert(value * 10 + d > i32::MAX) by (nonlinear_arith)
                                requires
                                    value > (i32::MAX - d) / 10,
                                    0 <= d <= 9,
                            ;
                        }
                    } else {
                        proof {
                            assert(0 <= value * 10 + d <= i32::MAX) by (nonlinear_arith)
                                requires
                                    value <= (i32::MAX - d) / 10,
                                    0 <= d <= 9,
                                    value >= 0,
                            ;
                        }
                        value = value * 10 + d;
                    }
                } else {
                    all_digits = false;
                    proof {
                        assert(!is_digit(kept[kept.len() - 1]));
                    }
                }
            } else {
                proof {
                    if forall|k: int| 0 <= k < kept.len() ==> is_digit(#[trigger] kept[k]) {
                        assert forall|k: int| 0 <= k < before.len() implies is_digit(
                            #[trigger] before[k],
                        ) by {
                            assert(kept[k] == before[k]);
                        }
                        lemma_decimal_nonneg(before);
                        lemma_decimal_grows(before, kept[kept.len() - 1]);
                    }
                }
            }
            nonempty = true;
        }
        i = i + 1;
    }
    proof {
        assert(text@.subrange(0, n as int) =~= text@);
    }
    if all_digits && nonempty {
        Some(value)
    } else {
        None
    }
}

/// Reads a displayed price (`￥3,299` gives 3299): currency signs, spaces and thousands
/// separators are dropped, and what remains must be a natural number that fits an `i32`.
pub fn parse_price(text: &str) -> (r: Result<i32, ScrapeError>)
    ensures
        match price_value(text@) {
            Some(v) => r == Ok::<i32, ScrapeError>(v),
            None => r == Err::<i32, ScrapeError>(ScrapeError::Parse(Field::Price)),
        },
{
    match scan_natural(text, true) {
        Some(v) => Ok(v),
        None => Err(ScrapeError::Parse(Field::Price)),
    }
}

/// Reads an optional quantity indicator: one where it is absent, else a positive number.
pub fn parse_quantity(text: Option<&str>) -> (r: Result<i32, ScrapeError>)
    ensures
        match quantity_value(
            match text {
                Some(t) => Some(t@),
                None => None,
            },
        ) {
            Some(q) => r == Ok::<i32, ScrapeError>(q),
            None => r == Err::<i32, ScrapeError>(ScrapeError::Parse(Field::Quantity)),
        },
        r matches Ok(q) ==> q >= 1,
{
    match text {
        None => Ok(1),
        Some(t) => match scan_natural(t, false) {
            Some(q) => if q > 0 {
                Ok(q)
            } else {
                Err(ScrapeError::Parse(Field::Quantity))
            },
            None => Err(ScrapeError::Parse(Field::Quantity)),
        },
    }
}

/// The text of the first capture group of the leftmost match of `pattern` in `text`, as the
/// regex crate finds it; none where the pattern does not compile or does not match.
pub uninterp spec fn regex_first_group(pattern: Seq<char>, text: Seq<char>) -> Option<Seq<char>>;

/// Relies on regex's `Regex::new` and `Regex::captures` (with `Captures::get(1)`): the first
/// group of the leftmost match, which depends on the pattern and the text alone.
#[verifier::external_body]
fn first_group(pattern: &str, text: &str) -> (r: Option<String>)
    ensures
        match regex_first_group(pattern@, text@) {
            None => r is None,
            Some(g) => r matches Some(s) && s@ == g,
        },
{
    let re = match regex::Regex::new(pattern) {
        Ok(re) => re,
        Err(_) => return None,
    };
    match re.captures(text) {
        Some(caps) => match caps.get(1) {
            Some(m) => Some(m.as_str().to_string()),
            None => None,
        },
        None => None,
    }
}

/// Where a product link holds its ten-character product identifier.
pub const PRODUCT_LINK_PATTERN: &'static str = r"/gp/product/(\w{10})/ref=";

/// Reads the product identifier out of a product link.
pub fn product_id(href: &str) -> (r: Result<String, ScrapeError>)
    ensures
        match regex_first_group(PRODUCT_LINK_PATTERN@, href@) {
            Some(id) => r matches Ok(s) && s@ == id,
            None => r == Err::<String, ScrapeError>(ScrapeError::Parse(Field::ProductId)),
        },
{
    match first_group(PRODUCT_LINK_PATTERN, href) {
        Some(id) => Ok(id),
        None => Err(ScrapeError::Parse(Field::ProductId)),
    }
}

/// Where a label of the year selector (`2021年`) holds a year.
pub const YEAR_LABEL_PATTERN: &'static str = r"(\d{4})年";

/// The year that a label of the year selector names, if it names one.
pub open spec fn labelled_year(label: Seq<char>) -> Option<i32> {
    match regex_first_group(YEAR_LABEL_PATTERN@, label) {
        Some(g) => natural_i32(g),
        None => None,
    }
}

/// The year that a label names, or `fallback` for a label that names none
/// (`過去30日間`, the last thirty days).
pub fn year_of_label(label: &str, fallback: i32) -> (r: i32)
    ensures
        r == match labelled_year(label@) {
            Some(y) => y,
            None => fallback,
        },
{
    match first_group(YEAR_LABEL_PATTERN, label) {
        Some(g) => match scan_natural(g.as_str(), false) {
            Some(y) => y,
            None => fallback,
        },
        None => fallback,
    }
}

/// The year that a label of the year selector names; a label that names none (the last
/// thirty days, the last three months) stands for the year of yesterday, local time.
pub fn to_year_num_from_str(maybe_year_str: &str) -> (r: i32)
    ensures
        labelled_year(maybe_year_str@) matches Some(y) ==> r == y,
{
    let today = local_today();
    let yesterday_year = if today.month == 1 && today.day == 1 {
        today.year - 1
    } else {
        today.year
    };
    year_of_label(maybe_year_str, yesterday_year)
}

/// The earliest of the years, if there is any.
pub fn earliest_year(years: &Vec<i32>) -> (r: Option<i32>)
    ensures
        years@.len() == 0 <==> r is None,
        r matches Some(y) ==> years@.contains(y) && forall|i: int|
            0 <= i < years@.len() ==> y <= #[trigger] years@[i],
{
    if years.len() == 0 {
        return None;
    }
    let mut least = years[0];
    let mut i: usize = 1;
    while i < years.len()
        invariant
            1 <= i <= years@.len(),
            exists|w: int| 0 <= w < i && years@[w] == least,
            forall|k: int| 0 <= k < i ==> least <= #[trigger] years@[k],
        decreases years@.len() - i,
    {
        if years[i] < least {
            least = years[i];
        }
        i = i + 1;
    }
    Some(least)
}

} // verus!
