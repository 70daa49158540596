//! Calendar dates and the `"DD-MM-YYYY"` date-string parser.
//!
//! A date string is well-formed when it has exactly three segments separated
//! by `'-'`, each a non-empty run of decimal digits whose value fits in a
//! `u32`. No cross-validation of day against month or year is performed.

use vstd::prelude::*;

verus! {

/// A calendar date; the three fields are not cross-validated.
#[derive(Clone, Copy, PartialEq, Eq, Structural, Debug)]
pub struct Date {
    pub year: u32,
    pub month: u32,
    pub day: u32,
}

/// True for a decimal digit character.
pub open spec fn is_digit(c: char) -> bool {
    48 <= c as u32 <= 57
}

/// The numeric value of a digit character.
pub open spec fn digit_val(c: char) -> nat {
    (c as u32 - 48) as nat
}

/// The value of a run of digits read in base ten.
pub open spec fn digits_val(s: Seq<char>) -> nat
    decreases s.len(),
{
    if s.len() == 0 {
        0
    } else {
        digits_val(s.drop_last()) * 10 + digit_val(s.last())
    }
}

/// A non-empty run of digits whose value fits in a `u32`.
pub open spec fn is_u32_digits(s: Seq<char>) -> bool {
    &&& s.len() > 0
    &&& forall|i: int| 0 <= i < s.len() ==> is_digit(#[trigger] s[i])
    &&& digits_val(s) <= u32::MAX
}

/// The value of a digit run never shrinks as the run grows to the right.
pub proof fn lemma_digits_val_prefix_le(s: Seq<char>, i: int)
    requires
        0 <= i <= s.len(),
    ensures
        digits_val(s.take(i)) <= digits_val(s),
    decreases s.len() - i,
{
    if i == s.len() {
        assert(s.take(i) =~= s);
    } else {
        assert(s.take(i + 1).drop_last() =~= s.take(i));
        assert(digits_val(s.take(i)) <= digits_val(s.take(i + 1)));
        lemma_digits_val_prefix_le(s, i + 1);
    }
}

/// Positions `i < j` are the two dashes of a well-split date string: both
/// hold `'-'` and nothing else does.
pub open spec fn date_dashes_at(s: Seq<char>, i: int, j: int) -> bool {
    &&& 0 <= i < j < s.len()
    &&& s[i] == '-'
    &&& s[j] == '-'
    &&& forall|k: int| 0 <= k < s.len() && k != i && k != j ==> s[k] != '-'
}

/// A well-formed date string: exactly two dashes, and the three segments
/// between them are each a digit run fitting a `u32`.
pub open spec fn is_date_string(s: Seq<char>) -> bool {
    exists|i: int, j: int|
        {
            &&& #[trigger] date_dashes_at(s, i, j)
            &&& is_u32_digits(s.take(i))
            &&& is_u32_digits(s.subrange(i + 1, j))
            &&& is_u32_digits(s.skip(j + 1))
        }
}

/// The date a well-formed `"DD-MM-YYYY"` string denotes: day, then month,
/// then year.
pub open spec fn spec_date_of_string(s: Seq<char>) -> Date {
    let (i, j) = choose|i: int, j: int|
        {
            &&& #[trigger] date_dashes_at(s, i, j)
            &&& is_u32_digits(s.take(i))
            &&& is_u32_digits(s.subrange(i + 1, j))
            &&& is_u32_digits(s.skip(j + 1))
        };
    Date {
        year: digits_val(s.skip(j + 1)) as u32,
        month: digits_val(s.subrange(i + 1, j)) as u32,
        day: digits_val(s.take(i)) as u32,
    }
}

/// Two dash splittings of one string are the same splitting.
proof fn lemma_date_dashes_unique(s: Seq<char>, i1: int, j1: int, i2: int, j2: int)
    requires
        date_dashes_at(s, i1, j1),
        date_dashes_at(s, i2, j2),
    ensures
        i1 == i2,
        j1 == j2,
{
    assert(s[i2] == '-' && s[j2] == '-');
}

impl Date {
    /// A date from its three fields, in the argument order day, month, year.
    pub fn new(day: u32, month: u32, year: u32) -> (d: Date)
        ensures
            d == (Date { year, month, day }),
    {
        Date { year, month, day }
    }

    /// Parses a `"DD-MM-YYYY"` string: exactly three dash-separated decimal
    /// segments, or nothing.
    pub fn from_string(date_string: &str) -> (r: Option<Date>)
        ensures
            is_date_string(date_string@) ==> r == Some(spec_date_of_string(date_string@)),
            !is_date_string(date_string@) ==> r is None,
    {
        let ghost s = date_string@;
        let n = date_string.unicode_len();
        let mut dash1: usize = 0;
        let mut dash2: usize = 0;
        let mut ndash: usize = 0;
        let mut i: usize = 0;
        while i < n
            invariant
                n == s.len(),
                i <= n,
                ndash <= 2,
                s == date_string@,
                ndash == 0 ==> forall|k: int| 0 <= k < i ==> s[k] != '-',
                ndash == 1 ==> dash1 < i && s[dash1 as int] == '-' && forall|k: int|
                    0 <= k < i && k != dash1 ==> s[k] != '-',
                ndash == 2 ==> dash1 < dash2 < i && s[dash1 as int] == '-' && s[dash2 as int]
                    == '-' && forall|k: int| 0 <= k < i && k != dash1 && k != dash2 ==> s[k] != '-',
            decreases n - i,
        {
            let c = date_string.get_char(i);
            if c == '-' {
                if ndash == 0 {
                    dash1 = i;
                } else if ndash == 1 {
                    dash2 = i;
                } else {
                    proof {
                        if is_date_string(s) {
                            let (i2, j2) = choose|i2: int, j2: int|
                                {
                                    &&& #[trigger] date_dashes_at(s, i2, j2)
                                    &&& is_u32_digits(s.take(i2))
                                    &&& is_u32_digits(s.subrange(i2 + 1, j2))
                                    &&& is_u32_digits(s.skip(j2 + 1))
                                };
                            assert(s[dash1 as int] == '-' && s[dash2 as int] == '-' && s[i as int]
                                == '-');
                        }
                    }
                    return None;
                }
                ndash = ndash + 1;
            }
            i = i + 1;
        }
        if ndash != 2 {
            proof {
                if is_date_string(s) {
                    let (i2, j2) = choose|i2: int, j2: int|
                        {
                            &&& #[trigger] date_dashes_at(s, i2, j2)
                            &&& is_u32_digits(s.take(i2))
                            &&& is_u32_digits(s.subrange(i2 + 1, j2))
                            &&& is_u32_digits(s.skip(j2 + 1))
                        };
                    assert(s[i2] == '-' && s[j2] == '-');
                }
            }
            return None;
        }
        let part_day = date_string.substring_char(0, dash1);
        let part_month = date_string.substring_char(dash1 + 1, dash2);
        let part_year = date_string.substring_char(dash2 + 1, n);
        proof {
            assert(part_day@ =~= s.take(dash1 as int));
            assert(part_month@ =~= s.subrange(dash1 + 1, dash2 as int));
            assert(part_year@ =~= s.skip(dash2 + 1));
            assert(date_dashes_at(s, dash1 as int, dash2 as int));
        }
        let day = parse_u32(part_day);
        let month = parse_u32(part_month);
        let year = parse_u32(part_year);
        match (day, month, year) {
            (Some(d), Some(m), Some(y)) => {
                proof {
                    assert(is_date_string(s));
                    let (i2, j2) = choose|i2: int, j2: int|
                        {
                            &&& #[trigger] date_dashes_at(s, i2, j2)
                            &&& is_u32_digits(s.take(i2))
                            &&& is_u32_digits(s.subrange(i2 + 1, j2))
                            &&& is_u32_digits(s.skip(j2 + 1))
                        };
                    lemma_date_dashes_unique(s, i2, j2, dash1 as int, dash2 as int);
                }
                Some(Date { year: y, month: m, day: d })
            },
            _ => {
                proof {
                    if is_date_string(s) {
                        let (i2, j2) = choose|i2: int, j2: int|
                            {
                                &&& #[trigger] date_dashes_at(s, i2, j2)
                                &&& is_u32_digits(s.take(i2))
                                &&& is_u32_digits(s.subrange(i2 + 1, j2))
                                &&& is_u32_digits(s.skip(j2 + 1))
                            };
                        lemma_date_dashes_unique(s, i2, j2, dash1 as int, dash2 as int);
                    }
                }
                None
            },
        }
    }
}

/// Parses a non-empty run of decimal digits as a `u32`; anything else — an
/// empty string, a non-digit, or a value past `u32::MAX` — is rejected.
pub fn parse_u32(s: &str) -> (r: Option<u32>)
    ensures
        is_u32_digits(s@) ==> r == Some(digits_val(s@) as u32),
        !is_u32_digits(s@) ==> r is None,
{
    let n = s.unicode_len();
    if n == 0 {
        return None;
    }
    let mut acc: u64 = 0;
    let mut i: usize = 0;
    while i < n
        invariant
            n == s@.len(),
            0 < n,
            i <= n,
            acc == digits_val(s@.take(i as int)),
            acc <= u32::MAX,
            forall|k: int| 0 <= k < i ==> is_digit(#[trigger] s@[k]),
        decreases n - i,
    {
        let c = s.get_char(i);
        let cv = c as u32;
        if cv < 48 || cv > 57 {
            return None;
        }
        let d = (cv - 48) as u64;
        proof {
            assert(s@.take(i + 1).drop_last() =~= s@.take(i as int));
            assert(s@.take(i + 1).last() == s@[i as int]);
        }
        acc = acc * 10 + d;
        if acc > 0xffff_ffff {
            proof {
                lemma_digits_val_prefix_le(s@, i + 1);
            }
            return None;
        }
        i = i + 1;
    }
    proof {
        assert(s@.take(n as int) =~= s@);
    }
    Some(acc as u32)
}

} // verus!
