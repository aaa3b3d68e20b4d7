//! Price normalisation: a currency-prefixed, locale-formatted price string
//! (`.` as thousands separator, `,` as decimal separator) becomes a
//! comparable number, or no value when the cleaned text is not a number.
//!
//! Prices carry at most two decimal places, so a parsed price is an exact
//! integer count of hundredths (cents).  A cleaned string with more than two
//! fraction digits, a sign or an exponent is treated as not a number.

use vstd::prelude::*;
use crate::text::{
    spec_trim, spec_remove_all, spec_commas_to_dots, chars_of, trim_chars, remove_all_chars,
    commas_to_dots,
};

verus! {

pub open spec fn spec_is_digit(c: char) -> bool {
    '0' <= c && c <= '9'
}

pub open spec fn digit_val(c: char) -> int {
    c as int - '0' as int
}

pub open spec fn all_digits(s: Seq<char>) -> bool {
    forall|i: int| 0 <= i < s.len() ==> spec_is_digit(s[i])
}

/// Value of a digit string read in base ten.
pub open spec fn digits_val(s: Seq<char>) -> int
    decreases s.len(),
{
    if s.len() == 0 {
        0
    } else {
        digits_val(s.drop_last()) * 10 + digit_val(s.last())
    }
}

/// `d` is the position of the decimal point of a well-formed decimal
/// numeral: digits either side, at least one digit in all, and at most two
/// fraction digits.
pub open spec fn dot_split_ok(s: Seq<char>, d: int) -> bool {
    &&& 0 <= d < s.len()
    &&& s[d] == '.'
    &&& s.len() >= 2
    &&& all_digits(s.subrange(0, d))
    &&& all_digits(s.subrange(d + 1, s.len() as int))
    &&& s.len() - d - 1 <= 2
}

/// Value in cents of a numeral split at dot position `d`.
pub open spec fn cents_of_split(s: Seq<char>, d: int) -> int {
    let frac = s.subrange(d + 1, s.len() as int);
    let scale: int = if frac.len() == 0 {
        100
    } else if frac.len() == 1 {
        10
    } else {
        1
    };
    digits_val(s.subrange(0, d)) * 100 + digits_val(frac) * scale
}

/// Cents denoted by a cleaned numeral: either all digits, or digits with
/// one decimal point and at most two fraction digits.
pub open spec fn spec_cents(s: Seq<char>) -> Option<int> {
    if s.len() == 0 {
        None
    } else if all_digits(s) {
        Some(digits_val(s) * 100)
    } else if exists|d: int| dot_split_ok(s, d) {
        Some(cents_of_split(s, choose|d: int| dot_split_ok(s, d)))
    } else {
        None
    }
}

/// The cleaning steps of price normalisation: drop the currency prefix,
/// drop thousands separators, turn the decimal comma into a point, trim.
pub open spec fn spec_cleaned(s: Seq<char>) -> Seq<char> {
    spec_trim(
        spec_commas_to_dots(spec_remove_all(spec_remove_all(s, seq!['R', '$']), seq!['.'])),
    )
}

/// Cents denoted by a raw price string, if any.
pub open spec fn spec_price_cents(s: Seq<char>) -> Option<int> {
    spec_cents(spec_cleaned(s))
}

pub proof fn lemma_digits_val_nonneg(s: Seq<char>)
    requires
        all_digits(s),
    ensures
        digits_val(s) >= 0,
    decreases s.len(),
{
    if s.len() > 0 {
        assert(all_digits(s.drop_last())) by {
            assert(forall|i: int|
                0 <= i < s.len() - 1 ==> s.drop_last()[i] == s[i] && spec_is_digit(s[i]));
        }
        lemma_digits_val_nonneg(s.drop_last());
        assert(spec_is_digit(s.last()));
    }
}

/// A digit string is worth at least any of its prefixes.
pub proof fn lemma_digits_val_prefix(s: Seq<char>, i: int)
    requires
        all_digits(s),
        0 <= i <= s.len(),
    ensures
        digits_val(s.subrange(0, i)) <= digits_val(s),
    decreases s.len() - i,
{
    if i == s.len() {
        assert(s.subrange(0, i) =~= s);
    } else {
        let t = s.subrange(0, i + 1);
        assert(t.drop_last() =~= s.subrange(0, i));
        assert(all_digits(t.drop_last()));
        lemma_digits_val_nonneg(t.drop_last());
        assert(digits_val(t) == digits_val(s.subrange(0, i)) * 10 + digit_val(s[i]));
        assert(digits_val(s.subrange(0, i)) * 10 >= digits_val(s.subrange(0, i))) by {
            lemma_digits_val_nonneg(s.subrange(0, i));
        }
        lemma_digits_val_prefix(s, i + 1);
    }
}

/// A fraction of at most two digits is worth at most 99, and a fraction of
/// at most one digit at most 9.
pub proof fn lemma_digits_val_small(frac: Seq<char>)
    requires
        all_digits(frac),
        frac.len() <= 2,
    ensures
        0 <= digits_val(frac) <= 99,
        frac.len() <= 1 ==> digits_val(frac) <= 9,
        frac.len() == 0 ==> digits_val(frac) == 0,
{
    assert(digits_val(Seq::<char>::empty()) == 0);
    if frac.len() == 1 {
        assert(frac.drop_last() =~= Seq::<char>::empty());
        assert(spec_is_digit(frac.last()));
    } else if frac.len() == 2 {
        assert(frac.drop_last().drop_last() =~= Seq::<char>::empty());
        assert(spec_is_digit(frac.drop_last().last()));
        assert(spec_is_digit(frac.last()));
        assert(digits_val(frac.drop_last()) == digit_val(frac.drop_last().last()));
    }
}

/// Two well-formed dot positions in one numeral coincide.
pub proof fn lemma_dot_split_unique(s: Seq<char>, d1: int, d2: int)
    requires
        dot_split_ok(s, d1),
        dot_split_ok(s, d2),
    ensures
        d1 == d2,
{
    if d1 < d2 {
        assert(spec_is_digit(s.subrange(0, d2)[d1]));
        assert(s[d1] == '.');
    }
    if d2 < d1 {
        assert(spec_is_digit(s.subrange(0, d1)[d2]));
        assert(s[d2] == '.');
    }
}

/// Base-ten accumulation over `s[lo..hi]`, all digits; `None` when the
/// value does not fit in a `u64`.
fn digits_to_u64(s: &Vec<char>, lo: usize, hi: usize) -> (r: Option<u64>)
    requires
        lo <= hi <= s@.len(),
        all_digits(s@.subrange(lo as int, hi as int)),
    ensures
        match r {
            Some(v) => v as int == digits_val(s@.subrange(lo as int, hi as int)),
            None => digits_val(s@.subrange(lo as int, hi as int)) > u64::MAX,
        },
{
    let ghost whole = s@.subrange(lo as int, hi as int);
    let mut acc: u64 = 0;
    let mut i: usize = lo;
    while i < hi
        invariant
            lo <= i <= hi <= s@.len(),
            all_digits(whole),
            whole == s@.subrange(lo as int, hi as int),
            acc as int == digits_val(s@.subrange(lo as int, i as int)),
        decreases hi - i,
    {
        let c = s[i];
        proof {
            assert(whole[i - lo] == s@[i as int]);
            assert(spec_is_digit(s@[i as int]));
        }
        let d: u64 = (c as u32 - 48) as u64;
        proof {
            assert(d as int == digit_val(s@[i as int]));
        }
        let next = match acc.checked_mul(10) {
            Some(t) => t.checked_add(d),
            None => None,
        };
        proof {
            assert(s@.subrange(lo as int, i + 1 as int).drop_last() =~= s@.subrange(
                lo as int,
                i as int,
            ));
            assert(digits_val(s@.subrange(lo as int, i + 1 as int)) == acc as int * 10
                + d as int);
        }
        match next {
            Some(v) => {
                acc = v;
            },
            None => {
                proof {
                    assert(forall|k: int|
                        0 <= k < i + 1 - lo ==> s@.subrange(lo as int, i + 1 as int)[k]
                            == whole[k]);
                    assert(s@.subrange(lo as int, i + 1 as int) =~= whole.subrange(
                        0,
                        i + 1 - lo,
                    ));
                    lemma_digits_val_prefix(whole, i + 1 - lo);
                    assert(digits_val(whole.subrange(0, i + 1 - lo)) > u64::MAX);
                }
                return None;
            },
        }
        i = i + 1;
    }
    proof {
        assert(s@.subrange(lo as int, hi as int) =~= whole);
    }
    Some(acc)
}

/// Find the first `.` in `s`, if any.
fn find_dot(s: &Vec<char>) -> (r: Option<usize>)
    ensures
        match r {
            Some(d) => {
                &&& 0 <= d < s@.len()
                &&& s@[d as int] == '.'
                &&& forall|k: int| 0 <= k < d ==> s@[k] != '.'
            },
            None => forall|k: int| 0 <= k < s@.len() ==> s@[k] != '.',
        },
{
    let n = s.len();
    let mut i: usize = 0;
    while i < n
        invariant
            0 <= i <= n,
            n == s@.len(),
            forall|k: int| 0 <= k < i ==> s@[k] != '.',
        decreases n - i,
    {
        if s[i] == '.' {
            return Some(i);
        }
        i = i + 1;
    }
    None
}

/// Check that `s[lo..hi]` consists of digits; otherwise give a witness.
fn check_digits(s: &Vec<char>, lo: usize, hi: usize) -> (r: bool)
    requires
        lo <= hi <= s@.len(),
    ensures
        r == all_digits(s@.subrange(lo as int, hi as int)),
{
    let mut i: usize = lo;
    while i < hi
        invariant
            lo <= i <= hi <= s@.len(),
            forall|k: int| lo <= k < i ==> spec_is_digit(s@[k]),
        decreases hi - i,
    {
        let c = s[i];
        if !('0' <= c && c <= '9') {
            proof {
                assert(s@.subrange(lo as int, hi as int)[i - lo] == s@[i as int]);
            }
            return false;
        }
        i = i + 1;
    }
    proof {
        assert(forall|k: int|
            0 <= k < hi - lo ==> s@.subrange(lo as int, hi as int)[k] == s@[lo + k]);
    }
    true
}

/// `iv * 100 + add`, or `None` past `u64::MAX`.
fn mul100_add(iv: u64, add: u64) -> (r: Option<u64>)
    ensures
        match r {
            Some(v) => v as int == iv as int * 100 + add as int,
            None => iv as int * 100 + add as int > u64::MAX,
        },
{
    match iv.checked_mul(100) {
        Some(t) => t.checked_add(add),
        None => None,
    }
}

/// Cents denoted by a cleaned numeral held in a character vector.
fn cents_of_chars(t: &Vec<char>) -> (r: Option<u64>)
    ensures
        match spec_cents(t@) {
            None => r is None,
            Some(v) => if 0 <= v && v <= u64::MAX {
                r == Some(v as u64)
            } else {
                r is None
            },
        },
{
    let n = t.len();
    if n == 0 {
        return None;
    }
    match find_dot(t) {
        None => {
            // no decimal point: the numeral must be all digits
            if !check_digits(t, 0, n) {
                proof {
                    assert(t@.subrange(0, n as int) =~= t@);
                    assert(!all_digits(t@));
                    assert forall|d: int| !dot_split_ok(t@, d) by {}
                }
                return None;
            }
            proof {
                assert(t@.subrange(0, n as int) =~= t@);
                lemma_digits_val_nonneg(t@);
            }
            match digits_to_u64(t, 0, n) {
                Some(v) => {
                    let r = mul100_add(v, 0);
                    proof {
                        if digits_val(t@) * 100 > u64::MAX {
                            assert(r is None);
                        }
                    }
                    r
                },
                None => {
                    proof {
                        assert(digits_val(t@) * 100 >= digits_val(t@)) by {
                            lemma_digits_val_nonneg(t@);
                        }
                    }
                    None
                },
            }
        },
        Some(d) => {
            proof {
                assert(!all_digits(t@)) by {
                    assert(!spec_is_digit(t@[d as int]));
                }
            }
            // everything off the point must be digits, the fraction short,
            // and at least one digit present
            let frac_len = n - d - 1;
            let well = n >= 2 && check_digits(t, 0, d) && check_digits(t, d + 1, n) && frac_len
                <= 2;
            if !well {
                proof {
                    assert forall|d2: int| !dot_split_ok(t@, d2) by {
                        if 0 <= d2 < t@.len() && t@[d2] == '.' {
                            if d2 > d {
                                assert(!all_digits(t@.subrange(0, d2))) by {
                                    assert(t@.subrange(0, d2)[d as int] == '.');
                                }
                            } else if d2 < d {
                                assert(t@[d2] != '.');
                            }
                        }
                    }
                }
                return None;
            }
            proof {
                assert(dot_split_ok(t@, d as int));
                let dc = choose|d2: int| dot_split_ok(t@, d2);
                lemma_dot_split_unique(t@, dc, d as int);
            }
            let iv = digits_to_u64(t, 0, d);
            let fv = digits_to_u64(t, d + 1, n);
            let scale: u64 = if frac_len == 0 {
                100
            } else if frac_len == 1 {
                10
            } else {
                1
            };
            proof {
                lemma_digits_val_nonneg(t@.subrange(0, d as int));
                lemma_digits_val_nonneg(t@.subrange(d + 1, n as int));
            }
            proof {
                lemma_digits_val_small(t@.subrange(d + 1, n as int));
            }
            match (iv, fv) {
                (Some(a), Some(b)) => {
                    // the fraction is worth at most 99, so the scaled
                    // addend stays below 100 cents
                    proof {
                        let frac = t@.subrange(d + 1, n as int);
                        assert(b as int * scale as int <= 99) by {
                            if frac.len() == 0 {
                                assert(b as int == 0);
                            } else if frac.len() == 1 {
                                assert(b as int <= 9 && scale == 10);
                            } else {
                                assert(b as int <= 99 && scale == 1);
                            }
                        }
                        assert(b as int * scale as int == digits_val(frac) * (
                        if frac.len() == 0 {
                            100int
                        } else if frac.len() == 1 {
                            10int
                        } else {
                            1int
                        }));
                    }
                    let badd = b * scale;
                    mul100_add(a, badd)
                },
                (None, _) => {
                    proof {
                        let ip = digits_val(t@.subrange(0, d as int));
                        assert(ip * 100 >= ip);
                        assert(cents_of_split(t@, d as int) >= ip);
                    }
                    None
                },
                (Some(_), None) => {
                    // a fraction of at most two digits always fits
                    proof {
                        assert(false);
                    }
                    None
                },
            }
        },
    }
}

/// Price Normalizer: strip the `R$` prefix and the thousands separators,
/// turn the decimal comma into a point, trim, and read the result as a
/// number of cents.  `None` when the cleaned text is not a number or its
/// value does not fit.
pub fn parse_price_cents(s: &str) -> (r: Option<u64>)
    ensures
        match spec_price_cents(s@) {
            None => r is None,
            Some(v) => if 0 <= v && v <= u64::MAX {
                r == Some(v as u64)
            } else {
                r is None
            },
        },
{
    let cs = chars_of(s);
    let mut pat_currency: Vec<char> = Vec::new();
    pat_currency.push('R');
    pat_currency.push('$');
    let mut pat_dot: Vec<char> = Vec::new();
    pat_dot.push('.');
    proof {
        assert(pat_currency@ =~= seq!['R', '$']);
        assert(pat_dot@ =~= seq!['.']);
    }
    let no_currency = remove_all_chars(&cs, &pat_currency);
    let no_seps = remove_all_chars(&no_currency, &pat_dot);
    let dotted = commas_to_dots(&no_seps);
    let cleaned = trim_chars(&dotted);
    proof {
        assert(cleaned@ == spec_cleaned(s@));
    }
    cents_of_chars(&cleaned)
}

} // verus!
