//! Recognizer for the client's transfer-duration report.
//!
//! A client log is expected to contain exactly one phrase of the form
//! `received in <decimal><unit>` with unit `ms` or `s`; only the first
//! occurrence is authoritative. The value is normalized to whole
//! milliseconds, rounding down: with unit `ms` the fractional digits are
//! dropped, with unit `s` the value is scaled by one thousand first.
//! Absence of the phrase is a hard failure for that trial.

use vstd::prelude::*;

use crate::error::BoarError;
use crate::text::{
    chars_of, digit_run_end, digit_run_end_exec, digits_val, lemma_digit_run_end, matches_at,
    matches_at_exec, parse_digits, pow10,
};

verus! {

/// The phrase that precedes the duration value.
pub open spec fn dur_phrase() -> Seq<char> {
    "received in "@
}

/// The index after an optional sign character at `p`.
pub open spec fn sign_skip(t: Seq<char>, p: int) -> int {
    if p < t.len() && (t[p] == '+' || t[p] == '-') {
        p + 1
    } else {
        p
    }
}

/// A minus sign stands at `p`.
pub open spec fn is_neg(t: Seq<char>, p: int) -> bool {
    p < t.len() && t[p] == '-'
}

/// The two-character unit `ms` stands at `k`.
pub open spec fn unit_is_ms(t: Seq<char>, k: int) -> bool {
    k + 2 <= t.len() && t[k] == 'm' && t[k + 1] == 's'
}

/// A unit (`ms` or `s`) stands at `k`.
pub open spec fn unit_at(t: Seq<char>, k: int) -> bool {
    unit_is_ms(t, k) || (k < t.len() && t[k] == 's')
}

/// A decimal number followed by a unit stands at `q`: either digits, or
/// digits, a dot and at least one fractional digit, then `ms` or `s`.
pub open spec fn num_match_at(t: Seq<char>, q: int) -> bool
    recommends
        0 <= q <= t.len(),
{
    let ae = digit_run_end(t, q);
    if ae < t.len() && t[ae] == '.' {
        let be = digit_run_end(t, ae + 1);
        be > ae + 1 && unit_at(t, be)
    } else {
        ae > q && unit_at(t, ae)
    }
}

/// A signed decimal number followed by a unit stands at `p`.
pub open spec fn signed_num_match_at(t: Seq<char>, p: int) -> bool
    recommends
        0 <= p <= t.len(),
{
    num_match_at(t, sign_skip(t, p))
}

/// The value of the first three fractional digits, zero-padded to three, so
/// that `b` read as a fraction of a second equals `frac_ms(b)` milliseconds,
/// rounded down.
pub open spec fn frac_ms(b: Seq<char>) -> nat {
    if b.len() >= 3 {
        digits_val(b.subrange(0, 3))
    } else {
        digits_val(b) * pow10((3 - b.len()) as nat)
    }
}

/// The duration in whole milliseconds of the number at `p` (after the
/// phrase), rounded down. A negative duration clamps to zero, matching a
/// saturating conversion to an unsigned count.
pub open spec fn num_ms_at(t: Seq<char>, p: int) -> nat
    recommends
        0 <= p <= t.len(),
        signed_num_match_at(t, p),
{
    let q = sign_skip(t, p);
    let ae = digit_run_end(t, q);
    let a = t.subrange(q, ae);
    if is_neg(t, p) {
        0
    } else if ae < t.len() && t[ae] == '.' {
        let be = digit_run_end(t, ae + 1);
        let b = t.subrange(ae + 1, be);
        if unit_is_ms(t, be) {
            digits_val(a)
        } else {
            digits_val(a) * 1000 + frac_ms(b)
        }
    } else {
        if unit_is_ms(t, ae) {
            digits_val(a)
        } else {
            digits_val(a) * 1000
        }
    }
}

/// The full duration report (phrase, then signed number with unit) stands
/// at `i`.
pub open spec fn duration_match_at(t: Seq<char>, i: int) -> bool {
    matches_at(t, dur_phrase(), i) && signed_num_match_at(t, i + dur_phrase().len())
}

/// The least index at or after `i` where a full duration report stands.
pub open spec fn find_duration_from(t: Seq<char>, i: int) -> Option<int>
    decreases t.len() + 1 - i,
{
    if i < 0 || i + dur_phrase().len() > t.len() {
        Option::None
    } else if duration_match_at(t, i) {
        Option::Some(i)
    } else {
        find_duration_from(t, i + 1)
    }
}

/// The duration in `t` in whole milliseconds, from the first full report.
pub open spec fn duration_ms_of(t: Seq<char>) -> Option<nat> {
    match find_duration_from(t, 0) {
        Option::None => Option::None,
        Option::Some(i) => Option::Some(num_ms_at(t, i + dur_phrase().len())),
    }
}

/// The duration sample in `t`, when one exists and fits a `u64`.
pub open spec fn duration_sample(t: Seq<char>) -> Option<u64> {
    match duration_ms_of(t) {
        Option::Some(v) => if v <= u64::MAX {
            Option::Some(v as u64)
        } else {
            Option::None
        },
        Option::None => Option::None,
    }
}

/// One extracted transfer-duration observation, in whole milliseconds.
#[derive(Clone, Copy, Debug, PartialEq, Eq, Structural)]
pub struct DownloadDuration {
    pub duration_ms: u64,
}

impl DownloadDuration {
    /// Extracts the transfer-duration sample from one client log.
    ///
    /// Returns the first `received in <decimal><unit>` report normalized to
    /// whole milliseconds, and an extraction error when no report occurs or
    /// the millisecond count does not fit a `u64`.
    pub fn new_from_logs(logs: &str) -> (r: Result<DownloadDuration, BoarError>)
        ensures
            match r {
                Ok(m) => duration_sample(logs@) == Option::<u64>::Some(m.duration_ms),
                Err(e) => duration_sample(logs@) is None && e == BoarError::ExtractionError,
            },
    {
        let t = chars_of(logs);
        let phrase = chars_of("received in ");
        proof {
            reveal_strlit("received in ");
        }
        let tlen: usize = t.len();
        let mut i: usize = 0;
        loop
            invariant
                i <= tlen,
                tlen == t@.len(),
                t@ == logs@,
                phrase@ == dur_phrase(),
                phrase@.len() >= 1,
                find_duration_from(t@, 0) == find_duration_from(t@, i as int),
            decreases t@.len() - i,
        {
            if phrase.len() > tlen - i {
                return Err(BoarError::ExtractionError);
            }
            if matches_at_exec(&t, &phrase, i) {
                let p = i + phrase.len();
                match Self::eval_number(&t, p) {
                    Option::Some(v) => {
                        return match v {
                            Option::Some(ms) => Ok(DownloadDuration { duration_ms: ms }),
                            Option::None => Err(BoarError::ExtractionError),
                        };
                    },
                    Option::None => {},
                }
            }
            i += 1;
        }
    }

    /// Evaluates the signed number with unit at `p`. Returns `None` when no
    /// number matches there; otherwise the millisecond value, or `None`
    /// inside when it does not fit a `u64`.
    fn eval_number(t: &Vec<char>, p: usize) -> (r: Option<Option<u64>>)
        requires
            p <= t@.len(),
        ensures
            match r {
                Option::None => !signed_num_match_at(t@, p as int),
                Option::Some(opt) => signed_num_match_at(t@, p as int) && (match opt {
                    Option::Some(v) => num_ms_at(t@, p as int) == v as nat,
                    Option::None => num_ms_at(t@, p as int) > u64::MAX,
                }),
            },
    {
        let tlen: usize = t.len();
        let neg = p < tlen && t[p] == '-';
        let q = if p < tlen && (t[p] == '+' || t[p] == '-') {
            p + 1
        } else {
            p
        };
        let ae = digit_run_end_exec(t, q);
        proof {
            lemma_digit_run_end(t@, q as int);
        }
        if ae < tlen && t[ae] == '.' {
            let be = digit_run_end_exec(t, ae + 1);
            proof {
                lemma_digit_run_end(t@, ae + 1);
            }
            if be == ae + 1 {
                return Option::None;
            }
            let ms_unit = tlen - be >= 2 && t[be] == 'm' && t[be + 1] == 's';
            let s_unit = be < tlen && t[be] == 's';
            if !(ms_unit || s_unit) {
                return Option::None;
            }
            if neg {
                return Option::Some(Option::Some(0));
            }
            let int_part = parse_digits(t, q, ae);
            if ms_unit {
                return Option::Some(int_part);
            }
            let frac: u64 = Self::frac_ms_exec(t, ae + 1, be);
            match int_part {
                Option::Some(a) => {
                    let total: u128 = (a as u128) * 1000 + (frac as u128);
                    if total <= 0xFFFF_FFFF_FFFF_FFFF {
                        Option::Some(Option::Some(total as u64))
                    } else {
                        Option::Some(Option::None)
                    }
                },
                Option::None => {
                    proof {
                        let aa = t@.subrange(q as int, ae as int);
                        assert(digits_val(aa) * 1000 >= digits_val(aa));
                    }
                    Option::Some(Option::None)
                },
            }
        } else {
            if ae == q {
                return Option::None;
            }
            let ms_unit = tlen - ae >= 2 && t[ae] == 'm' && t[ae + 1] == 's';
            let s_unit = ae < tlen && t[ae] == 's';
            if !(ms_unit || s_unit) {
                return Option::None;
            }
            if neg {
                return Option::Some(Option::Some(0));
            }
            let int_part = parse_digits(t, q, ae);
            if ms_unit {
                return Option::Some(int_part);
            }
            match int_part {
                Option::Some(a) => {
                    let total: u128 = (a as u128) * 1000;
                    if total <= 0xFFFF_FFFF_FFFF_FFFF {
                        Option::Some(Option::Some(total as u64))
                    } else {
                        Option::Some(Option::None)
                    }
                },
                Option::None => {
                    proof {
                        let aa = t@.subrange(q as int, ae as int);
                        assert(digits_val(aa) * 1000 >= digits_val(aa));
                    }
                    Option::Some(Option::None)
                },
            }
        }
    }

    /// The value of the first three digits of the fractional run
    /// `t[start..end]`, zero-padded to three digits.
    fn frac_ms_exec(t: &Vec<char>, start: usize, end: usize) -> (r: u64)
        requires
            start <= end <= t@.len(),
            end == digit_run_end(t@, start as int),
        ensures
            r as nat == frac_ms(t@.subrange(start as int, end as int)),
            r < 1000,
    {
        proof {
            lemma_digit_run_end(t@, start as int);
        }
        let b_len = end - start;
        if b_len >= 3 {
            proof {
                let b = t@.subrange(start as int, end as int);
                assert(b.subrange(0, 3) =~= t@.subrange(start as int, start + 3));
                crate::text::lemma_digits_val_bound(t@.subrange(start as int, start + 3));
                crate::text::lemma_pow10_concrete();
                assert(pow10(3) == 1000) by {
                    assert(pow10(0) == 1);
                    assert(pow10(1) == 10);
                    assert(pow10(2) == 100);
                }
            }
            match parse_digits(t, start, start + 3) {
                Option::Some(v) => v,
                Option::None => 0,
            }
        } else {
            proof {
                let b = t@.subrange(start as int, end as int);
                crate::text::lemma_digits_val_bound(b);
                assert(pow10(0) == 1);
                assert(pow10(1) == 10);
                assert(pow10(2) == 100);
                assert(pow10(3) == 1000);
            }
            let base = match parse_digits(t, start, end) {
                Option::Some(v) => v,
                Option::None => 0,
            };
            if b_len == 0 {
                base * 1000
            } else if b_len == 1 {
                base * 100
            } else {
                base * 10
            }
        }
    }
}

} // verus!
