//! Recognizer for the server's startup-exit bandwidth reports.
//!
//! The server's cumulative log is scanned line by line for the structured
//! fragment `bandwidth: Some(<integer>)`. Lines without the fragment, or
//! with the wrapped integer absent, are silently skipped; zero matches over
//! the whole log is a valid outcome, and several matches can occur over one
//! server lifetime, so every line is examined.

use vstd::prelude::*;

use crate::text::{
    chars_of, digit_run_end, digit_run_end_exec, digits_val, lemma_digit_run_end, matches_at,
    matches_at_exec, parse_digits,
};

verus! {

/// The opening of the structured bandwidth fragment.
pub open spec fn bw_key() -> Seq<char> {
    "bandwidth: Some("@
}

/// The full fragment occurs at index `i` of line `l`: the key, a digit run
/// (possibly empty), and a closing parenthesis.
pub open spec fn bw_match_at(l: Seq<char>, i: int) -> bool {
    matches_at(l, bw_key(), i) && {
        let e = digit_run_end(l, i + bw_key().len());
        e < l.len() && l[e] == ')'
    }
}

/// The least index at or after `i` where the full fragment occurs in `l`.
pub open spec fn find_bw_from(l: Seq<char>, i: int) -> Option<int>
    decreases l.len() + 1 - i,
{
    if i < 0 || i + bw_key().len() > l.len() {
        Option::None
    } else if bw_match_at(l, i) {
        Option::Some(i)
    } else {
        find_bw_from(l, i + 1)
    }
}

/// The sample one line contributes: the wrapped integer of the first full
/// fragment, provided the digit run is non-empty and the value fits a `u64`.
pub open spec fn line_sample(l: Seq<char>) -> Option<u64> {
    match find_bw_from(l, 0) {
        Option::None => Option::None,
        Option::Some(i) => {
            let s = i + bw_key().len();
            let e = digit_run_end(l, s);
            if e == s {
                Option::None
            } else if digits_val(l.subrange(s, e)) <= u64::MAX {
                Option::Some(digits_val(l.subrange(s, e)) as u64)
            } else {
                Option::None
            }
        },
    }
}

/// All samples of a multi-line log, in encounter order.
pub open spec fn startup_samples(lines: Seq<Seq<char>>) -> Seq<u64>
    decreases lines.len(),
{
    if lines.len() == 0 {
        Seq::empty()
    } else {
        let pre = startup_samples(lines.drop_last());
        match line_sample(lines.last()) {
            Option::Some(v) => pre.push(v),
            Option::None => pre,
        }
    }
}

/// One extracted startup-exit observation: the bandwidth estimate at the
/// moment the congestion controller left its startup phase.
#[derive(Clone, Copy, Debug, PartialEq, Eq, Structural)]
pub struct StartupExit {
    pub bandwidth: u64,
}

impl StartupExit {
    /// Extracts every startup-exit bandwidth sample from a multi-line log,
    /// in encounter order. An empty result is a valid, non-error outcome.
    pub fn new_from_logs(logs: &Vec<String>) -> (r: Vec<StartupExit>)
        ensures
            r@.map_values(|m: StartupExit| m.bandwidth) == startup_samples(
                logs@.map_values(|s: String| s@),
            ),
    {
        let ghost all = logs@.map_values(|s: String| s@);
        let mut r: Vec<StartupExit> = Vec::new();
        let mut k: usize = 0;
        while k < logs.len()
            invariant
                k <= logs@.len(),
                all == logs@.map_values(|s: String| s@),
                r@.map_values(|m: StartupExit| m.bandwidth) == startup_samples(
                    all.take(k as int),
                ),
            decreases logs@.len() - k,
        {
            let line = chars_of(logs[k].as_str());
            let sample = Self::line_sample_exec(&line);
            proof {
                assert(all.take(k + 1).drop_last() =~= all.take(k as int));
                assert(all.take(k + 1).last() == line@);
            }
            match sample {
                Option::Some(v) => {
                    r.push(StartupExit { bandwidth: v });
                    proof {
                        assert(r@.map_values(|m: StartupExit| m.bandwidth) =~= startup_samples(
                            all.take(k + 1),
                        ));
                    }
                },
                Option::None => {},
            }
            k += 1;
        }
        proof {
            assert(all.take(logs@.len() as int) =~= all);
        }
        r
    }

    /// The sample one line contributes, if any.
    fn line_sample_exec(t: &Vec<char>) -> (r: Option<u64>)
        ensures
            r == line_sample(t@),
    {
        let key = chars_of("bandwidth: Some(");
        proof {
            reveal_strlit("bandwidth: Some(");
        }
        let tlen: usize = t.len();
        let mut i: usize = 0;
        loop
            invariant
                i <= tlen,
                tlen == t@.len(),
                key@ == bw_key(),
                key@.len() >= 1,
                find_bw_from(t@, 0) == find_bw_from(t@, i as int),
            decreases t@.len() - i,
        {
            if key.len() > tlen - i {
                return Option::None;
            }
            if matches_at_exec(t, &key, i) {
                let s = i + key.len();
                let e = digit_run_end_exec(t, s);
                if e < tlen && t[e] == ')' {
                    if e == s {
                        return Option::None;
                    }
                    proof {
                        lemma_digit_run_end(t@, s as int);
                    }
                    return parse_digits(t, s, e);
                }
            }
            i += 1;
        }
    }
}

} // verus!
