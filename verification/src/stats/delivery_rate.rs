//! Recognizer for the client's delivery-rate report.
//!
//! A client log is expected to contain exactly one well-formed
//! `delivery_rate=<integer>` token; only the first occurrence is
//! authoritative, since retried connections can leave partial noise later in
//! the log. Absence of the token is a hard failure for that trial.

use vstd::prelude::*;

use crate::error::BoarError;
use crate::text::{
    chars_of, digit_run_end, digit_run_end_exec, digits_val, find_from, find_from_exec,
    lemma_digit_run_end, parse_digits,
};

verus! {

/// The key token that precedes the delivery-rate value.
pub open spec fn rate_key() -> Seq<char> {
    "delivery_rate="@
}

/// The delivery-rate value in `t`: the digit run right after the first
/// occurrence of the key, provided the key occurs and the run is non-empty.
pub open spec fn delivery_rate_of(t: Seq<char>) -> Option<nat> {
    match find_from(t, rate_key(), 0) {
        Option::None => Option::None,
        Option::Some(i) => {
            let s = i + rate_key().len();
            let e = digit_run_end(t, s);
            if e == s {
                Option::None
            } else {
                Option::Some(digits_val(t.subrange(s, e)))
            }
        },
    }
}

/// The delivery-rate sample in `t`, when one exists and fits a `u64`.
pub open spec fn delivery_rate_sample(t: Seq<char>) -> Option<u64> {
    match delivery_rate_of(t) {
        Option::Some(v) => if v <= u64::MAX {
            Option::Some(v as u64)
        } else {
            Option::None
        },
        Option::None => Option::None,
    }
}

/// One extracted delivery-rate observation, in bytes per second.
#[derive(Clone, Copy, Debug, PartialEq, Eq, Structural)]
pub struct DeliveryRate {
    pub rate: u64,
}

impl DeliveryRate {
    /// Extracts the delivery-rate sample from one client log.
    ///
    /// Returns the value of the first `delivery_rate=<integer>` token, and
    /// an extraction error when no such token occurs or its value does not
    /// fit a `u64`.
    pub fn new_from_logs(logs: &str) -> (r: Result<DeliveryRate, BoarError>)
        ensures
            match r {
                Ok(m) => delivery_rate_sample(logs@) == Option::<u64>::Some(m.rate),
                Err(e) => delivery_rate_sample(logs@) is None && e == BoarError::ExtractionError,
            },
    {
        let t = chars_of(logs);
        let key = chars_of("delivery_rate=");
        proof {
            reveal_strlit("delivery_rate=");
        }
        match find_from_exec(&t, &key, 0) {
            Option::None => Err(BoarError::ExtractionError),
            Option::Some(i) => {
                let s = i + key.len();
                let e = digit_run_end_exec(&t, s);
                if e == s {
                    Err(BoarError::ExtractionError)
                } else {
                    proof {
                        lemma_digit_run_end(t@, s as int);
                    }
                    match parse_digits(&t, s, e) {
                        Option::Some(v) => Ok(DeliveryRate { rate: v }),
                        Option::None => Err(BoarError::ExtractionError),
                    }
                }
            },
        }
    }
}

} // verus!
