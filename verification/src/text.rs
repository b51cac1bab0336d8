//! Character-level scanning primitives shared by the metric recognizers.
//!
//! Log text is modelled as a sequence of characters. The recognizers are
//! specified over that model: where a digit run starts and ends, where a
//! literal pattern first occurs, and what number a digit run denotes.

use vstd::prelude::*;
use vstd::string::StrSliceExecFns;

verus! {

/// `c` is an ASCII decimal digit.
pub open spec fn is_digit(c: char) -> bool {
    48 <= c as u32 && c as u32 <= 57
}

/// The numeric value of a digit character.
pub open spec fn digit_val(c: char) -> nat {
    (c as u32 - 48) as nat
}

/// The number denoted by a digit sequence, most significant digit first.
pub open spec fn digits_val(s: Seq<char>) -> nat
    decreases s.len(),
{
    if s.len() == 0 {
        0
    } else {
        digits_val(s.drop_last()) * 10 + digit_val(s.last())
    }
}

/// Every character of `s` is a decimal digit.
pub open spec fn all_digits(s: Seq<char>) -> bool {
    forall|i: int| 0 <= i < s.len() ==> is_digit(#[trigger] s[i])
}

/// Ten to the power `n`.
pub open spec fn pow10(n: nat) -> nat
    decreases n,
{
    if n == 0 {
        1
    } else {
        10 * pow10((n - 1) as nat)
    }
}

/// The first index at or after `i` that does not hold a digit.
pub open spec fn digit_run_end(t: Seq<char>, i: int) -> int
    recommends
        0 <= i <= t.len(),
    decreases t.len() - i when 0 <= i <= t.len()
{
    if i < t.len() && is_digit(t[i]) {
        digit_run_end(t, i + 1)
    } else {
        i
    }
}

/// The pattern `pat` occurs in `t` starting at index `i`.
pub open spec fn matches_at(t: Seq<char>, pat: Seq<char>, i: int) -> bool {
    0 <= i && i + pat.len() <= t.len() && t.subrange(i, i + pat.len()) == pat
}

/// The least index at or after `i` where `pat` occurs in `t`, if any.
pub open spec fn find_from(t: Seq<char>, pat: Seq<char>, i: int) -> Option<int>
    decreases t.len() + 1 - i,
{
    if i < 0 || i + pat.len() > t.len() {
        None
    } else if matches_at(t, pat, i) {
        Some(i)
    } else {
        find_from(t, pat, i + 1)
    }
}

/// A digit run is bounded by its indices, consists of digits, and ends at a
/// non-digit or at the end of the text.
pub proof fn lemma_digit_run_end(t: Seq<char>, i: int)
    requires
        0 <= i <= t.len(),
    ensures
        i <= digit_run_end(t, i) <= t.len(),
        all_digits(t.subrange(i, digit_run_end(t, i))),
        digit_run_end(t, i) == t.len() || !is_digit(t[digit_run_end(t, i)]),
        forall|j: int| i <= j < digit_run_end(t, i) ==> is_digit(#[trigger] t[j]),
    decreases t.len() - i,
{
    if i < t.len() && is_digit(t[i]) {
        lemma_digit_run_end(t, i + 1);
        assert forall|j: int| i <= j < digit_run_end(t, i) implies is_digit(#[trigger] t[j]) by {
            if j > i {
                assert(is_digit(t[j]));
            }
        }
        assert(all_digits(t.subrange(i, digit_run_end(t, i))));
    } else {
        assert(t.subrange(i, i) =~= Seq::<char>::empty());
    }
}

/// A digit run that starts later inside an earlier run ends at the same place.
pub proof fn lemma_digit_run_end_step(t: Seq<char>, i: int)
    requires
        0 <= i < t.len(),
        is_digit(t[i]),
    ensures
        digit_run_end(t, i) == digit_run_end(t, i + 1),
{
}

/// Appending one more digit multiplies the value by ten and adds the digit.
pub proof fn lemma_digits_extend(s: Seq<char>, i: int, j: int)
    requires
        0 <= i <= j < s.len(),
    ensures
        digits_val(s.subrange(i, j + 1)) == digits_val(s.subrange(i, j)) * 10 + digit_val(s[j]),
{
    let a = s.subrange(i, j + 1);
    assert(a.drop_last() =~= s.subrange(i, j));
    assert(a.last() == s[j]);
}

/// The value of a digit sequence is below ten to the power of its length.
pub proof fn lemma_digits_val_bound(s: Seq<char>)
    requires
        all_digits(s),
    ensures
        digits_val(s) < pow10(s.len()),
    decreases s.len(),
{
    if s.len() > 0 {
        assert(all_digits(s.drop_last())) by {
            assert(forall|i: int| 0 <= i < s.len() - 1 ==> is_digit(#[trigger] s.drop_last()[i]));
        }
        lemma_digits_val_bound(s.drop_last());
        assert(digit_val(s.last()) <= 9);
    }
}

/// A digit sequence with a non-zero leading digit is at least ten to the
/// power of one less than its length.
pub proof fn lemma_digits_val_lower(s: Seq<char>)
    requires
        all_digits(s),
        s.len() > 0,
        digit_val(s[0]) >= 1,
    ensures
        digits_val(s) >= pow10((s.len() - 1) as nat),
    decreases s.len(),
{
    if s.len() == 1 {
        assert(digits_val(s) == digits_val(s.drop_last()) * 10 + digit_val(s.last()));
    } else {
        let d = s.drop_last();
        assert(all_digits(d)) by {
            assert(forall|i: int| 0 <= i < d.len() ==> s[i] == #[trigger] d[i]);
        }
        assert(d[0] == s[0]);
        lemma_digits_val_lower(d);
    }
}

/// A leading zero does not change the value of a digit sequence.
pub proof fn lemma_digits_strip_zero(s: Seq<char>)
    requires
        s.len() > 0,
        digit_val(s[0]) == 0,
    ensures
        digits_val(s) == digits_val(s.subrange(1, s.len() as int)),
    decreases s.len(),
{
    if s.len() == 1 {
        assert(digits_val(s) == digits_val(s.drop_last()) * 10 + digit_val(s.last()));
        assert(s.subrange(1, 1) =~= Seq::<char>::empty());
    } else {
        let d = s.drop_last();
        lemma_digits_strip_zero(d);
        assert(d.subrange(1, d.len() as int) =~= s.subrange(1, s.len() as int).drop_last());
        assert(s.subrange(1, s.len() as int).last() == s.last());
    }
}

/// Ten to a smaller power is no larger.
pub proof fn lemma_pow10_mono(a: nat, b: nat)
    requires
        a <= b,
    ensures
        pow10(a) <= pow10(b),
        pow10(a) >= 1,
    decreases b,
{
    if b > 0 {
        if a == b {
            lemma_pow10_mono((a - 1) as nat, (b - 1) as nat);
        } else {
            lemma_pow10_mono(a, (b - 1) as nat);
        }
    }
}

/// Concrete values of the powers of ten near the limits of 64-bit values.
pub proof fn lemma_pow10_concrete()
    ensures
        pow10(19) == 10_000_000_000_000_000_000,
        pow10(20) == 100_000_000_000_000_000_000,
        pow10(19) <= u64::MAX,
        pow10(20) > u64::MAX,
{
    assert(pow10(0) == 1);
    assert(pow10(1) == 10);
    assert(pow10(2) == 100);
    assert(pow10(3) == 1000);
    assert(pow10(4) == 10000);
    assert(pow10(5) == 100000);
    assert(pow10(6) == 1000000);
    assert(pow10(7) == 10000000);
    assert(pow10(8) == 100000000);
    assert(pow10(9) == 1000000000);
    assert(pow10(10) == 10000000000);
    assert(pow10(11) == 100000000000);
    assert(pow10(12) == 1000000000000);
    assert(pow10(13) == 10000000000000);
    assert(pow10(14) == 100000000000000);
    assert(pow10(15) == 1000000000000000);
    assert(pow10(16) == 10000000000000000);
    assert(pow10(17) == 100000000000000000);
    assert(pow10(18) == 1000000000000000000);
    assert(pow10(19) == 10000000000000000000);
    assert(pow10(20) == 100000000000000000000);
}

/// The characters of a string, as an indexable vector.
pub fn chars_of(s: &str) -> (r: Vec<char>)
    ensures
        r@ == s@,
{
    let n = s.unicode_len();
    let mut r: Vec<char> = Vec::new();
    let mut i: usize = 0;
    while i < n
        invariant
            n == s@.len(),
            i <= n,
            r@ == s@.take(i as int),
        decreases n - i,
    {
        r.push(s.get_char(i));
        proof {
            assert(s@.take(i + 1) =~= s@.take(i as int).push(s@[i as int]));
        }
        i += 1;
    }
    proof {
        assert(s@.take(n as int) =~= s@);
    }
    r
}

/// Whether `c` is an ASCII decimal digit.
pub fn is_digit_exec(c: char) -> (b: bool)
    ensures
        b == is_digit(c),
{
    let u = c as u32;
    48 <= u && u <= 57
}

/// The first index at or after `i` in `t` that does not hold a digit.
pub fn digit_run_end_exec(t: &Vec<char>, i: usize) -> (r: usize)
    requires
        i <= t@.len(),
    ensures
        r as int == digit_run_end(t@, i as int),
        i <= r <= t@.len(),
{
    let mut j: usize = i;
    while j < t.len() && is_digit_exec(t[j])
        invariant
            i <= j <= t@.len(),
            digit_run_end(t@, i as int) == digit_run_end(t@, j as int),
        decreases t@.len() - j,
    {
        proof {
            lemma_digit_run_end_step(t@, j as int);
        }
        j += 1;
    }
    proof {
        lemma_digit_run_end(t@, j as int);
    }
    j
}

/// Whether `pat` occurs in `t` starting exactly at `i`.
pub fn matches_at_exec(t: &Vec<char>, pat: &Vec<char>, i: usize) -> (b: bool)
    requires
        i <= t@.len(),
    ensures
        b == matches_at(t@, pat@, i as int),
{
    let tlen: usize = t.len();
    if pat.len() > tlen - i {
        return false;
    }
    let mut k: usize = 0;
    while k < pat.len()
        invariant
            k <= pat@.len(),
            tlen == t@.len(),
            i + pat@.len() <= tlen,
            forall|m: int| 0 <= m < k ==> t@[i + m] == pat@[m],
        decreases pat@.len() - k,
    {
        if t[i + k] != pat[k] {
            proof {
                assert(t@.subrange(i as int, i + pat@.len())[k as int] == t@[i + k]);
            }
            return false;
        }
        k += 1;
    }
    proof {
        assert(t@.subrange(i as int, i + pat@.len()) =~= pat@);
    }
    true
}

/// The least index at or after `from` where `pat` occurs in `t`, if any.
pub fn find_from_exec(t: &Vec<char>, pat: &Vec<char>, from: usize) -> (r: Option<usize>)
    requires
        from <= t@.len(),
        pat@.len() >= 1,
    ensures
        match r {
            Some(i) => find_from(t@, pat@, from as int) == Some(i as int) && from <= i
                && matches_at(t@, pat@, i as int),
            None => find_from(t@, pat@, from as int) is None,
        },
{
    let tlen: usize = t.len();
    let mut i: usize = from;
    loop
        invariant
            from <= i <= tlen,
            tlen == t@.len(),
            pat@.len() >= 1,
            find_from(t@, pat@, from as int) == find_from(t@, pat@, i as int),
        decreases t@.len() - i,
    {
        if pat.len() > tlen - i {
            return None;
        }
        if matches_at_exec(t, pat, i) {
            return Some(i);
        }
        i += 1;
    }
}

/// The number denoted by the digit run `t[start..end]`, if it fits a `u64`.
pub fn parse_digits(t: &Vec<char>, start: usize, end: usize) -> (r: Option<u64>)
    requires
        start <= end <= t@.len(),
        all_digits(t@.subrange(start as int, end as int)),
    ensures
        match r {
            Some(x) => x as nat == digits_val(t@.subrange(start as int, end as int)),
            None => digits_val(t@.subrange(start as int, end as int)) > u64::MAX,
        },
{
    let ghost whole = t@.subrange(start as int, end as int);
    let mut z: usize = start;
    while z < end && t[z] as u32 == 48
        invariant
            start <= z <= end <= t@.len(),
            digits_val(whole) == digits_val(t@.subrange(z as int, end as int)),
            whole == t@.subrange(start as int, end as int),
        decreases end - z,
    {
        proof {
            let cur = t@.subrange(z as int, end as int);
            lemma_digits_strip_zero(cur);
            assert(cur.subrange(1, cur.len() as int) =~= t@.subrange(z + 1, end as int));
        }
        z += 1;
    }
    let ghost rest = t@.subrange(z as int, end as int);
    proof {
        assert(forall|m: int| 0 <= m < rest.len() ==> rest[m] == whole[z - start + m]);
        assert(all_digits(rest));
    }
    if end - z == 0 {
        proof {
            assert(rest =~= Seq::<char>::empty());
        }
        return Some(0);
    }
    if end - z > 20 {
        proof {
            assert(rest[0] == t@[z as int]);
            assert(digit_val(rest[0]) >= 1);
            lemma_digits_val_lower(rest);
            lemma_pow10_mono(20, (rest.len() - 1) as nat);
            lemma_pow10_concrete();
        }
        return None;
    }
    let mut acc: u128 = 0;
    let mut j: usize = z;
    while j < end
        invariant
            z <= j <= end <= t@.len(),
            end - z <= 20,
            acc as nat == digits_val(t@.subrange(z as int, j as int)),
            (acc as nat) < pow10((j - z) as nat),
            all_digits(t@.subrange(z as int, end as int)),
        decreases end - j,
    {
        proof {
            assert(is_digit(t@[j as int])) by {
                let cur = t@.subrange(z as int, end as int);
                assert(cur[j - z] == t@[j as int]);
            }
            lemma_digits_extend(t@, z as int, j as int);
            lemma_pow10_mono((j - z) as nat, 19);
            lemma_pow10_concrete();
        }
        let d: u128 = (t[j] as u32 - 48) as u128;
        acc = acc * 10 + d;
        j += 1;
    }
    proof {
        assert(t@.subrange(z as int, j as int) =~= rest);
        assert(digits_val(whole) == digits_val(rest));
    }
    if acc <= 0xFFFF_FFFF_FFFF_FFFF {
        Some(acc as u64)
    } else {
        None
    }
}

} // verus!
