//! The copy count: reading it from text, and splitting it across workers.

use vstd::prelude::*;
use vstd::string::StrSliceExecFns;
use crate::key::{is_digit, numeral_value};

verus! {

/// Why a copy count was not read.
#[derive(Debug, Clone, Copy, PartialEq, Eq, Structural)]
pub enum CountError {
    /// The text is empty.
    Empty,
    /// The text is not an optional `+` followed by one or more digits.
    InvalidDigit,
    /// The number does not fit in a `usize`.
    Overflow,
}

/// The digits of a count's text: the text without one leading `+`.
pub open spec fn count_digits(s: Seq<char>) -> Seq<char> {
    if s.len() > 0 && s[0] == '+' {
        s.drop_first()
    } else {
        s
    }
}

pub open spec fn all_digits(t: Seq<char>) -> bool {
    forall|i: int| 0 <= i < t.len() ==> is_digit(#[trigger] t[i])
}

/// Whether `s` has the form of a count: an optional `+` and then at least
/// one digit.
pub open spec fn is_count_text(s: Seq<char>) -> bool {
    count_digits(s).len() > 0 && all_digits(count_digits(s))
}

proof fn lemma_numeral_value_grows(t: Seq<char>, i: int, j: int)
    requires
        0 <= i <= j <= t.len(),
        all_digits(t),
    ensures
        numeral_value(t.subrange(0, i)) <= numeral_value(t.subrange(0, j)),
    decreases j - i,
{
    if i < j {
        lemma_numeral_value_grows(t, i, j - 1);
        let h = t.subrange(0, j);
        assert(h.drop_last() =~= t.subrange(0, j - 1));
        assert(is_digit(t[j - 1]));
    }
}

/// What reading `s` as a copy count gives.
pub open spec fn count_result(s: Seq<char>) -> Result<usize, CountError> {
    if s.len() == 0 {
        Err(CountError::Empty)
    } else if !is_count_text(s) {
        Err(CountError::InvalidDigit)
    } else if numeral_value(count_digits(s)) > usize::MAX {
        Err(CountError::Overflow)
    } else {
        Ok(numeral_value(count_digits(s)) as usize)
    }
}

/// Reads a copy count written in base 10, with an optional leading `+`.
pub fn parse_count(s: &str) -> (r: Result<usize, CountError>)
    ensures
        r == count_result(s@),
        r matches Err(CountError::Empty) <==> s@.len() == 0,
        r matches Err(CountError::InvalidDigit) <==> s@.len() > 0 && !is_count_text(s@),
        r matches Err(CountError::Overflow) <==> is_count_text(s@) && numeral_value(
            count_digits(s@),
        ) > usize::MAX,
        r matches Ok(n) ==> n == numeral_value(count_digits(s@)),
{
    let len = s.unicode_len();
    if len == 0 {
        return Err(CountError::Empty);
    }
    let start: usize = if s.get_char(0) == '+' { 1 } else { 0 };
    let ghost t = count_digits(s@);
    assert(t =~= s@.subrange(start as int, len as int));
    if start == len {
        return Err(CountError::InvalidDigit);
    }
    let mut i: usize = start;
    while i < len
        invariant
            len == s@.len(),
            start <= i <= len,
            t == s@.subrange(start as int, len as int),
            t == count_digits(s@),
            forall|k: int| 0 <= k < i - start ==> is_digit(#[trigger] t[k]),
        decreases len - i,
    {
        let c = s.get_char(i);
        assert(t[i - start] == c);
        if !('0' <= c && c <= '9') {
            assert(!is_digit(t[i - start]));
            assert(!all_digits(t));
            return Err(CountError::InvalidDigit);
        }
        i = i + 1;
    }
    assert(all_digits(t));
    let mut value: usize = 0;
    let mut i: usize = start;
    assert(t.subrange(0, 0) =~= Seq::<char>::empty());
    while i < len
        invariant
            len == s@.len(),
            start <= i <= len,
            t == s@.subrange(start as int, len as int),
            t == count_digits(s@),
            all_digits(t),
            value == numeral_value(t.subrange(0, i - start)),
        decreases len - i,
    {
        let c = s.get_char(i);
        assert(t[i - start] == c);
        assert(is_digit(t[i - start]));
        let d: u32 = c as u32 - '0' as u32;
        let next: u128 = value as u128 * 10 + d as u128;
        proof {
            let h = t.subrange(0, i + 1 - start);
            assert(h.drop_last() =~= t.subrange(0, i - start));
            assert(h.last() == c);
            assert(numeral_value(h) == next);
        }
        if next > usize::MAX as u128 {
            proof {
                lemma_numeral_value_grows(t, i + 1 - start, t.len() as int);
                assert(t.subrange(0, t.len() as int) =~= t);
            }
            assert(t.len() > 0);
            assert(is_count_text(s@));
            assert(numeral_value(t) > usize::MAX);
            return Err(CountError::Overflow);
        }
        value = next as usize;
        i = i + 1;
    }
    assert(t.subrange(0, t.len() as int) =~= t);
    Ok(value)
}

/// How many copies each of `workers` workers makes out of `count`: the
/// integer quotient, so that the remainder is not copied.
pub fn per_worker(count: usize, workers: usize) -> (r: usize)
    requires
        workers > 0,
    ensures
        r == count / workers,
{
    count / workers
}

/// Relies on num_cpus::get: the number of logical CPUs that the process may
/// use, documented to be at least 1.
#[verifier::external_body]
fn logical_cpus() -> (r: usize)
    ensures
        r >= 1,
{
    num_cpus::get()
}

/// One worker for each logical CPU of this machine, and each worker's share
/// of `count`. Returns `(workers, share)`.
pub fn partition(count: usize) -> (r: (usize, usize))
    ensures
        r.0 >= 1,
        r.1 == count / r.0,
{
    let workers = logical_cpus();
    (workers, per_worker(count, workers))
}

} // verus!
