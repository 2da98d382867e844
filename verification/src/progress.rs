//! Parsing the progress lines a Git clone prints into one overall
//! percentage.
//!
//! Git reports each phase separately; the two long ones are mapped onto one
//! scale, receiving objects onto 0–90 and resolving deltas onto 90–100, so
//! that the overall number grows monotonically as the phases follow each
//! other.  Feeding these samples through the task table keeps every task's
//! stored progress non-decreasing whatever order samples arrive in.

use vstd::prelude::*;

use crate::text::{all_digits, contains_sub, dec_val, find_char, first_at, is_digit, match_at,
    parse_u32};

verus! {

/// Where the digit run ending at `m` begins: scanning left from `m`, the
/// first position whose left neighbour is no digit.
pub open spec fn digit_run_start(l: Seq<char>, m: int) -> int
    decreases m,
{
    if m <= 0 {
        0
    } else if is_digit(l[m - 1]) {
        digit_run_start(l, m - 1)
    } else {
        m
    }
}

/// A line that carries a percentage: a `%` occurs, a non-empty digit run
/// ends right before the first one, and it reads at most 100.
pub open spec fn percent_wf(l: Seq<char>) -> bool {
    let m = first_at(l, '%', 0);
    let a = digit_run_start(l, m);
    &&& m < l.len()
    &&& a < m
    &&& all_digits(l.subrange(a, m))
    &&& dec_val(l.subrange(a, m)) <= 100
}

/// The percentage standing right before the line's first `%`.
pub open spec fn percent_of(l: Seq<char>) -> int {
    let m = first_at(l, '%', 0);
    let a = digit_run_start(l, m);
    dec_val(l.subrange(a, m))
}

/// Reads the percentage standing right before the first `%` of the line; it
/// succeeds exactly when the line carries one, and nothing above 100 is
/// accepted.
pub fn percent_of_line(line: &str) -> (r: Option<u8>)
    ensures
        r is Some <==> percent_wf(line@),
        r is Some ==> r->0 as int == percent_of(line@) && r->0 <= 100,
{
    let m = match find_char(line, '%', 0) {
        Some(p) => p,
        None => {
            return None;
        },
    };
    let mut a: usize = m;
    while a > 0
        invariant_except_break
            0 <= a <= m,
            m < line@.len(),
            digit_run_start(line@, a as int) == digit_run_start(line@, m as int),
            forall|k: int| a <= k < m ==> is_digit(#[trigger] line@[k]),
        ensures
            0 <= a <= m,
            m < line@.len(),
            a > 0 ==> !is_digit(line@[a - 1]),
            digit_run_start(line@, a as int) == digit_run_start(line@, m as int),
            forall|k: int| a <= k < m ==> is_digit(#[trigger] line@[k]),
        decreases a,
    {
        if !digit_at(line, a - 1) {
            break ;
        }
        a = a - 1;
    }
    proof {
        assert(digit_run_start(line@, a as int) == a as int);
        assert forall|k: int| 0 <= k < line@.subrange(a as int, m as int).len() implies is_digit(
            #[trigger] line@.subrange(a as int, m as int)[k],
        ) by {
            assert(line@.subrange(a as int, m as int)[k] == line@[a + k]);
        }
    }
    if a == m {
        return None;
    }
    let digits = line.substring_char(a, m);
    match parse_u32(digits) {
        Some(v) => {
            if v <= 100 {
                Some(v as u8)
            } else {
                None
            }
        },
        None => {
            proof {
                assert(dec_val(line@.subrange(a as int, m as int)) > u32::MAX);
            }
            None
        },
    }
}

/// Whether the character at the index is a decimal digit.
fn digit_at(line: &str, i: usize) -> (r: bool)
    requires
        i < line@.len(),
    ensures
        r == is_digit(line@[i as int]),
{
    let u = line.get_char(i) as u32;
    48 <= u && u <= 57
}

/// The line reports the receiving phase.
pub open spec fn is_receiving(l: Seq<char>) -> bool {
    exists|i: int| match_at(l, "Receiving objects:"@, i)
}

/// The line reports the delta-resolving phase.
pub open spec fn is_resolving(l: Seq<char>) -> bool {
    exists|i: int| match_at(l, "Resolving deltas:"@, i)
}

/// Turns one progress line into an overall percentage: the receiving phase
/// is scaled onto 0–90, the delta-resolving phase onto 90–100, and any other
/// line carries no progress.  It succeeds exactly on a phase line that
/// carries a percentage, and the result never exceeds 100.
pub fn parse_progress_line(line: &str) -> (r: Option<u8>)
    ensures
        r is Some <==> percent_wf(line@) && (is_receiving(line@) || is_resolving(line@)),
        r is Some ==> r->0 as int == (if is_receiving(line@) {
            percent_of(line@) * 90 / 100
        } else {
            90 + percent_of(line@) / 10
        }),
        r is Some ==> r->0 <= 100,
{
    let pct = match percent_of_line(line) {
        Some(p) => p,
        None => {
            return None;
        },
    };
    if contains_sub(line, "Receiving objects:") {
        let scaled = (pct as u32) * 90 / 100;
        Some(scaled as u8)
    } else if contains_sub(line, "Resolving deltas:") {
        let scaled = 90 + (pct as u32) / 10;
        Some(scaled as u8)
    } else {
        None
    }
}

} // verus!
