use vstd::prelude::*;
use crate::address::{decimal_value, is_digit, lemma_value_of_prefix};
use crate::error::LaunchError;

verus! {

/// `s` without the characters that are not decimal digits at its end.
pub open spec fn drop_trailing_non_digits(s: Seq<char>) -> Seq<char>
    decreases s.len(),
{
    if s.len() > 0 && !is_digit(s.last()) {
        drop_trailing_non_digits(s.drop_last())
    } else {
        s
    }
}

/// The longest run of decimal digits that `s` ends with.
pub open spec fn digit_suffix(s: Seq<char>) -> Seq<char>
    decreases s.len(),
{
    if s.len() > 0 && is_digit(s.last()) {
        digit_suffix(s.drop_last()).push(s.last())
    } else {
        Seq::<char>::empty()
    }
}

/// The last maximal run of decimal digits in `s`, empty where `s` has no digit.
pub open spec fn last_digit_run(s: Seq<char>) -> Seq<char> {
    digit_suffix(drop_trailing_non_digits(s))
}

/// The number written by the last run of digits in `s`, where there is one
/// and it fits in a `u32`.
pub open spec fn trailing_number(s: Seq<char>) -> Option<u32> {
    let run = last_digit_run(s);
    if run.len() == 0 || decimal_value(run) > u32::MAX {
        None
    } else {
        Some(decimal_value(run) as u32)
    }
}

/// The bounds of the last run of decimal digits in `text`; `b == e` where it has none.
fn last_run_bounds(text: &str) -> (r: (usize, usize))
    ensures
        r.0 <= r.1 <= text@.len(),
        last_digit_run(text@) == text@.subrange(r.0 as int, r.1 as int),
{
    let ghost s = text@;
    let n = text.unicode_len();
    let mut e: usize = n;
    assert(s.take(n as int) =~= s);
    while e > 0 && !is_digit_char(text.get_char(e - 1))
        invariant
            e <= n == s.len(),
            s == text@,
            drop_trailing_non_digits(s) == drop_trailing_non_digits(s.take(e as int)),
        decreases e,
    {
        proof {
            assert(s.take(e as int).drop_last() =~= s.take(e - 1));
        }
        e = e - 1;
    }
    proof {
        if e > 0 {
            assert(s.take(e as int).last() == s[e - 1]);
        }
    }
    let mut b: usize = e;
    assert(s.subrange(e as int, e as int) =~= Seq::<char>::empty());
    assert(digit_suffix(s.take(e as int)) =~= digit_suffix(s.take(e as int)) + Seq::<char>::empty());
    while b > 0 && is_digit_char(text.get_char(b - 1))
        invariant
            b <= e <= n == s.len(),
            s == text@,
            drop_trailing_non_digits(s) == s.take(e as int),
            digit_suffix(s.take(e as int)) == digit_suffix(s.take(b as int)) + s.subrange(
                b as int,
                e as int,
            ),
        decreases b,
    {
        proof {
            assert(s.take(b as int).drop_last() =~= s.take(b - 1));
            assert(s.take(b as int).last() == s[b - 1]);
            assert(s.subrange(b - 1, e as int) =~= seq![s[b - 1]] + s.subrange(b as int, e as int));
            assert(digit_suffix(s.take(b - 1)).push(s[b - 1]) + s.subrange(b as int, e as int)
                =~= digit_suffix(s.take(b - 1)) + s.subrange(b - 1, e as int));
        }
        b = b - 1;
    }
    proof {
        if b > 0 {
            assert(s.take(b as int).last() == s[b - 1]);
        }
        assert(digit_suffix(s.take(b as int)) =~= Seq::<char>::empty());
        assert(last_digit_run(s) =~= s.subrange(b as int, e as int));
    }
    (b, e)
}

proof fn lemma_digit_suffix_digits(s: Seq<char>)
    ensures
        forall|k: int| 0 <= k < digit_suffix(s).len() ==> is_digit(#[trigger] digit_suffix(s)[k]),
    decreases s.len(),
{
    if s.len() > 0 && is_digit(s.last()) {
        lemma_digit_suffix_digits(s.drop_last());
        let p = digit_suffix(s.drop_last());
        assert forall|k: int| 0 <= k < p.push(s.last()).len() implies is_digit(
            #[trigger] p.push(s.last())[k],
        ) by {
            if k < p.len() {
                assert(p.push(s.last())[k] == p[k]);
            }
        }
    }
}

/// Reads the session number that ends a status line: the whole last run of
/// decimal digits in `text` (`"... ID 12345"` gives 12345, not 5).
/// `None` where `text` holds no digit, or the run does not fit in a `u32`.
pub fn extract_trailing_number(text: &str) -> (r: Option<u32>)
    ensures
        r == trailing_number(text@),
{
    let (b, e) = last_run_bounds(text);
    if b == e {
        return None;
    }
    let ghost run = text@.subrange(b as int, e as int);
    proof {
        lemma_digit_suffix_digits(drop_trailing_non_digits(text@));
    }
    let mut acc: u64 = 0;
    let mut i: usize = b;
    assert(run.take(0) =~= Seq::<char>::empty());
    while i < e
        invariant
            b <= i <= e <= text@.len(),
            run == text@.subrange(b as int, e as int),
            run == last_digit_run(text@),
            forall|k: int| 0 <= k < run.len() ==> is_digit(#[trigger] run[k]),
            acc as nat == decimal_value(run.take(i - b)),
            acc <= u32::MAX,
        decreases e - i,
    {
        let ch = text.get_char(i);
        proof {
            assert(run.take(i - b + 1).drop_last() =~= run.take(i - b));
            assert(run.take(i - b + 1).last() == ch);
            assert(run[i - b] == ch);
        }
        acc = acc * 10 + (ch as u64 - '0' as u64);
        if acc > u32::MAX as u64 {
            proof {
                lemma_value_of_prefix(run, i - b + 1);
            }
            return None;
        }
        i = i + 1;
    }
    proof {
        assert(run.take(e - b) =~= run);
    }
    Some(acc as u32)
}

/// Whether `c` is a decimal digit.
pub fn is_digit_char(c: char) -> (r: bool)
    ensures
        r == is_digit(c),
{
    '0' <= c && c <= '9'
}

/// The session number in a status line, or `SessionIdNotFound` with the text
/// where it holds none.
pub fn session_id_from_status(text: &str) -> (r: Result<u32, LaunchError>)
    ensures
        trailing_number(text@) is Some ==> r == Ok::<u32, LaunchError>(
            trailing_number(text@).unwrap(),
        ),
        trailing_number(text@) is None ==> (r matches Err(LaunchError::SessionIdNotFound(t))
            && t@ == text@),
{
    match extract_trailing_number(text) {
        Some(id) => Ok(id),
        None => Err(LaunchError::SessionIdNotFound(String::from_str(text))),
    }
}

} // verus!
