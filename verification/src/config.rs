//! How a block is executed, as the caller and the environment ask for it.

use vstd::prelude::*;
use vstd::string::*;

verus! {

/// A block with fewer transactions is executed sequentially.
pub const MIN_PARALLEL_TXS: usize = 64;

/// Every character is a decimal digit.
pub open spec fn all_digits(text: Seq<char>) -> bool {
    forall|i: int| 0 <= i < text.len() ==> '0' <= #[trigger] text[i] <= '9'
}

/// The number that decimal digits stand for.
pub open spec fn digits_value(digits: Seq<char>) -> nat
    decreases digits.len(),
{
    if digits.len() == 0 {
        0
    } else {
        digits_value(digits.drop_last()) * 10 + (digits.last() as nat - '0' as nat) as nat
    }
}

/// The digits of a number: all of it but a plus sign in front.
pub open spec fn digits_of(text: Seq<char>) -> Seq<char> {
    if text.len() > 0 && text[0] == '+' {
        text.skip(1)
    } else {
        text
    }
}

/// The number that a text stands for: an optional plus sign and at least one digit, nothing else,
/// and not too large.
pub open spec fn unsigned_value(text: Seq<char>) -> Option<usize> {
    let digits = digits_of(text);
    if digits.len() > 0 && all_digits(digits) && digits_value(digits) <= usize::MAX {
        Some(digits_value(digits) as usize)
    } else {
        None
    }
}

/// More digits do not make a number smaller.
proof fn lemma_digits_grow(digits: Seq<char>, n: int)
    requires
        0 <= n <= digits.len(),
    ensures
        digits_value(digits.take(n)) <= digits_value(digits),
    decreases digits.len() - n,
{
    if n < digits.len() {
        lemma_digits_grow(digits, n + 1);
        assert(digits.take(n + 1).drop_last() =~= digits.take(n));
    } else {
        assert(digits.take(n) =~= digits);
    }
}

/// How texts that differ in one character relate as numbers.
pub proof fn lemma_numbers_are_decimal(text: Seq<char>, c: char, d: int)
    ensures
        unsigned_value(Seq::<char>::empty()) is None,
        unsigned_value(seq!['+']) is None,
        0 <= d <= 9 && c as int == '0' as int + d ==> {
            &&& unsigned_value(seq![c]) == Some(d as usize)
            &&& unsigned_value(seq!['+', c]) == Some(d as usize)
            &&& unsigned_value(text) is Some ==> unsigned_value(text.push(c)) == (if 10
                * unsigned_value(text)->0 + d <= usize::MAX {
                Some((10 * unsigned_value(text)->0 + d) as usize)
            } else {
                None
            })
        },
        !('0' <= c <= '9') ==> unsigned_value(text.push(c)) is None,
        unsigned_value(text.push(c)) is Some ==> text.len() == 0 || text == seq!['+']
            || unsigned_value(text) is Some,
{
    reveal_with_fuel(digits_value, 3);
    assert(seq!['+'].skip(1) =~= Seq::<char>::empty());
    assert(seq!['+', c].skip(1) =~= seq![c]);
    assert(seq![c].drop_last() =~= Seq::<char>::empty());
    let longer = text.push(c);
    if text.len() > 0 {
        let digits = digits_of(text);
        assert(digits_of(longer) =~= digits.push(c));
        assert(digits.push(c).drop_last() =~= digits);
        if all_digits(digits.push(c)) {
            assert forall|i: int| 0 <= i < digits.len() implies '0' <= #[trigger] digits[i] <= '9' by {
                assert(digits.push(c)[i] == digits[i]);
            }
        }
        assert(digits.push(c).last() == c);
        if digits.len() == 0 {
            assert(text =~= seq!['+']);
        }
    } else {
        assert(longer =~= seq![c]);
    }
    if !('0' <= c <= '9') {
        let digits = digits_of(longer);
        if digits.len() > 0 {
            assert(digits.last() == c);
            assert(!('0' <= digits[digits.len() - 1] <= '9'));
        }
    }
}

/// Reads a number.
pub fn parse_unsigned(text: &str) -> (r: Option<usize>)
    ensures
        r == unsigned_value(text@),
{
    let len: usize = text.unicode_len();
    let start: usize = if len > 0 && text.get_char(0) == '+' {
        1
    } else {
        0
    };
    let ghost digits = digits_of(text@);
    if start == len {
        return None;
    }
    let mut value: usize = 0;
    let mut i: usize = start;
    while i < len
        invariant
            len == text@.len(),
            start <= i <= len,
            start <= 1,
            digits.len() == len - start,
            digits.len() > 0,
            digits == digits_of(text@),
            forall|j: int| 0 <= j < digits.len() ==> #[trigger] digits[j] == text@[j + start],
            all_digits(digits.take(i - start)),
            value == digits_value(digits.take(i - start)),
        decreases len - i,
    {
        let c = text.get_char(i);
        proof {
            assert(digits[i - start] == c);
            assert(digits.take(i - start + 1).drop_last() =~= digits.take(i - start));
            lemma_digits_grow(digits, i - start + 1);
        }
        if c < '0' || c > '9' {
            return None;
        }
        let digit: usize = (c as u32 - '0' as u32) as usize;
        match value.checked_mul(10) {
            Some(tens) => match tens.checked_add(digit) {
                Some(sum) => {
                    value = sum;
                },
                None => {
                    return None;
                },
            },
            None => {
                return None;
            },
        }
        i = i + 1;
    }
    proof {
        assert(digits.take(len - start) =~= digits);
    }
    Some(value)
}

/// How many workers are asked for: what the caller says, else what the environment says if it is a
/// number, else the default.
pub open spec fn workers(
    requested: Option<usize>,
    configured: Option<Seq<char>>,
    default_level: usize,
) -> usize {
    match requested {
        Some(level) => level,
        None => match configured {
            Some(text) => match unsigned_value(text) {
                Some(level) => level,
                None => default_level,
            },
            None => default_level,
        },
    }
}

/// How many workers are asked for.
pub fn concurrency_level(
    requested: Option<usize>,
    configured: Option<&str>,
    default_level: usize,
) -> (r: usize)
    ensures
        r == workers(
            requested,
            match configured {
                Some(text) => Some(text@),
                None => None,
            },
            default_level,
        ),
{
    match requested {
        Some(level) => level,
        None => match configured {
            Some(text) => match parse_unsigned(text) {
                Some(level) => level,
                None => default_level,
            },
            None => default_level,
        },
    }
}

/// Outputs are committed one by one, unless the environment says `false`.
pub open spec fn commits_one_by_one(configured: Option<Seq<char>>) -> bool {
    !(configured matches Some(text) && text == "false"@)
}

/// Whether outputs are committed one by one: unless the environment says `false`.
pub fn async_commit_state(configured: Option<String>) -> (r: bool)
    ensures
        r == !(configured matches Some(text) && text@ == "false"@),
        r == commits_one_by_one(
            match configured {
                Some(text) => Some(text@),
                None => None,
            },
        ),
{
    match configured {
        Some(text) => !text.eq(&"false".to_string()),
        None => true,
    }
}

/// How many milliseconds parallel execution may take without a warning.
pub const STUCK_MILLIS: u128 = 8_000;

/// It is time to warn that parallel execution is stuck.
pub open spec fn is_stuck(elapsed_millis: u128) -> bool {
    elapsed_millis > STUCK_MILLIS
}

/// Whether it is time to warn that parallel execution is stuck, so many milliseconds after the
/// last warning or the start.
pub fn stuck(elapsed_millis: u128) -> (r: bool)
    ensures
        r == (elapsed_millis > STUCK_MILLIS),
        r == is_stuck(elapsed_millis),
{
    elapsed_millis > STUCK_MILLIS
}

/// How a block is executed.
#[derive(Clone, Copy, Debug, PartialEq, Eq, Structural)]
pub enum ExecutionPlan {
    /// One transaction after the other.
    Sequential,
    /// By this many workers.
    Parallel(usize),
}

} // verus!
