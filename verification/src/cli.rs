//! The command surface: parsing the line-count argument and deciding what
//! one invocation does.
//!
//! A count argument is a non-negative decimal integer, with one optional
//! leading `'+'`, that fits in `u32` — the same values `u32` itself reads
//! from a string. A run either dumps the stored log, stops early on a count
//! that does not parse, or shows a window of lines.

use vstd::prelude::*;

verus! {

/// How many lines a run shows when no count is given.
pub const DEFAULT_COUNT: u32 = 10;

/// `c` is an ASCII decimal digit (`'0'` has code point 48, `'9'` 57).
pub open spec fn is_digit(c: char) -> bool {
    48 <= c as int <= 57
}

/// The value of one decimal digit.
pub open spec fn digit_val(c: char) -> nat {
    (c as int - 48) as nat
}

/// Every character of `s` is a decimal digit.
pub open spec fn all_digits(s: Seq<char>) -> bool {
    forall|i: int| 0 <= i < s.len() ==> is_digit(s[i])
}

/// The value of a run of decimal digits, most significant first.
pub open spec fn digits_value(s: Seq<char>) -> nat
    decreases s.len(),
{
    if s.len() == 0 {
        0
    } else {
        digits_value(s.drop_last()) * 10 + digit_val(s.last())
    }
}

/// The digit part of a count argument: everything after one leading `'+'`,
/// if there is one.
pub open spec fn count_digits(s: Seq<char>) -> Seq<char> {
    if s.len() > 0 && s[0] == '+' {
        s.drop_first()
    } else {
        s
    }
}

/// A well-formed count argument: one optional `'+'`, then at least one
/// decimal digit, with a value that fits in `u32`.
pub open spec fn valid_count(s: Seq<char>) -> bool {
    &&& count_digits(s).len() > 0
    &&& all_digits(count_digits(s))
    &&& digits_value(count_digits(s)) <= u32::MAX
}

/// A longer run of digits is worth at least as much as any prefix of it.
proof fn lemma_digits_value_take(s: Seq<char>, k: int)
    requires
        0 <= k <= s.len(),
    ensures
        digits_value(s.take(k)) <= digits_value(s),
    decreases s.len() - k,
{
    if k == s.len() {
        assert(s.take(k) =~= s);
    } else {
        assert(s.take(k + 1).drop_last() =~= s.take(k));
        assert(digits_value(s.take(k + 1)) == digits_value(s.take(k)) * 10 + digit_val(
            s.take(k + 1).last(),
        ));
        lemma_digits_value_take(s, k + 1);
    }
}

/// Read a count argument. Returns its value exactly when the argument is
/// well formed, and nothing otherwise.
pub fn parse_count(s: &str) -> (parsed: Option<u32>)
    ensures
        valid_count(s@) ==> parsed == Some(digits_value(count_digits(s@)) as u32),
        !valid_count(s@) ==> parsed is None,
{
    let n: usize = s.unicode_len();
    let offset: usize = if n > 0 && s.get_char(0) == '+' {
        1
    } else {
        0
    };
    proof {
        assert(count_digits(s@) =~= s@.skip(offset as int));
    }
    if offset == n {
        return None;
    }
    let ghost body = s@.skip(offset as int);
    let mut value: u32 = 0;
    let mut i: usize = offset;
    proof {
        assert(body.take(0) =~= Seq::<char>::empty());
    }
    while i < n
        invariant
            n == s@.len(),
            offset <= i <= n,
            body == s@.skip(offset as int),
            body == count_digits(s@),
            body.len() == n - offset,
            all_digits(body.take(i - offset)),
            value == digits_value(body.take(i - offset)),
        decreases n - i,
    {
        let c = s.get_char(i);
        let code: u32 = c as u32;
        proof {
            assert(body[i - offset] == s@[i as int]);
        }
        if code < 48 || code > 57 {
            proof {
                assert(!is_digit(body[i - offset]));
            }
            return None;
        }
        let d: u32 = code - 48;
        let wide: u64 = value as u64 * 10 + d as u64;
        proof {
            assert(body.take(i - offset + 1).drop_last() =~= body.take(i - offset));
            assert(digits_value(body.take(i - offset + 1)) == digits_value(body.take(i - offset))
                * 10 + digit_val(body[i - offset]));
        }
        if wide > u32::MAX as u64 {
            proof {
                lemma_digits_value_take(body, i - offset + 1);
            }
            return None;
        }
        value = wide as u32;
        i = i + 1;
    }
    proof {
        assert(body.take(n - offset) =~= body);
    }
    Some(value)
}

/// What one invocation does, decided from the parsed command line alone.
#[derive(Clone, Copy, Debug, PartialEq, Eq, Structural)]
pub enum RunPlan {
    /// Print the stored log and touch no input.
    ShowLog,
    /// The count argument did not parse: warn and stop, successfully.
    InvalidCount,
    /// Show a window of `count` lines, the last ones when `from_end` holds.
    Window { count: u32, from_end: bool },
}

/// Decide what a run does. The log subcommand wins over everything else; a
/// missing count falls back to the default; a malformed count stops the run
/// before any input is read.
pub fn plan_run(log_requested: bool, count_arg: Option<&str>, from_end: bool) -> (plan: RunPlan)
    ensures
        log_requested ==> plan == RunPlan::ShowLog,
        !log_requested && count_arg is None ==> plan == (RunPlan::Window {
            count: DEFAULT_COUNT,
            from_end,
        }),
        !log_requested ==> (count_arg matches Some(s) ==> plan == (if valid_count(s@) {
            (RunPlan::Window { count: digits_value(count_digits(s@)) as u32, from_end })
        } else {
            RunPlan::InvalidCount
        })),
{
    if log_requested {
        RunPlan::ShowLog
    } else {
        match count_arg {
            None => RunPlan::Window { count: DEFAULT_COUNT, from_end },
            Some(s) => match parse_count(s) {
                Some(count) => RunPlan::Window { count, from_end },
                None => RunPlan::InvalidCount,
            },
        }
    }
}

} // verus!
