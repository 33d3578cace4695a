//! Parsing of input lines: one decimal integer per line for the
//! depth-change counter, and `<direction> <magnitude>` per line for the
//! submarine navigator. A malformed line is a fatal condition, reported as
//! a `ParseError` carrying the index of the first offending line.

use vstd::prelude::*;
use vstd::string::StrSliceExecFns;
use crate::navigation::Operation;
use crate::navigation::fits_i32;

verus! {

/// A line that does not conform to the expected format; `line` is the
/// index of the first offending line of the input.
#[derive(Debug, Clone, Copy, PartialEq, Eq, Structural)]
pub struct ParseError {
    pub line: usize,
}

/// Whether `c` is a decimal digit.
pub open spec fn is_digit(c: char) -> bool {
    48 <= c as int <= 57
}

/// The numeric value of a decimal digit.
pub open spec fn digit_val(c: char) -> int {
    c as int - 48
}

/// Whether `s` is one or more decimal digits and nothing else.
pub open spec fn is_digit_seq(s: Seq<char>) -> bool {
    s.len() >= 1 && forall|i: int| 0 <= i < s.len() ==> is_digit(#[trigger] s[i])
}

/// The value of a sequence of decimal digits, most significant first.
pub open spec fn digits_val(s: Seq<char>) -> int
    decreases s.len(),
{
    if s.len() == 0 {
        0
    } else {
        digits_val(s.drop_last()) * 10 + digit_val(s.last())
    }
}

/// The measurement an input line stands for: a decimal integer, optionally
/// signed, whose value fits in an `i32`. `None` when the line is malformed.
pub open spec fn spec_parse_int(s: Seq<char>) -> Option<i32> {
    if s.len() >= 1 && (s[0] == '-' || s[0] == '+') {
        let body = s.skip(1);
        if is_digit_seq(body) {
            let val = if s[0] == '-' {
                -digits_val(body)
            } else {
                digits_val(body)
            };
            if fits_i32(val) {
                Some(val as i32)
            } else {
                None
            }
        } else {
            None
        }
    } else {
        if is_digit_seq(s) && digits_val(s) <= i32::MAX as int {
            Some(digits_val(s) as i32)
        } else {
            None
        }
    }
}

/// Index of the first space in `s`, or `s.len()` if there is none.
pub open spec fn first_space(s: Seq<char>) -> int
    decreases s.len(),
{
    if s.len() == 0 {
        0
    } else if s[0] == ' ' {
        0
    } else {
        1 + first_space(s.skip(1))
    }
}

/// The command an input line stands for: a direction keyword (`forward`,
/// `up` or `down`), exactly one space, and a non-negative decimal magnitude
/// that fits in an `i32`. `None` when the line is malformed. A second space
/// anywhere in the line makes the magnitude part fail the digit check, so
/// the one-space format is enforced.
pub open spec fn spec_parse_command(s: Seq<char>) -> Option<Operation> {
    let sp = first_space(s);
    if sp == s.len() {
        None
    } else {
        let dir = s.take(sp);
        let mag = s.skip(sp + 1);
        if !(is_digit_seq(mag) && digits_val(mag) <= i32::MAX as int) {
            None
        } else {
            let units = digits_val(mag) as i32;
            if dir == "forward"@ {
                Some(Operation::Forward(units))
            } else if dir == "up"@ {
                Some(Operation::Up(units))
            } else if dir == "down"@ {
                Some(Operation::Down(units))
            } else {
                None
            }
        }
    }
}

proof fn lemma_first_space_at(s: Seq<char>, i: int)
    requires
        0 <= i <= s.len(),
        forall|j: int| 0 <= j < i ==> s[j] != ' ',
        i < s.len() ==> s[i] == ' ',
    ensures
        first_space(s) == i,
    decreases i,
{
    if i == 0 {
    } else {
        lemma_first_space_at(s.skip(1), i - 1);
    }
}

proof fn lemma_digits_val_nonneg(s: Seq<char>)
    requires
        forall|j: int| 0 <= j < s.len() ==> is_digit(#[trigger] s[j]),
    ensures
        digits_val(s) >= 0,
    decreases s.len(),
{
    if s.len() > 0 {
        lemma_digits_val_nonneg(s.drop_last());
    }
}

proof fn lemma_digits_val_prefix_le(s: Seq<char>, k: int)
    requires
        0 <= k <= s.len(),
        forall|j: int| 0 <= j < s.len() ==> is_digit(#[trigger] s[j]),
    ensures
        digits_val(s) >= digits_val(s.take(k)),
    decreases s.len() - k,
{
    if k == s.len() {
        assert(s.take(k) =~= s);
    } else {
        assert(s.take(k + 1).drop_last() =~= s.take(k));
        lemma_digits_val_nonneg(s.take(k));
        lemma_digits_val_prefix_le(s, k + 1);
    }
}

/// Parse the characters of `s` in `[from, to)` as an unsigned decimal
/// number, as long as its value stays no greater than `0x8000_0000`.
fn parse_digits(s: &str, from: usize, to: usize) -> (r: Option<u64>)
    requires
        from <= to <= s@.len(),
    ensures
        (match r {
            Some(v) => is_digit_seq(s@.subrange(from as int, to as int)) && v == digits_val(
                s@.subrange(from as int, to as int),
            ) && v <= 0x8000_0000,
            None => !(is_digit_seq(s@.subrange(from as int, to as int)) && digits_val(
                s@.subrange(from as int, to as int),
            ) <= 0x8000_0000),
        }),
{
    let ghost sub = s@.subrange(from as int, to as int);
    if from == to {
        return None;
    }
    let mut acc: u64 = 0;
    let mut i: usize = from;
    while i < to
        invariant
            from <= i <= to <= s@.len(),
            sub == s@.subrange(from as int, to as int),
            forall|j: int| from <= j < i ==> is_digit(#[trigger] s@[j]),
            acc == digits_val(s@.subrange(from as int, i as int)),
            acc <= 0x8000_0000,
        decreases to - i,
    {
        let c = s.get_char(i);
        let code = c as u32;
        if code < 48 || code > 57 {
            proof {
                assert(!is_digit(sub[i - from]));
            }
            return None;
        }
        proof {
            assert(s@.subrange(from as int, i as int + 1).drop_last() =~= s@.subrange(
                from as int,
                i as int,
            ));
        }
        acc = acc * 10 + ((code - 48) as u64);
        i = i + 1;
        if acc > 0x8000_0000 {
            proof {
                if is_digit_seq(sub) {
                    lemma_digits_val_prefix_le(sub, i - from);
                    assert(sub.take(i - from) =~= s@.subrange(from as int, i as int));
                }
            }
            return None;
        }
    }
    proof {
        assert(forall|j: int| 0 <= j < sub.len() ==> is_digit(#[trigger] sub[j]));
    }
    Some(acc)
}

/// Whether the characters of `s` in `[from, to)` spell exactly `pat`.
fn token_eq(s: &str, from: usize, to: usize, pat: &str) -> (r: bool)
    requires
        from <= to <= s@.len(),
    ensures
        r == (s@.subrange(from as int, to as int) == pat@),
{
    let m = pat.unicode_len();
    if to - from != m {
        return false;
    }
    let mut i: usize = 0;
    while i < m
        invariant
            from <= to <= s@.len(),
            m == pat@.len(),
            to - from == m,
            i <= m,
            forall|j: int| 0 <= j < i ==> s@[from + j] == pat@[j],
        decreases m - i,
    {
        if s.get_char(from + i) != pat.get_char(i) {
            proof {
                assert(s@.subrange(from as int, to as int)[i as int] == s@[from + i]);
            }
            return false;
        }
        i = i + 1;
    }
    proof {
        assert(s@.subrange(from as int, to as int) =~= pat@);
    }
    true
}

/// Parse one input line of the depth-change counter: a decimal integer,
/// optionally signed, that fits in an `i32`.
pub fn parse_measurement(s: &str) -> (r: Option<i32>)
    ensures
        r == spec_parse_int(s@),
{
    let n = s.unicode_len();
    if n == 0 {
        return None;
    }
    let c0 = s.get_char(0);
    let neg = c0 == '-';
    let from: usize = if neg || c0 == '+' {
        1
    } else {
        0
    };
    proof {
        if from == 0 {
            assert(s@.subrange(0, n as int) =~= s@);
        } else {
            assert(s@.subrange(1, n as int) =~= s@.skip(1));
        }
    }
    match parse_digits(s, from, n) {
        None => None,
        Some(v) => {
            if neg {
                Some((-(v as i64)) as i32)
            } else {
                if v <= 0x7fff_ffff {
                    Some(v as i32)
                } else {
                    None
                }
            }
        },
    }
}

/// Parse one input line of the submarine navigator: a direction keyword,
/// one space, and a non-negative decimal magnitude that fits in an `i32`.
pub fn parse_command(s: &str) -> (r: Option<Operation>)
    ensures
        r == spec_parse_command(s@),
{
    let n = s.unicode_len();
    let sp = find_first_space(s);
    if sp == n {
        return None;
    }
    proof {
        assert(s@.subrange(sp as int + 1, n as int) =~= s@.skip(sp as int + 1));
        assert(s@.subrange(0, sp as int) =~= s@.take(sp as int));
    }
    match parse_digits(s, sp + 1, n) {
        None => None,
        Some(v) => {
            if v > 0x7fff_ffff {
                return None;
            }
            let units = v as i32;
            if token_eq(s, 0, sp, "forward") {
                Some(Operation::Forward(units))
            } else if token_eq(s, 0, sp, "up") {
                Some(Operation::Up(units))
            } else if token_eq(s, 0, sp, "down") {
                Some(Operation::Down(units))
            } else {
                None
            }
        },
    }
}

/// Index of the first space of `s`, or its length if `s` has none.
fn find_first_space(s: &str) -> (r: usize)
    ensures
        r == first_space(s@),
        r <= s@.len(),
{
    let n = s.unicode_len();
    let mut i: usize = 0;
    while i < n
        invariant
            i <= n,
            n == s@.len(),
            forall|j: int| 0 <= j < i ==> s@[j] != ' ',
        decreases n - i,
    {
        if s.get_char(i) == ' ' {
            proof {
                lemma_first_space_at(s@, i as int);
            }
            return i;
        }
        i = i + 1;
    }
    proof {
        lemma_first_space_at(s@, n as int);
    }
    n
}

/// Parse every line as a measurement. Returns the measurements in input
/// order, or the index of the first malformed line.
pub fn parse_measurements(lines: &Vec<String>) -> (r: Result<Vec<i32>, ParseError>)
    ensures
        (match r {
            Ok(ms) => ms@.len() == lines@.len() && forall|i: int|
                0 <= i < lines@.len() ==> #[trigger] spec_parse_int(lines@[i]@) == Some(ms@[i]),
            Err(e) => e.line < lines@.len() && spec_parse_int(lines@[e.line as int]@) is None
                && forall|i: int|
                0 <= i < e.line ==> #[trigger] spec_parse_int(lines@[i]@) is Some,
        }),
{
    let n = lines.len();
    let mut ms: Vec<i32> = Vec::new();
    let mut i: usize = 0;
    while i < n
        invariant
            i <= n,
            n == lines@.len(),
            ms@.len() == i,
            forall|j: int|
                0 <= j < i ==> #[trigger] spec_parse_int(lines@[j]@) == Some(ms@[j]),
        decreases n - i,
    {
        match parse_measurement(lines[i].as_str()) {
            Some(v) => {
                ms.push(v);
            },
            None => {
                return Err(ParseError { line: i });
            },
        }
        i = i + 1;
    }
    Ok(ms)
}

/// Parse every line as a command. Returns the commands in input order, or
/// the index of the first malformed line.
pub fn parse_lines(lines: &Vec<String>) -> (r: Result<Vec<Operation>, ParseError>)
    ensures
        (match r {
            Ok(ops) => ops@.len() == lines@.len() && forall|i: int|
                0 <= i < lines@.len() ==> #[trigger] spec_parse_command(lines@[i]@) == Some(
                    ops@[i],
                ),
            Err(e) => e.line < lines@.len() && spec_parse_command(lines@[e.line as int]@) is None
                && forall|i: int|
                0 <= i < e.line ==> #[trigger] spec_parse_command(lines@[i]@) is Some,
        }),
{
    let n = lines.len();
    let mut ops: Vec<Operation> = Vec::new();
    let mut i: usize = 0;
    while i < n
        invariant
            i <= n,
            n == lines@.len(),
            ops@.len() == i,
            forall|j: int|
                0 <= j < i ==> #[trigger] spec_parse_command(lines@[j]@) == Some(ops@[j]),
        decreases n - i,
    {
        match parse_command(lines[i].as_str()) {
            Some(op) => {
                ops.push(op);
            },
            None => {
                return Err(ParseError { line: i });
            },
        }
        i = i + 1;
    }
    Ok(ops)
}

} // verus!
