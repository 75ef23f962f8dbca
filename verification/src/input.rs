//! Turning one raw input line into a move intent.
//!
//! A line is accepted when, after stripping the trailing line ending
//! (`"\r\n"` or `"\n"`) it is exactly one of the letters `w`, `a`, `s`
//! or `d`, in either case. Anything else is no direction.

use vstd::prelude::*;
use vstd::string::StrSliceExecFns;
use crate::types::Direction;

verus! {

/// `s` with its trailing line ending removed: `"\r\n"` and `"\n"`
/// are stripped, anything else is kept as it is.
pub open spec fn strip_newline(s: Seq<char>) -> Seq<char> {
    if s.len() >= 2 && s[s.len() - 2] == '\r' && s[s.len() - 1] == '\n' {
        s.take(s.len() - 2)
    } else if s.len() >= 1 && s[s.len() - 1] == '\n' {
        s.take(s.len() - 1)
    } else {
        s
    }
}

/// The move intent a single letter stands for, in either case.
pub open spec fn direction_of_char(c: char) -> Option<Direction> {
    if c == 'w' || c == 'W' {
        Some(Direction::Up)
    } else if c == 'a' || c == 'A' {
        Some(Direction::Left)
    } else if c == 's' || c == 'S' {
        Some(Direction::Down)
    } else if c == 'd' || c == 'D' {
        Some(Direction::Right)
    } else {
        None
    }
}

/// The move intent of a whole input line: its content after the
/// trailing line ending must be exactly one recognized letter.
pub open spec fn normalize_spec(s: Seq<char>) -> Option<Direction> {
    let t = strip_newline(s);
    if t.len() == 1 {
        direction_of_char(t[0])
    } else {
        None
    }
}

/// Reads a move intent from one raw input line.
pub fn move_normalize(inp: &String) -> (r: Option<Direction>)
    ensures
        r == normalize_spec(inp@),
{
    let s = inp.as_str();
    let n = s.unicode_len();
    let m: usize = if n >= 2 && s.get_char(n - 2) == '\r' && s.get_char(n - 1) == '\n' {
        n - 2
    } else if n >= 1 && s.get_char(n - 1) == '\n' {
        n - 1
    } else {
        n
    };
    proof {
        assert(strip_newline(inp@).len() == m);
    }
    if m == 1 {
        let c = s.get_char(0);
        proof {
            assert(strip_newline(inp@)[0] == inp@[0]);
        }
        if c == 'w' || c == 'W' {
            Some(Direction::Up)
        } else if c == 'a' || c == 'A' {
            Some(Direction::Left)
        } else if c == 's' || c == 'S' {
            Some(Direction::Down)
        } else if c == 'd' || c == 'D' {
            Some(Direction::Right)
        } else {
            None
        }
    } else {
        None
    }
}

} // verus!

