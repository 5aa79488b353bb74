//! Plain-text fragments of the report that carry logic.
//!
//! The host menu renders the report; the library computes the texts whose
//! content is specified: the live-duration label of a stream and the
//! command line behind a quick re-defer shortcut. Numbers are written in
//! decimal with no padding.

use vstd::prelude::*;
use vstd::string::StringExecFns;

use crate::errors::Error;

verus! {

/// The decimal digit character of a value below ten.
pub open spec fn spec_digit(d: int) -> char {
    if d == 0 {
        '0'
    } else if d == 1 {
        '1'
    } else if d == 2 {
        '2'
    } else if d == 3 {
        '3'
    } else if d == 4 {
        '4'
    } else if d == 5 {
        '5'
    } else if d == 6 {
        '6'
    } else if d == 7 {
        '7'
    } else if d == 8 {
        '8'
    } else {
        '9'
    }
}

/// The decimal text of a number, most significant digit first.
pub open spec fn spec_decimal(n: int) -> Seq<char>
    recommends
        n >= 0,
    decreases n when n >= 0
{
    if n < 10 {
        seq![spec_digit(n)]
    } else {
        spec_decimal(n / 10).push(spec_digit(n % 10))
    }
}

/// One decimal digit as text.
fn digit_str(d: u64) -> (s: &'static str)
    requires
        d < 10,
    ensures
        s@ == seq![spec_digit(d as int)],
{
    proof {
        reveal_strlit("0");
        reveal_strlit("1");
        reveal_strlit("2");
        reveal_strlit("3");
        reveal_strlit("4");
        reveal_strlit("5");
        reveal_strlit("6");
        reveal_strlit("7");
        reveal_strlit("8");
        reveal_strlit("9");
    }
    if d == 0 {
        "0"
    } else if d == 1 {
        "1"
    } else if d == 2 {
        "2"
    } else if d == 3 {
        "3"
    } else if d == 4 {
        "4"
    } else if d == 5 {
        "5"
    } else if d == 6 {
        "6"
    } else if d == 7 {
        "7"
    } else if d == 8 {
        "8"
    } else {
        "9"
    }
}

/// Writes a number in decimal.
pub fn decimal_string(n: u64) -> (s: String)
    ensures
        s@ == spec_decimal(n as int),
    decreases n,
{
    if n < 10 {
        let mut s = String::new();
        s.append(digit_str(n));
        proof {
            assert(s@ =~= spec_decimal(n as int));
        }
        s
    } else {
        let mut s = decimal_string(n / 10);
        s.append(digit_str(n % 10));
        proof {
            assert(s@ =~= spec_decimal(n as int));
        }
        s
    }
}

/// The elapsed seconds between a start instant and now; an instant that
/// still lies ahead counts as no elapsed time.
pub open spec fn spec_elapsed(started_at: i64, now: i64) -> int {
    if now >= started_at {
        now - started_at
    } else {
        0
    }
}

/// The live-duration label for an elapsed time: hours and minutes from one
/// hour on, bare minutes below it.
pub open spec fn spec_duration_text(elapsed_seconds: int) -> Seq<char>
    recommends
        elapsed_seconds >= 0,
{
    let minutes = elapsed_seconds / 60;
    if minutes >= 60 {
        spec_decimal(minutes / 60) + seq!['h', ' '] + spec_decimal(minutes % 60) + seq!['m']
    } else {
        spec_decimal(minutes) + seq!['m']
    }
}

/// Writes the live-duration label of a stream started at `started_at`, as
/// of `now` (both Unix seconds).
pub fn duration_text(started_at: i64, now: i64) -> (s: String)
    ensures
        s@ == spec_duration_text(spec_elapsed(started_at, now)),
{
    proof {
        reveal_strlit("h ");
        reveal_strlit("m");
    }
    let elapsed: u64 = if now >= started_at {
        (now as i128 - started_at as i128) as u64
    } else {
        0
    };
    proof {
        assert(elapsed == spec_elapsed(started_at, now));
    }
    let minutes = elapsed / 60;
    if minutes >= 60 {
        let mut s = decimal_string(minutes / 60);
        s.append("h ");
        let rest = decimal_string(minutes % 60);
        s.append(rest.as_str());
        s.append("m");
        proof {
            assert(s@ =~= spec_duration_text(spec_elapsed(started_at, now)));
        }
        s
    } else {
        let mut s = decimal_string(minutes);
        s.append("m");
        proof {
            assert(s@ =~= spec_duration_text(spec_elapsed(started_at, now)));
        }
        s
    }
}

/// A menu command carries at most this many parts (the program and its
/// parameters), a limit of the host menu protocol.
pub const COMMAND_MAX_PARTS: usize = 6;

/// The command line behind a quick re-defer shortcut: the program, the
/// defer subcommand word, then the shortcut's time-spec tokens. A shortcut
/// whose tokens would push the command over the host's part limit is
/// refused, reporting the part count it would have had.
pub fn build_defer_command(exe: &String, delta: &Vec<String>) -> (r: Result<Vec<String>, Error>)
    requires
        delta@.len() + 2 <= usize::MAX,
    ensures
        match r {
            Ok(parts) => {
                &&& delta@.len() + 2 <= COMMAND_MAX_PARTS
                &&& parts@.len() == delta@.len() + 2
                &&& parts@[0] == *exe
                &&& parts@[1]@ == "defer"@
                &&& forall|i: int| 0 <= i < delta@.len() ==> parts@[i + 2] == delta@[i]
            },
            Err(e) => {
                &&& delta@.len() + 2 > COMMAND_MAX_PARTS
                &&& e == (Error::CommandLength((delta@.len() + 2) as usize))
            },
        },
{
    let n = delta.len();
    if n + 2 > COMMAND_MAX_PARTS {
        return Err(Error::CommandLength(n + 2));
    }
    let mut parts: Vec<String> = Vec::new();
    parts.push(exe.clone());
    parts.push(String::from_str("defer"));
    let mut j: usize = 0;
    while j < n
        invariant
            n == delta@.len(),
            j <= n,
            parts@.len() == j + 2,
            parts@[0] == *exe,
            parts@[1]@ == "defer"@,
            forall|i: int| 0 <= i < j ==> parts@[i + 2] == delta@[i],
        decreases n - j,
    {
        parts.push(delta[j].clone());
        j = j + 1;
    }
    Ok(parts)
}

} // verus!
