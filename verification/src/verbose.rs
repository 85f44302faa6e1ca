//! Verbose logging: when a message is shown, and what its line in the log file
//! looks like.
use vstd::prelude::*;

use crate::text;

verus! {

/// Whether messages are shown to the user.
#[derive(Debug, Clone, Copy, PartialEq, Eq, Structural)]
pub struct Verbosity {
    pub on: bool,
}

/// Show messages, or stop showing them.
pub fn set(verbosity: &mut Verbosity, v: bool)
    ensures
        final(verbosity).on == v,
{
    verbosity.on = v;
}

/// Whether messages are shown.
pub fn enabled(verbosity: &Verbosity) -> (res: bool)
    ensures
        res == verbosity.on,
{
    verbosity.on
}

/// A moment in seconds and milliseconds since the epoch, or a question mark for
/// a clock that stands before it.
pub open spec fn stamp_text(stamp: Option<(u64, u32)>) -> Seq<char> {
    match stamp {
        Some((secs, millis)) => text::decimal(secs as nat) + "."@ + text::low_digits(millis as nat, 10, 3),
        None => "?"@,
    }
}

/// The line of the log file for a message: the moment, the process in brackets,
/// the message.
pub fn log_line(stamp: Option<(u64, u32)>, pid: u32, line: &str) -> (res: String)
    requires
        stamp matches Some((_, millis)) ==> millis < 1000,
    ensures
        res@ == stamp_text(stamp) + " ["@ + text::decimal(pid as nat) + "] "@ + line@ + "\n"@,
{
    let mut out: String = match stamp {
        Some((secs, millis)) => {
            let mut moment = text::decimal_text(secs);
            moment.append(".");
            moment.append(text::low_digits_text(millis as u64, 10, 3).as_str());
            moment
        },
        None => "?".to_owned(),
    };
    out.append(" [");
    out.append(text::decimal_text(pid as u64).as_str());
    out.append("] ");
    out.append(line);
    out.append("\n");
    out
}

/// A line of the log file: the seconds, a dot and the milliseconds in three
/// digits, or a question mark; the process in brackets; the message; a newline.
pub proof fn log_lines_say_when_who_and_what(stamp: Option<(u64, u32)>, pid: u32, line: &str, res: String)
    requires
        stamp matches Some((_, millis)) ==> millis < 1000,
        call_ensures(log_line, (stamp, pid, line), res),
    ensures
        exists|secs: Seq<char>, millis: Seq<char>|
            {
                &&& #[trigger] is_moment(stamp, secs, millis)
                &&& res@ == if stamp is Some {
                    secs + "."@ + millis + " ["@ + text::decimal(pid as nat) + "] "@ + line@ + "\n"@
                } else {
                    "? ["@ + text::decimal(pid as nat) + "] "@ + line@ + "\n"@
                }
            },
{
    match stamp {
        Some((secs, millis)) => {
            text::decimals_stand_for_the_number(secs as nat);
            text::low_digits_stand_for_the_rest(millis as nat, 10, 3);
            assert(vstd::arithmetic::power::pow(10, 3) == 1000) by {
                reveal_with_fuel(vstd::arithmetic::power::pow, 4);
            }
            assert(is_moment(stamp, text::decimal(secs as nat), text::low_digits(millis as nat, 10, 3)));
        },
        None => {
            reveal_strlit("?");
            reveal_strlit(" [");
            reveal_strlit("? [");
            assert("? ["@ =~= "?"@ + " ["@);
            assert(is_moment(stamp, Seq::empty(), Seq::empty()));
        },
    }
}

/// The digits stand for the seconds and, in three places, for the milliseconds.
pub open spec fn is_moment(stamp: Option<(u64, u32)>, secs: Seq<char>, millis: Seq<char>) -> bool {
    match stamp {
        Some((s, m)) => {
            &&& secs == text::decimal(s as nat)
            &&& text::number_of(secs, 10) == s
            &&& millis.len() == 3
            &&& text::number_of(millis, 10) == m
            &&& forall|i: int| 0 <= i < 3 ==> '0' <= #[trigger] millis[i] <= '9'
        },
        None => true,
    }
}

} // verus!
