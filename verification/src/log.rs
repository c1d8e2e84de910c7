//! File logging: where the log lives and what one line of it says.

use vstd::prelude::*;
use vstd::string::*;
use std::path::PathBuf;
use crate::text::{decimal, law_zero_fill_spells, lemma_zero_fill_one, spells, zero_fill, zero_padded};

verus! {

/// `std::path::PathBuf`, carried through as an opaque path buffer.
#[verifier::external_type_specification]
#[verifier::external_body]
pub struct ExPathBuf(PathBuf);

/// The text a `PathBuf` holds.
pub uninterp spec fn path_text(p: PathBuf) -> Seq<char>;

/// `PathBuf::from(&str)`: a path holding exactly the text of `s`.
#[verifier::external_body]
pub(crate) fn path_from_str(s: &str) -> (p: PathBuf)
    ensures
        path_text(p) == s@,
{
    PathBuf::from(s)
}

pub open spec fn spec_log_path() -> Seq<char> {
    "C:\\ProgramData\\naqix-spike-a\\spike.log"@
}

/// ProgramData, not the user profile: the service runs as SYSTEM and the
/// helper may run as a different user or as SYSTEM on the secure desktop.
/// They must all write to one file or the sequence is unreconstructable.
pub fn log_path() -> (p: PathBuf)
    ensures
        path_text(p) == spec_log_path(),
{
    path_from_str("C:\\ProgramData\\naqix-spike-a\\spike.log")
}

/// The local time a line is stamped with, as `GetLocalTime` gives it.
#[derive(Clone, Copy, Debug, PartialEq, Eq, Structural)]
pub struct LocalTime {
    pub year: u16,
    pub month: u16,
    pub day: u16,
    pub hour: u16,
    pub minute: u16,
    pub second: u16,
    pub millis: u16,
}

/// One log line: `YYYY-MM-DD hh:mm:ss.mmm [role] pid=N message`, then a
/// newline.
pub open spec fn spec_log_line(t: LocalTime, role: Seq<char>, pid: u32, msg: Seq<char>) -> Seq<
    char,
> {
    zero_fill(t.year as nat, 4) + seq!['-'] + zero_fill(t.month as nat, 2) + seq!['-'] + zero_fill(
        t.day as nat,
        2,
    ) + seq![' '] + zero_fill(t.hour as nat, 2) + seq![':'] + zero_fill(t.minute as nat, 2)
        + seq![':'] + zero_fill(t.second as nat, 2) + seq!['.'] + zero_fill(t.millis as nat, 3)
        + seq![' ', '['] + role + seq![']', ' ', 'p', 'i', 'd', '='] + decimal(pid as nat) + seq![
        ' ',
    ] + msg + seq!['\n']
}

/// Law: a log line is the date `Y-M-D`, a space, the time `h:m:s.ms`, a
/// space, the role in brackets, ` pid=`, the process id, a space, the message
/// and a newline; each number is written in decimal digits that spell its
/// whole value, zero-padded to four digits for the year, three for the
/// milliseconds and two for the rest.
pub proof fn law_log_line_fields(t: LocalTime, role: Seq<char>, pid: u32, msg: Seq<char>)
    ensures
        exists|y: Seq<char>, mo: Seq<char>, d: Seq<char>, h: Seq<char>, mi: Seq<char>, s: Seq<char>, ms: Seq<char>, p: Seq<char>|
            #![trigger spells(y, t.year as nat, 4), spells(mo, t.month as nat, 2), spells(d, t.day as nat, 2), spells(h, t.hour as nat, 2), spells(mi, t.minute as nat, 2), spells(s, t.second as nat, 2), spells(ms, t.millis as nat, 3), spells(p, pid as nat, 1)]
            spec_log_line(t, role, pid, msg) == y + seq!['-'] + mo + seq!['-'] + d + seq![' '] + h
                + seq![':'] + mi + seq![':'] + s + seq!['.'] + ms + seq![' ', '['] + role + seq![
                ']',
                ' ',
                'p',
                'i',
                'd',
                '=',
            ] + p + seq![' '] + msg + seq!['\n'] && spells(y, t.year as nat, 4) && spells(
                mo,
                t.month as nat,
                2,
            ) && spells(d, t.day as nat, 2) && spells(h, t.hour as nat, 2) && spells(
                mi,
                t.minute as nat,
                2,
            ) && spells(s, t.second as nat, 2) && spells(ms, t.millis as nat, 3) && spells(
                p,
                pid as nat,
                1,
            ),
{
    law_zero_fill_spells(t.year as nat, 4);
    law_zero_fill_spells(t.month as nat, 2);
    law_zero_fill_spells(t.day as nat, 2);
    law_zero_fill_spells(t.hour as nat, 2);
    law_zero_fill_spells(t.minute as nat, 2);
    law_zero_fill_spells(t.second as nat, 2);
    law_zero_fill_spells(t.millis as nat, 3);
    law_zero_fill_spells(pid as nat, 1);
    lemma_zero_fill_one(pid as nat);
    let y = zero_fill(t.year as nat, 4);
    let p = decimal(pid as nat);
    assert(spells(y, t.year as nat, 4));
    assert(spells(zero_fill(t.month as nat, 2), t.month as nat, 2));
    assert(spells(zero_fill(t.day as nat, 2), t.day as nat, 2));
    assert(spells(zero_fill(t.hour as nat, 2), t.hour as nat, 2));
    assert(spells(zero_fill(t.minute as nat, 2), t.minute as nat, 2));
    assert(spells(zero_fill(t.second as nat, 2), t.second as nat, 2));
    assert(spells(zero_fill(t.millis as nat, 3), t.millis as nat, 3));
    assert(spells(p, pid as nat, 1));
}

/// Format one log line.
pub fn log_line(t: LocalTime, role: &str, pid: u32, msg: &str) -> (line: String)
    ensures
        line@ == spec_log_line(t, role@, pid, msg@),
{
    let mut line = zero_padded(t.year as u64, 4);
    line.append("-");
    line.append(zero_padded(t.month as u64, 2).as_str());
    line.append("-");
    line.append(zero_padded(t.day as u64, 2).as_str());
    line.append(" ");
    line.append(zero_padded(t.hour as u64, 2).as_str());
    line.append(":");
    line.append(zero_padded(t.minute as u64, 2).as_str());
    line.append(":");
    line.append(zero_padded(t.second as u64, 2).as_str());
    line.append(".");
    line.append(zero_padded(t.millis as u64, 3).as_str());
    line.append(" [");
    line.append(role);
    line.append("] pid=");
    line.append(zero_padded(pid as u64, 0).as_str());
    line.append(" ");
    line.append(msg);
    line.append("\n");
    proof {
        reveal_strlit("-");
        reveal_strlit(" ");
        reveal_strlit(":");
        reveal_strlit(".");
        reveal_strlit(" [");
        reveal_strlit("] pid=");
        reveal_strlit("\n");
        assert(zero_fill(pid as nat, 0) == decimal(pid as nat));
        assert(line@ == spec_log_line(t, role@, pid, msg@));
    }
    line
}

} // verus!
