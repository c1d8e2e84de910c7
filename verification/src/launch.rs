//! What the supervisor decides when it starts a helper in another session:
//! which desktop, which token, and the command line.

use vstd::prelude::*;
use vstd::string::*;
use crate::text::{encode_utf16, utf16_encode};

verus! {

/// A string as the wide-character APIs take it: UTF-16, NUL-terminated.
pub fn wide(s: &str) -> (w: Vec<u16>)
    ensures
        w@ == utf16_encode(s@).push(0),
{
    let mut w = encode_utf16(s);
    w.push(0);
    w
}

/// Which desktop within the interactive window station to start on.
#[derive(Clone, Copy, PartialEq, Eq, Debug, Structural)]
pub enum Desktop {
    /// The ordinary user desktop.
    Default,
    /// The lock screen, the logon screen, and the UAC secure desktop.
    ///
    /// Only a process running as LOCAL_SYSTEM may open this; anything else gets
    /// E_ACCESSDENIED.
    Winlogon,
}

/// The `lpDesktop` path of each desktop.
pub open spec fn desktop_path(d: Desktop) -> Seq<char> {
    match d {
        Desktop::Default => "Winsta0\\Default"@,
        Desktop::Winlogon => "Winsta0\\Winlogon"@,
    }
}

impl Desktop {
    pub fn as_str(self) -> (s: &'static str)
        ensures
            s@ == desktop_path(self),
    {
        match self {
            Desktop::Default => "Winsta0\\Default",
            Desktop::Winlogon => "Winsta0\\Winlogon",
        }
    }
}

/// How the child's token was obtained. Recorded because "it worked" and "it
/// worked the way we think" are different claims.
#[derive(Clone, Copy, Debug, PartialEq, Eq, Structural)]
pub enum TokenSource {
    LoggedInUser,
    SystemRetargeted,
}

pub struct Launched {
    pub pid: u32,
    pub token_source: TokenSource,
}

/// Which token a helper starts with. The logged-in user's token is preferred,
/// so the helper runs with that user's profile and environment, but only on
/// the user desktop; otherwise, and whenever nobody is logged in, a SYSTEM
/// token retargeted at the session, the only one that can open `Winlogon`.
pub fn token_source_for(user_token_available: bool, desktop: Desktop) -> (t: TokenSource)
    ensures
        t == (if user_token_available && desktop == Desktop::Default {
            TokenSource::LoggedInUser
        } else {
            TokenSource::SystemRetargeted
        }),
{
    match desktop {
        Desktop::Default if user_token_available => TokenSource::LoggedInUser,
        _ => TokenSource::SystemRetargeted,
    }
}

/// The command line of the helper: the executable in quotes, a space, then
/// the arguments.
pub open spec fn spec_command_line(exe: Seq<char>, args: Seq<char>) -> Seq<char> {
    seq!['"'] + exe + seq!['"', ' '] + args
}

pub fn command_line(exe: &str, args: &str) -> (cmd: String)
    ensures
        cmd@ == spec_command_line(exe@, args@),
{
    let mut cmd = String::from_str("\"");
    cmd.append(exe);
    cmd.append("\" ");
    cmd.append(args);
    proof {
        reveal_strlit("\"");
        reveal_strlit("\" ");
        assert(cmd@ == spec_command_line(exe@, args@));
    }
    cmd
}

} // verus!
