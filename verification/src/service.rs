//! The supervisor's decisions: keep a helper running on whichever desktop
//! currently has input, in whichever session is at the console.
//!
//! The service itself polls Windows, sleeps and launches processes; each poll
//! hands the session and input desktop it saw to [`Supervisor::observe`],
//! which says what to do, and a successful launch is reported back with
//! [`Supervisor::launched`].

use vstd::prelude::*;
use vstd::string::*;
use crate::launch::Desktop;
use crate::text::{
    law_zero_fill_spells, lemma_zero_fill_one, spells,
    decimal, eq_ignoring_ascii_case, str_eq_ignore_ascii_case, str_to_lowercase, unicode_lowercase,
    zero_padded, zero_fill,
};

verus! {

pub const SERVICE_NAME: &'static str = "NaqixSpikeA";

/// The session id Windows reports when no console session is attached.
pub const NO_CONSOLE_SESSION: u32 = 0xFFFF_FFFF;

/// What the supervisor does after one poll.
pub enum Step {
    /// No console session is attached, which happens transiently around
    /// logoff and switch-user: wait it out. `dropped` says a helper was being
    /// tracked and has been forgotten.
    NoSession { dropped: bool },
    /// The helper already runs on the desktop that has input.
    Unchanged,
    /// (Re)start the helper on `target`, tagged `tag`.
    Relaunch { target: Desktop, tag: String },
}

/// The desktop a helper is started on: `Winlogon` covers the lock screen,
/// the logon screen and the UAC secure desktop, and anything else is treated
/// as the user desktop.
pub open spec fn spec_target_desktop(desk: Seq<char>) -> Desktop {
    if eq_ignoring_ascii_case(desk, "Winlogon"@) {
        Desktop::Winlogon
    } else {
        Desktop::Default
    }
}

pub fn target_desktop(desk: &str) -> (d: Desktop)
    ensures
        d == spec_target_desktop(desk@),
{
    if str_eq_ignore_ascii_case(desk, "Winlogon") {
        Desktop::Winlogon
    } else {
        Desktop::Default
    }
}

/// The tag a helper's frames carry: the lowercased desktop name, `-s`, and
/// the session id.
pub open spec fn spec_helper_tag(desk_lower: Seq<char>, session: u32) -> Seq<char> {
    desk_lower + seq!['-', 's'] + decimal(session as nat)
}

pub fn helper_tag(desk_lower: &str, session: u32) -> (tag: String)
    ensures
        tag@ == spec_helper_tag(desk_lower@, session),
{
    let mut tag = String::from_str(desk_lower);
    tag.append("-s");
    tag.append(zero_padded(session as u64, 0).as_str());
    proof {
        reveal_strlit("-s");
        assert(zero_fill(session as nat, 0) == decimal(session as nat));
        assert(tag@ == spec_helper_tag(desk_lower@, session));
    }
    tag
}

/// Law: a helper's tag is the (lowercased) desktop name itself, then `-s`,
/// then digits that spell the session id.
pub proof fn law_helper_tag_names_desktop_and_session(desk_lower: Seq<char>, session: u32)
    ensures
        exists|digits: Seq<char>|
            spec_helper_tag(desk_lower, session) == desk_lower + seq!['-', 's'] + digits && #[trigger] spells(
                digits,
                session as nat,
                1,
            ),
{
    law_zero_fill_spells(session as nat, 1);
    lemma_zero_fill_one(session as nat);
    let digits = decimal(session as nat);
    assert(spells(digits, session as nat, 1));
}

/// The arguments the helper is started with.
pub open spec fn spec_helper_args(tag: Seq<char>) -> Seq<char> {
    "helper "@ + tag
}

pub fn helper_args(tag: &str) -> (args: String)
    ensures
        args@ == spec_helper_args(tag@),
{
    let mut args = String::from_str("helper ");
    args.append(tag);
    args
}

/// The helper being kept alive: the desktop name and session it was started
/// for, if any.
pub struct Supervisor {
    current: Option<(String, u32)>,
}

impl View for Supervisor {
    type V = Option<(Seq<char>, u32)>;

    closed spec fn view(&self) -> Option<(Seq<char>, u32)> {
        match self.current {
            Some((name, session)) => Some((name@, session)),
            None => None,
        }
    }
}

/// The helper must be (re)started: none is tracked, or the input desktop or
/// the console session differs from the one it was started for.
pub open spec fn needs_relaunch(
    current: Option<(Seq<char>, u32)>,
    session: u32,
    desk: Seq<char>,
) -> bool {
    match current {
        Some((name, sess)) => name != desk || sess != session,
        None => true,
    }
}

impl Supervisor {
    pub fn new() -> (s: Supervisor)
        ensures
            s@ == None::<(Seq<char>, u32)>,
    {
        Supervisor { current: None }
    }

    /// Decide what to do after seeing `session` at the console with input on
    /// desktop `desk`.
    pub fn observe(&mut self, session: u32, desk: &str) -> (step: Step)
        ensures
            session == NO_CONSOLE_SESSION ==> {
                &&& step == Step::NoSession { dropped: old(self)@ is Some }
                &&& final(self)@ == None::<(Seq<char>, u32)>
            },
            session != NO_CONSOLE_SESSION ==> {
                &&& final(self)@ == old(self)@
                &&& needs_relaunch(old(self)@, session, desk@) ==> (step matches Step::Relaunch {
                    target,
                    tag,
                } && target == spec_target_desktop(desk@) && tag@ == spec_helper_tag(
                    unicode_lowercase(desk@),
                    session,
                ))
                &&& !needs_relaunch(old(self)@, session, desk@) ==> step is Unchanged
            },
    {
        if session == NO_CONSOLE_SESSION {
            let dropped = self.current.is_some();
            self.current = None;
            return Step::NoSession { dropped };
        }
        let desk_owned = String::from_str(desk);
        let changed = match &self.current {
            Some((name, sess)) => !(*name == desk_owned) || *sess != session,
            None => true,
        };
        if changed {
            let target = target_desktop(desk);
            let lower = str_to_lowercase(desk);
            let tag = helper_tag(lower.as_str(), session);
            Step::Relaunch { target, tag }
        } else {
            Step::Unchanged
        }
    }

    /// A helper was started for `desk` on `session`.
    pub fn launched(&mut self, desk: &str, session: u32)
        ensures
            final(self)@ == Some((desk@, session)),
    {
        self.current = Some((String::from_str(desk), session));
    }
}

/// The service-control requests the supervisor distinguishes.
#[derive(Clone, Copy, Debug, PartialEq, Eq, Structural)]
pub enum ControlRequest {
    Stop,
    Shutdown,
    Interrogate,
    SessionChange,
    Other,
}

/// How a control request is answered.
#[derive(Clone, Copy, Debug, PartialEq, Eq, Structural)]
pub enum ControlReply {
    NoError,
    NotImplemented,
}

/// Answer a control request, and say whether the supervisor is to stop: stop
/// and shutdown stop it; interrogation and session changes (which are logged,
/// since they say when Windows saw a lock, logoff or user switch) are
/// answered; anything else is not implemented.
pub fn answer_control(request: ControlRequest) -> (answer: (ControlReply, bool))
    ensures
        answer == match request {
            ControlRequest::Stop | ControlRequest::Shutdown => (ControlReply::NoError, true),
            ControlRequest::Interrogate | ControlRequest::SessionChange => (
                ControlReply::NoError,
                false,
            ),
            ControlRequest::Other => (ControlReply::NotImplemented, false),
        },
{
    match request {
        ControlRequest::Stop | ControlRequest::Shutdown => (ControlReply::NoError, true),
        ControlRequest::Interrogate | ControlRequest::SessionChange => (ControlReply::NoError, false),
        ControlRequest::Other => (ControlReply::NotImplemented, false),
    }
}

/// Law: once a helper runs for a desktop and session, seeing that same
/// desktop and session again never restarts it.
pub proof fn law_no_respawn_while_unchanged(desk: Seq<char>, session: u32)
    ensures
        !needs_relaunch(Some((desk, session)), session, desk),
{
}

/// Law: any change of input desktop or console session restarts the helper.
pub proof fn law_change_forces_respawn(
    desk: Seq<char>,
    session: u32,
    new_desk: Seq<char>,
    new_session: u32,
)
    requires
        desk != new_desk || session != new_session,
    ensures
        needs_relaunch(Some((desk, session)), new_session, new_desk),
{
}

/// Law: after the console session is lost, the next session seen always gets
/// a fresh helper.
pub proof fn law_lost_session_forces_respawn(desk: Seq<char>, session: u32)
    ensures
        needs_relaunch(None, session, desk),
{
}

} // verus!
