//! Handing a resolved session over to the program that resumes it: what is
//! done next after each thing that happened.

use vstd::prelude::*;
use crate::session::{Session, SessionView};

verus! {

/// What has just happened in a handoff.
#[derive(Clone, Copy, Debug)]
pub enum HandoffEvent {
    /// The session was resolved; nothing was done yet.
    Resolved,
    /// The session's working directory was entered.
    DirectoryEntered,
    /// The session's working directory could not be entered.
    DirectoryRefused,
    /// The resuming program could not be started.
    LaunchFailed,
}

/// What a handoff does next.
#[derive(Debug)]
pub enum HandoffAction {
    /// Make this directory the working directory.
    EnterDirectory(String),
    /// Replace this process by the resuming program, with these arguments.
    Launch(Vec<String>),
    /// Tell the user that the program could not be started, and end.
    ReportFailure,
}

/// A handoff's action over texts.
pub enum HandoffActionView {
    EnterDirectory(Seq<char>),
    Launch(Seq<Seq<char>>),
    ReportFailure,
}

impl View for HandoffAction {
    type V = HandoffActionView;

    open spec fn view(&self) -> HandoffActionView {
        match self {
            HandoffAction::EnterDirectory(dir) => HandoffActionView::EnterDirectory(dir@),
            HandoffAction::Launch(args) => HandoffActionView::Launch(
                args@.map_values(|a: String| a@),
            ),
            HandoffAction::ReportFailure => HandoffActionView::ReportFailure,
        }
    }
}

/// The next action of a handoff. The program is started whether or not the
/// directory could be entered; a failed start is reported and not tried
/// again.
pub open spec fn handoff_step(s: SessionView, event: HandoffEvent) -> HandoffActionView {
    match event {
        HandoffEvent::Resolved => HandoffActionView::EnterDirectory(s.pwd),
        HandoffEvent::DirectoryEntered | HandoffEvent::DirectoryRefused => HandoffActionView::Launch(
            seq!["--resume"@, s.id],
        ),
        HandoffEvent::LaunchFailed => HandoffActionView::ReportFailure,
    }
}

/// What to do next in the handoff of `session` after `event`.
pub fn next_action(session: &Session, event: HandoffEvent) -> (action: HandoffAction)
    ensures
        action@ == handoff_step(session@, event),
{
    match event {
        HandoffEvent::Resolved => HandoffAction::EnterDirectory(session.pwd.clone()),
        HandoffEvent::DirectoryEntered | HandoffEvent::DirectoryRefused => {
            let mut args: Vec<String> = Vec::new();
            args.push("--resume".to_owned());
            args.push(session.id.clone());
            proof {
                assert(args@.map_values(|a: String| a@) =~= seq!["--resume"@, session@.id]);
            }
            HandoffAction::Launch(args)
        },
        HandoffEvent::LaunchFailed => HandoffAction::ReportFailure,
    }
}

} // verus!
