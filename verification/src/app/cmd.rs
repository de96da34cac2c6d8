//! What the dispatcher decides: how a lost job is reported, and how the
//! program is started again with privilege.
//!
//! Starting the jobs is not done here.

use crate::app::msg::{Cmd, CmdView, Msg, MsgView};
use vstd::prelude::*;

verus! {

/// The message that reports that the background work for `cmd` was lost
/// before it could report itself, for the reason `reason`. A lost scan or
/// refresh is a failed one; a lost write or verification has ended with a
/// join error. The other commands start no background work.
pub open spec fn lost_job(cmd: CmdView, reason: Seq<char>) -> Option<MsgView> {
    match cmd {
        CmdView::ScanIso { .. } => Some(MsgView::IsoSearchFailed(reason)),
        CmdView::RefreshDevices => Some(MsgView::DevicesRefreshFailed(reason)),
        CmdView::Write { .. } => Some(MsgView::WriteFinished(Err("Join error: "@ + reason))),
        CmdView::Verify { .. } => Some(MsgView::VerifyFinished(Err("Join error: "@ + reason))),
        CmdView::Noop => None,
        CmdView::ReexecWithSudo => None,
    }
}

/// The message that reports that the background work for `cmd` was lost.
pub fn lost_job_message(cmd: &Cmd, reason: &str) -> (r: Option<Msg>)
    ensures
        r.deep_view() == lost_job(cmd@, reason@),
{
    match cmd {
        Cmd::ScanIso { .. } => Some(Msg::IsoSearchFailed(reason.to_owned())),
        Cmd::RefreshDevices => Some(Msg::DevicesRefreshFailed(reason.to_owned())),
        Cmd::Write { .. } => {
            let mut m = "Join error: ".to_owned();
            m.append(reason);
            Some(Msg::WriteFinished(Err(m)))
        },
        Cmd::Verify { .. } => {
            let mut m = "Join error: ".to_owned();
            m.append(reason);
            Some(Msg::VerifyFinished(Err(m)))
        },
        Cmd::Noop => None,
        Cmd::ReexecWithSudo => None,
    }
}

/// Why the program could not be started again with privilege.
#[derive(Debug)]
pub enum ElevationFailure {
    /// The path of the running program is not known, for this reason.
    NoExecutable(String),
    /// The privileged program did not take over.
    NotReplaced,
}

/// The message that reports a failed elevation. It ends the write, since
/// that is what the elevation was for.
pub open spec fn elevation_failed(failure: ElevationFailure) -> MsgView {
    match failure {
        ElevationFailure::NoExecutable(e) => MsgView::WriteFinished(
            Err("Cannot determine current executable: "@ + e@),
        ),
        ElevationFailure::NotReplaced => MsgView::WriteFinished(Err("Failed to exec sudo"@)),
    }
}

/// The message that reports a failed elevation.
pub fn elevation_failure_message(failure: ElevationFailure) -> (r: Msg)
    ensures
        r@ == elevation_failed(failure),
{
    match failure {
        ElevationFailure::NoExecutable(e) => {
            let mut m = "Cannot determine current executable: ".to_owned();
            m.append(e.as_str());
            Msg::WriteFinished(Err(m))
        },
        ElevationFailure::NotReplaced => Msg::WriteFinished(Err("Failed to exec sudo".to_owned())),
    }
}

/// The arguments with which the privileged program is started: the
/// environment is kept, and behind `--` stand the program at `exe` and
/// the arguments it was started with, unchanged.
pub open spec fn elevation_arguments(exe: Seq<char>, args: Seq<Seq<char>>) -> Seq<Seq<char>> {
    seq!["-E"@, "--"@, exe] + args
}

/// The arguments with which the privileged program is started.
pub fn sudo_arguments(exe: String, args: Vec<String>) -> (r: Vec<String>)
    ensures
        r.deep_view() == elevation_arguments(exe@, args.deep_view()),
{
    let ghost given = args.deep_view();
    let mut r: Vec<String> = Vec::new();
    r.push("-E".to_owned());
    r.push("--".to_owned());
    r.push(exe);
    assert(r.deep_view() =~= seq!["-E"@, "--"@, exe@]);
    let mut rest = args;
    let ghost mut taken: Seq<Seq<char>> = Seq::empty();
    assert(rest.deep_view() =~= given.subrange(0, given.len() as int));
    while rest.len() > 0
        invariant
            taken.len() + rest@.len() == given.len(),
            rest.deep_view() == given.subrange(taken.len() as int, given.len() as int),
            taken == given.subrange(0, taken.len() as int),
            r.deep_view() == seq!["-E"@, "--"@, exe@] + taken,
        decreases rest@.len(),
    {
        let ghost rest_before = rest.deep_view();
        let ghost r_before = r.deep_view();
        let a = rest.remove(0);
        proof {
            assert(rest.deep_view() =~= rest_before.remove(0));
            assert(rest_before[0] == a@);
            assert(rest.deep_view() =~= given.subrange((taken.len() + 1) as int, given.len() as int));
            assert(given.subrange(0, (taken.len() + 1) as int) =~= taken.push(a@));
            taken = taken.push(a@);
        }
        r.push(a);
        assert(r.deep_view() =~= r_before.push(a@));
        assert(r.deep_view() =~= seq!["-E"@, "--"@, exe@] + taken);
    }
    assert(taken =~= given);
    r
}

} // verus!
