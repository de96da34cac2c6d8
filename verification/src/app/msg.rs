//! Messages consumed by the reducer and commands produced by it.

use crate::domain::device::{Device, DeviceView};
use crate::domain::iso::{IsoMeta, IsoMetaView};
use crate::domain::paths::{DevicePath, IsoPath};
use vstd::prelude::*;

verus! {

/// The key that was pressed. Keys the state machine never looks at are all
/// `Other`.
#[derive(Debug, Clone, Copy, PartialEq, Eq, Structural)]
pub enum KeyCode {
    Backspace,
    Enter,
    Up,
    Down,
    Tab,
    BackTab,
    Esc,
    Char(char),
    Other,
}

/// The modifier keys held with a key. `other` stands for any modifier
/// besides shift, control and alt.
#[derive(Debug, Clone, Copy, PartialEq, Eq, Structural)]
pub struct KeyModifiers {
    pub shift: bool,
    pub control: bool,
    pub alt: bool,
    pub other: bool,
}

impl KeyModifiers {
    /// No modifier held.
    pub fn empty() -> (r: Self)
        ensures
            r == (KeyModifiers { shift: false, control: false, alt: false, other: false }),
    {
        KeyModifiers { shift: false, control: false, alt: false, other: false }
    }

    /// Control and nothing else.
    pub fn control() -> (r: Self)
        ensures
            r == (KeyModifiers { shift: false, control: true, alt: false, other: false }),
    {
        KeyModifiers { shift: false, control: true, alt: false, other: false }
    }

    /// Whether control is the one modifier held.
    pub open spec fn only_control(self) -> bool {
        self.control && !self.shift && !self.alt && !self.other
    }

    /// Whether control is the one modifier held.
    #[verifier::when_used_as_spec(only_control)]
    pub fn is_only_control(self) -> (r: bool)
        ensures
            r == self.only_control(),
    {
        self.control && !self.shift && !self.alt && !self.other
    }
}

/// Whether a key went down, repeats or went up.
#[derive(Debug, Clone, Copy, PartialEq, Eq, Structural)]
pub enum KeyEventKind {
    Press,
    Repeat,
    Release,
}

/// One keyboard event.
#[derive(Debug, Clone, Copy, PartialEq, Eq, Structural)]
pub struct KeyEvent {
    pub code: KeyCode,
    pub modifiers: KeyModifiers,
    pub kind: KeyEventKind,
}

/// The outcome carried by a finished job, over views.
pub open spec fn outcome_view(r: Result<(), String>) -> Result<(), Seq<char>> {
    match r {
        Ok(_) => Ok(()),
        Err(e) => Err(e@),
    }
}

/// What a [`Msg`] stands for.
pub enum MsgView {
    Tick,
    Key(KeyEvent),
    Quit,
    Back,
    NextScreen,
    PrevScreen,
    IsoQueryChanged(Seq<char>),
    IsoSearchRequested,
    IsoSearchFailed(Seq<char>),
    IsoResults(Seq<IsoMetaView>),
    IsoMoveSelection(int),
    IsoConfirmSelect,
    DevicesRefreshFailed(Seq<char>),
    DevicesRefreshed(Seq<DeviceView>),
    DeviceMoveSelection(int),
    DeviceConfirmSelect,
    RefreshDevicesRequested,
    WriteStarted { total: nat },
    WriteProgress { written: nat, total: nat, bps: nat },
    WriteFinished(Result<(), Seq<char>>),
    VerifyStarted { total: nat },
    VerifyProgress { checked: nat, total: nat, bps: nat },
    VerifyFinished(Result<(), Seq<char>>),
    ElevateRequested,
}

/// An event for the reducer: user input, a timer tick, or the progress or
/// outcome of a background job. Throughput is in whole bytes per second.
#[non_exhaustive]
#[derive(Debug)]
pub enum Msg {
    Tick,
    Key(KeyEvent),
    Quit,
    Back,
    NextScreen,
    PrevScreen,
    IsoQueryChanged(String),
    IsoSearchRequested,
    IsoSearchFailed(String),
    IsoResults(Vec<IsoMeta>),
    IsoMoveSelection(i32),
    IsoConfirmSelect,
    DevicesRefreshFailed(String),
    DevicesRefreshed(Vec<Device>),
    DeviceMoveSelection(i32),
    DeviceConfirmSelect,
    RefreshDevicesRequested,
    WriteStarted { total: u64 },
    WriteProgress { written: u64, total: u64, bps: u64 },
    WriteFinished(Result<(), String>),
    VerifyStarted { total: u64 },
    VerifyProgress { checked: u64, total: u64, bps: u64 },
    VerifyFinished(Result<(), String>),
    ElevateRequested,
}

impl View for Msg {
    type V = MsgView;

    open spec fn view(&self) -> MsgView {
        match *self {
            Msg::Tick => MsgView::Tick,
            Msg::Key(k) => MsgView::Key(k),
            Msg::Quit => MsgView::Quit,
            Msg::Back => MsgView::Back,
            Msg::NextScreen => MsgView::NextScreen,
            Msg::PrevScreen => MsgView::PrevScreen,
            Msg::IsoQueryChanged(q) => MsgView::IsoQueryChanged(q@),
            Msg::IsoSearchRequested => MsgView::IsoSearchRequested,
            Msg::IsoSearchFailed(e) => MsgView::IsoSearchFailed(e@),
            Msg::IsoResults(r) => MsgView::IsoResults(r.deep_view()),
            Msg::IsoMoveSelection(d) => MsgView::IsoMoveSelection(d as int),
            Msg::IsoConfirmSelect => MsgView::IsoConfirmSelect,
            Msg::DevicesRefreshFailed(e) => MsgView::DevicesRefreshFailed(e@),
            Msg::DevicesRefreshed(d) => MsgView::DevicesRefreshed(d.deep_view()),
            Msg::DeviceMoveSelection(d) => MsgView::DeviceMoveSelection(d as int),
            Msg::DeviceConfirmSelect => MsgView::DeviceConfirmSelect,
            Msg::RefreshDevicesRequested => MsgView::RefreshDevicesRequested,
            Msg::WriteStarted { total } => MsgView::WriteStarted { total: total as nat },
            Msg::WriteProgress { written, total, bps } => MsgView::WriteProgress {
                written: written as nat,
                total: total as nat,
                bps: bps as nat,
            },
            Msg::WriteFinished(r) => MsgView::WriteFinished(outcome_view(r)),
            Msg::VerifyStarted { total } => MsgView::VerifyStarted { total: total as nat },
            Msg::VerifyProgress { checked, total, bps } => MsgView::VerifyProgress {
                checked: checked as nat,
                total: total as nat,
                bps: bps as nat,
            },
            Msg::VerifyFinished(r) => MsgView::VerifyFinished(outcome_view(r)),
            Msg::ElevateRequested => MsgView::ElevateRequested,
        }
    }
}

impl DeepView for Msg {
    type V = MsgView;

    open spec fn deep_view(&self) -> MsgView {
        self@
    }
}

/// A copy of a job's outcome.
pub fn clone_outcome(r: &Result<(), String>) -> (c: Result<(), String>)
    ensures
        outcome_view(c) == outcome_view(*r),
{
    match r {
        Ok(_) => Ok(()),
        Err(e) => Err(e.clone()),
    }
}

impl Clone for Msg {
    fn clone(&self) -> (r: Self)
        ensures
            r@ == self@,
    {
        match self {
            Msg::Tick => Msg::Tick,
            Msg::Key(k) => Msg::Key(*k),
            Msg::Quit => Msg::Quit,
            Msg::Back => Msg::Back,
            Msg::NextScreen => Msg::NextScreen,
            Msg::PrevScreen => Msg::PrevScreen,
            Msg::IsoQueryChanged(q) => Msg::IsoQueryChanged(q.clone()),
            Msg::IsoSearchRequested => Msg::IsoSearchRequested,
            Msg::IsoSearchFailed(e) => Msg::IsoSearchFailed(e.clone()),
            Msg::IsoResults(r) => Msg::IsoResults(crate::domain::iso::clone_candidates(r)),
            Msg::IsoMoveSelection(d) => Msg::IsoMoveSelection(*d),
            Msg::IsoConfirmSelect => Msg::IsoConfirmSelect,
            Msg::DevicesRefreshFailed(e) => Msg::DevicesRefreshFailed(e.clone()),
            Msg::DevicesRefreshed(d) => Msg::DevicesRefreshed(
                crate::domain::device::clone_devices(d),
            ),
            Msg::DeviceMoveSelection(d) => Msg::DeviceMoveSelection(*d),
            Msg::DeviceConfirmSelect => Msg::DeviceConfirmSelect,
            Msg::RefreshDevicesRequested => Msg::RefreshDevicesRequested,
            Msg::WriteStarted { total } => Msg::WriteStarted { total: *total },
            Msg::WriteProgress { written, total, bps } => Msg::WriteProgress {
                written: *written,
                total: *total,
                bps: *bps,
            },
            Msg::WriteFinished(r) => Msg::WriteFinished(clone_outcome(r)),
            Msg::VerifyStarted { total } => Msg::VerifyStarted { total: *total },
            Msg::VerifyProgress { checked, total, bps } => Msg::VerifyProgress {
                checked: *checked,
                total: *total,
                bps: *bps,
            },
            Msg::VerifyFinished(r) => Msg::VerifyFinished(clone_outcome(r)),
            Msg::ElevateRequested => Msg::ElevateRequested,
        }
    }
}

/// What a [`Cmd`] stands for.
pub enum CmdView {
    Noop,
    ScanIso { query: Seq<char> },
    RefreshDevices,
    Write { iso: Seq<char>, device: Seq<char> },
    Verify { iso: Seq<char>, device: Seq<char>, size: nat },
    ReexecWithSudo,
}

/// A side effect the reducer asks for.
#[non_exhaustive]
#[derive(Debug, Clone)]
pub enum Cmd {
    Noop,
    ScanIso { query: String },
    RefreshDevices,
    Write { iso: IsoPath, device: DevicePath },
    Verify { iso: IsoPath, device: DevicePath, size: u64 },
    ReexecWithSudo,
}

impl View for Cmd {
    type V = CmdView;

    open spec fn view(&self) -> CmdView {
        match *self {
            Cmd::Noop => CmdView::Noop,
            Cmd::ScanIso { query } => CmdView::ScanIso { query: query@ },
            Cmd::RefreshDevices => CmdView::RefreshDevices,
            Cmd::Write { iso, device } => CmdView::Write { iso: iso@, device: device@ },
            Cmd::Verify { iso, device, size } => CmdView::Verify {
                iso: iso@,
                device: device@,
                size: size as nat,
            },
            Cmd::ReexecWithSudo => CmdView::ReexecWithSudo,
        }
    }
}

impl DeepView for Cmd {
    type V = CmdView;

    open spec fn deep_view(&self) -> CmdView {
        self@
    }
}

} // verus!
