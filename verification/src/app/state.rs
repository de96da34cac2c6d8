//! The application model.
//!
//! Counters are in bytes, throughput in whole bytes per second.

use crate::app::msg::outcome_view;
use crate::domain::device::DeviceView;
use crate::domain::iso::IsoMetaView;
use vstd::prelude::*;

pub use crate::domain::device::Device;
pub use crate::domain::iso::IsoMeta;
pub use crate::domain::paths::{DevicePath, IsoPath};

verus! {

/// The five screens of the program.
#[non_exhaustive]
#[derive(Debug, Clone, Copy, PartialEq, Eq, Structural)]
pub enum Screen {
    IsoSearch,
    DeviceSelect,
    Confirm,
    Writing,
    Done,
}

/// Which panel takes keyboard input.
#[derive(Debug, Clone, Copy, PartialEq, Eq, Structural)]
pub enum ActivePanel {
    IsoList,
    DeviceList,
    ConfirmInput,
}

/// The text that confirms a write.
pub open spec fn acceptance_token() -> Seq<char> {
    seq!['Y', 'E', 'S']
}

/// The outcome of a job, if it has one yet, over views.
pub open spec fn job_view(r: Option<Result<(), String>>) -> Option<Result<(), Seq<char>>> {
    match r {
        Some(o) => Some(outcome_view(o)),
        None => None,
    }
}

/// What a [`Model`] stands for. Of the two clock readings it keeps only
/// whether the write's start has been recorded.
pub struct ModelView {
    pub screen: Screen,
    pub iso_query: Seq<char>,
    pub iso_results: Seq<IsoMetaView>,
    pub iso_selected: nat,
    pub iso_searching: bool,
    pub iso_chosen: Option<Seq<char>>,
    pub devices: Seq<DeviceView>,
    pub device_selected: nat,
    pub device_refreshing: bool,
    pub device_chosen: Option<Seq<char>>,
    pub confirm_input: Seq<char>,
    pub writing_total: nat,
    pub writing_written: nat,
    pub writing_started: bool,
    pub writing_speed_bps: nat,
    pub write_result: Option<Result<(), Seq<char>>>,
    pub verify_after_write: bool,
    pub verifying: bool,
    pub verifying_total: nat,
    pub verifying_checked: nat,
    pub verifying_speed_bps: nat,
    pub verify_result: Option<Result<(), Seq<char>>>,
    pub is_root: bool,
    pub active_panel: ActivePanel,
}

impl ModelView {
    /// Both an image and a device are chosen.
    pub open spec fn has_both_selections(self) -> bool {
        self.iso_chosen is Some && self.device_chosen is Some
    }

    /// The confirmation text is exactly the acceptance token.
    pub open spec fn is_confirmation_valid(self) -> bool {
        self.confirm_input == acceptance_token()
    }

    /// The selection indices point into their lists, where the lists are
    /// not empty.
    pub open spec fn selections_in_range(self) -> bool {
        &&& self.iso_results.len() > 0 ==> self.iso_selected < self.iso_results.len()
        &&& self.devices.len() > 0 ==> self.device_selected < self.devices.len()
    }

    /// No job has progressed past its total.
    pub open spec fn progress_consistent(self) -> bool {
        &&& self.writing_written <= self.writing_total
        &&& self.verifying_checked <= self.verifying_total
    }
}

/// The whole state of the program.
#[derive(Debug)]
pub struct Model {
    pub screen: Screen,
    pub iso_query: String,
    pub iso_results: Vec<IsoMeta>,
    pub iso_selected: usize,
    pub iso_searching: bool,
    pub iso_debounce_until: Option<std::time::Instant>,
    pub iso_chosen: Option<IsoPath>,
    pub devices: Vec<Device>,
    pub device_selected: usize,
    pub device_refreshing: bool,
    pub device_chosen: Option<DevicePath>,
    /// What the user has typed to confirm the destructive write.
    pub confirm_input: String,
    pub writing_total: u64,
    pub writing_written: u64,
    pub writing_started: Option<std::time::Instant>,
    pub writing_speed_bps: u64,
    /// `None` until the write has finished.
    pub write_result: Option<Result<(), String>>,
    pub verify_after_write: bool,
    pub verifying: bool,
    pub verifying_total: u64,
    pub verifying_checked: u64,
    pub verifying_speed_bps: u64,
    /// `None` until the verification has finished.
    pub verify_result: Option<Result<(), String>>,
    pub is_root: bool,
    pub active_panel: ActivePanel,
}

impl View for Model {
    type V = ModelView;

    open spec fn view(&self) -> ModelView {
        ModelView {
            screen: self.screen,
            iso_query: self.iso_query@,
            iso_results: self.iso_results.deep_view(),
            iso_selected: self.iso_selected as nat,
            iso_searching: self.iso_searching,
            iso_chosen: self.iso_chosen.deep_view(),
            devices: self.devices.deep_view(),
            device_selected: self.device_selected as nat,
            device_refreshing: self.device_refreshing,
            device_chosen: self.device_chosen.deep_view(),
            confirm_input: self.confirm_input@,
            writing_total: self.writing_total as nat,
            writing_written: self.writing_written as nat,
            writing_started: self.writing_started is Some,
            writing_speed_bps: self.writing_speed_bps as nat,
            write_result: job_view(self.write_result),
            verify_after_write: self.verify_after_write,
            verifying: self.verifying,
            verifying_total: self.verifying_total as nat,
            verifying_checked: self.verifying_checked as nat,
            verifying_speed_bps: self.verifying_speed_bps as nat,
            verify_result: job_view(self.verify_result),
            is_root: self.is_root,
            active_panel: self.active_panel,
        }
    }
}

/// The model a program starts with: the first screen, nothing found,
/// nothing chosen, no job run, no privilege.
pub open spec fn initial_model() -> ModelView {
    ModelView {
        screen: Screen::IsoSearch,
        iso_query: Seq::empty(),
        iso_results: Seq::empty(),
        iso_selected: 0,
        iso_searching: false,
        iso_chosen: None,
        devices: Seq::empty(),
        device_selected: 0,
        device_refreshing: false,
        device_chosen: None,
        confirm_input: Seq::empty(),
        writing_total: 0,
        writing_written: 0,
        writing_started: false,
        writing_speed_bps: 0,
        write_result: None,
        verify_after_write: false,
        verifying: false,
        verifying_total: 0,
        verifying_checked: 0,
        verifying_speed_bps: 0,
        verify_result: None,
        is_root: false,
        active_panel: ActivePanel::IsoList,
    }
}

impl Model {
    /// True when both an image and a device have been chosen.
    pub fn has_both_selections(&self) -> (r: bool)
        ensures
            r == self@.has_both_selections(),
    {
        self.iso_chosen.is_some() && self.device_chosen.is_some()
    }

    /// True when a write could start: privilege and both selections.
    pub fn can_write(&self) -> (r: bool)
        ensures
            r == (self@.is_root && self@.has_both_selections()),
    {
        self.is_root && self.has_both_selections()
    }

    /// True while the writing screen is shown and the write has no outcome.
    pub fn is_writing(&self) -> (r: bool)
        ensures
            r == (self@.screen == Screen::Writing && self@.write_result is None),
    {
        self.screen == Screen::Writing && self.write_result.is_none()
    }

    /// True while a verification runs and has no outcome.
    pub fn is_verifying(&self) -> (r: bool)
        ensures
            r == (self@.verifying && self@.verify_result is None),
    {
        self.verifying && self.verify_result.is_none()
    }

    /// True when the confirmation text is exactly `YES`.
    pub fn is_confirmation_valid(&self) -> (r: bool)
        ensures
            r == self@.is_confirmation_valid(),
    {
        let yes = "YES".to_owned();
        proof {
            reveal_strlit("YES");
            assert("YES"@ =~= acceptance_token());
        }
        self.confirm_input == yes
    }
}

/// A copy of a job's outcome, if it has one.
pub fn clone_job(r: &Option<Result<(), String>>) -> (c: Option<Result<(), String>>)
    ensures
        job_view(c) == job_view(*r),
{
    match r {
        Some(o) => Some(crate::app::msg::clone_outcome(o)),
        None => None,
    }
}

impl Clone for Model {
    fn clone(&self) -> (r: Self)
        ensures
            r@ == self@,
            r.writing_started == self.writing_started,
            r.iso_debounce_until == self.iso_debounce_until,
    {
        Model {
            screen: self.screen,
            iso_query: self.iso_query.clone(),
            iso_results: crate::domain::iso::clone_candidates(&self.iso_results),
            iso_selected: self.iso_selected,
            iso_searching: self.iso_searching,
            iso_debounce_until: self.iso_debounce_until,
            iso_chosen: match &self.iso_chosen {
                Some(p) => Some(p.clone()),
                None => None,
            },
            devices: crate::domain::device::clone_devices(&self.devices),
            device_selected: self.device_selected,
            device_refreshing: self.device_refreshing,
            device_chosen: match &self.device_chosen {
                Some(p) => Some(p.clone()),
                None => None,
            },
            confirm_input: self.confirm_input.clone(),
            writing_total: self.writing_total,
            writing_written: self.writing_written,
            writing_started: self.writing_started,
            writing_speed_bps: self.writing_speed_bps,
            write_result: clone_job(&self.write_result),
            verify_after_write: self.verify_after_write,
            verifying: self.verifying,
            verifying_total: self.verifying_total,
            verifying_checked: self.verifying_checked,
            verifying_speed_bps: self.verifying_speed_bps,
            verify_result: clone_job(&self.verify_result),
            is_root: self.is_root,
            active_panel: self.active_panel,
        }
    }
}

impl Default for Model {
    fn default() -> (r: Self)
        ensures
            r@ == initial_model(),
            r.iso_debounce_until is None,
    {
        let r = Model {
            screen: Screen::IsoSearch,
            iso_query: String::new(),
            iso_results: Vec::new(),
            iso_selected: 0,
            iso_searching: false,
            iso_debounce_until: None,
            iso_chosen: None,
            devices: Vec::new(),
            device_selected: 0,
            device_refreshing: false,
            device_chosen: None,
            confirm_input: String::new(),
            writing_total: 0,
            writing_written: 0,
            writing_started: None,
            writing_speed_bps: 0,
            write_result: None,
            verify_after_write: false,
            verifying: false,
            verifying_total: 0,
            verifying_checked: 0,
            verifying_speed_bps: 0,
            verify_result: None,
            is_root: false,
            active_panel: ActivePanel::IsoList,
        };
        assert(r.iso_results.deep_view() =~= Seq::empty());
        assert(r.devices.deep_view() =~= Seq::empty());
        r
    }
}

} // verus!
