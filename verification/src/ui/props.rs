//! Projections of the model, one for each screen.

use crate::app::state::{job_view, ActivePanel, Model};
use crate::domain::{Device, DevicePath, IsoMeta, IsoPath};
use vstd::prelude::*;

verus! {

/// What the image search screen shows.
#[derive(Debug)]
pub struct IsoSearchProps<'a> {
    pub query: &'a str,
    pub searching: bool,
    pub results: &'a [IsoMeta],
    pub selected: usize,
    pub focused: bool,
}

/// What the device selection screen shows.
#[derive(Debug)]
pub struct DeviceSelectProps<'a> {
    pub devices: &'a [Device],
    pub selected: usize,
    pub refreshing: bool,
    pub focused: bool,
}

/// What the confirmation screen shows.
#[derive(Debug)]
pub struct ConfirmProps<'a> {
    pub iso_path: Option<&'a IsoPath>,
    pub device_path: Option<&'a DevicePath>,
    pub confirm_input: &'a str,
    pub verify_after_write: bool,
    pub is_root: bool,
}

/// What the writing screen shows. Throughput is in whole bytes per
/// second.
#[derive(Debug)]
pub struct WritingProps {
    pub written: u64,
    pub total: u64,
    pub speed_bps: u64,
    pub verify_after_write: bool,
    pub verifying: bool,
    pub verified: u64,
    pub verify_total: u64,
    pub verify_speed_bps: u64,
    pub write_result: Option<Result<(), String>>,
}

/// What the last screen shows: how the write ended.
#[derive(Debug)]
pub struct DoneProps {
    pub result: Option<Result<(), String>>,
    pub is_root: bool,
}

impl<'a> IsoSearchProps<'a> {
    /// What this screen shows of `model`.
    pub fn from_model(model: &'a Model) -> (r: Self)
        ensures
            r.query@ == model.iso_query@,
            r.searching == model.iso_searching,
            r.results@ == model.iso_results@,
            r.selected == model.iso_selected,
            r.focused == (model.active_panel == ActivePanel::IsoList),
    {
        IsoSearchProps {
            query: model.iso_query.as_str(),
            searching: model.iso_searching,
            results: model.iso_results.as_slice(),
            selected: model.iso_selected,
            focused: model.active_panel == ActivePanel::IsoList,
        }
    }
}

impl<'a> DeviceSelectProps<'a> {
    /// What this screen shows of `model`.
    pub fn from_model(model: &'a Model) -> (r: Self)
        ensures
            r.devices@ == model.devices@,
            r.selected == model.device_selected,
            r.refreshing == model.device_refreshing,
            r.focused == (model.active_panel == ActivePanel::DeviceList),
    {
        DeviceSelectProps {
            devices: model.devices.as_slice(),
            selected: model.device_selected,
            refreshing: model.device_refreshing,
            focused: model.active_panel == ActivePanel::DeviceList,
        }
    }
}

impl<'a> ConfirmProps<'a> {
    /// What this screen shows of `model`.
    pub fn from_model(model: &'a Model) -> (r: Self)
        ensures
            r.iso_path.deep_view() == model.iso_chosen.deep_view(),
            r.device_path.deep_view() == model.device_chosen.deep_view(),
            r.confirm_input@ == model.confirm_input@,
            r.verify_after_write == model.verify_after_write,
            r.is_root == model.is_root,
    {
        ConfirmProps {
            iso_path: match &model.iso_chosen {
                Some(p) => Some(p),
                None => None,
            },
            device_path: match &model.device_chosen {
                Some(p) => Some(p),
                None => None,
            },
            confirm_input: model.confirm_input.as_str(),
            verify_after_write: model.verify_after_write,
            is_root: model.is_root,
        }
    }
}

impl WritingProps {
    /// What this screen shows of `model`.
    pub fn from_model(model: &Model) -> (r: Self)
        ensures
            r.written == model.writing_written,
            r.total == model.writing_total,
            r.speed_bps == model.writing_speed_bps,
            r.verify_after_write == model.verify_after_write,
            r.verifying == model.verifying,
            r.verified == model.verifying_checked,
            r.verify_total == model.verifying_total,
            r.verify_speed_bps == model.verifying_speed_bps,
            job_view(r.write_result) == job_view(model.write_result),
    {
        WritingProps {
            written: model.writing_written,
            total: model.writing_total,
            speed_bps: model.writing_speed_bps,
            verify_after_write: model.verify_after_write,
            verifying: model.verifying,
            verified: model.verifying_checked,
            verify_total: model.verifying_total,
            verify_speed_bps: model.verifying_speed_bps,
            write_result: crate::app::state::clone_job(&model.write_result),
        }
    }
}

impl DoneProps {
    /// What this screen shows of `model`.
    pub fn from_model(model: &Model) -> (r: Self)
        ensures
            job_view(r.result) == job_view(model.write_result),
            r.is_root == model.is_root,
    {
        DoneProps {
            result: crate::app::state::clone_job(&model.write_result),
            is_root: model.is_root,
        }
    }
}

} // verus!
