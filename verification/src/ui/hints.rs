//! Short texts that tell the user where they are and what they can do.

use crate::app::state::{ActivePanel, Model, ModelView, Screen};
use crate::text::{decimal, decimal_string};
use vstd::prelude::*;

verus! {

/// The name of the panel that has the focus.
pub open spec fn focus_label(panel: ActivePanel) -> Seq<char> {
    match panel {
        ActivePanel::IsoList => "ISO Search"@,
        ActivePanel::DeviceList => "Device Select"@,
        ActivePanel::ConfirmInput => "Confirm"@,
    }
}

/// The line at the foot of the screen.
pub open spec fn hint_text(screen: Screen, panel: ActivePanel) -> Seq<char> {
    match screen {
        Screen::IsoSearch => "Focus: "@ + focus_label(panel)
            + " | Tab/Shift-Tab: Switch Panels | q: Quit"@,
        Screen::DeviceSelect => "Focus: "@ + focus_label(panel)
            + " | Tab/Shift-Tab: Switch Panels | r: Refresh | q: Quit"@,
        Screen::Confirm => "Focus: Confirm | Type YES then Enter | Esc: Back | q: Quit"@,
        Screen::Writing => "Writing in progress... Please wait | Do NOT remove device"@,
        Screen::Done => "Complete | Esc: Back | q: Quit"@,
    }
}

fn focus_name(panel: ActivePanel) -> (r: &'static str)
    ensures
        r@ == focus_label(panel),
{
    match panel {
        ActivePanel::IsoList => "ISO Search",
        ActivePanel::DeviceList => "Device Select",
        ActivePanel::ConfirmInput => "Confirm",
    }
}

/// The line at the foot of the screen.
pub fn nav_cycle_hint(m: &Model) -> (r: String)
    ensures
        r@ == hint_text(m@.screen, m@.active_panel),
{
    match m.screen {
        Screen::IsoSearch => {
            let mut r = "Focus: ".to_owned();
            r.append(focus_name(m.active_panel));
            r.append(" | Tab/Shift-Tab: Switch Panels | q: Quit");
            r
        },
        Screen::DeviceSelect => {
            let mut r = "Focus: ".to_owned();
            r.append(focus_name(m.active_panel));
            r.append(" | Tab/Shift-Tab: Switch Panels | r: Refresh | q: Quit");
            r
        },
        Screen::Confirm => "Focus: Confirm | Type YES then Enter | Esc: Back | q: Quit".to_owned(),
        Screen::Writing => "Writing in progress... Please wait | Do NOT remove device".to_owned(),
        Screen::Done => "Complete | Esc: Back | q: Quit".to_owned(),
    }
}

/// How long ago something was, `secs` seconds back: in whole minutes
/// below an hour, in whole hours below a day, in whole days from there
/// on.
pub open spec fn age_text(secs: nat) -> Seq<char> {
    if secs < 3600 {
        decimal(secs / 60) + " minutes ago"@
    } else if secs < 86400 {
        decimal(secs / 3600) + " hours ago"@
    } else {
        decimal(secs / 86400) + " days ago"@
    }
}

/// How long ago something was, `secs` seconds back.
pub fn format_age(secs: u64) -> (r: String)
    ensures
        r@ == age_text(secs as nat),
{
    if secs < 3600 {
        let mut r = decimal_string(secs / 60);
        r.append(" minutes ago");
        r
    } else if secs < 86400 {
        let mut r = decimal_string(secs / 3600);
        r.append(" hours ago");
        r
    } else {
        let mut r = decimal_string(secs / 86400);
        r.append(" days ago");
        r
    }
}

/// The mood of the frame around the screen.
#[derive(Debug, Clone, Copy, PartialEq, Eq, Structural)]
pub enum BorderTone {
    Active,
    Warning,
    Primary,
    Success,
    Danger,
    Inactive,
}

/// The mood of the frame: plain while choosing, a warning while
/// confirming, and on the last screen that of the write's outcome.
pub open spec fn tone_of(m: ModelView) -> BorderTone {
    match m.screen {
        Screen::IsoSearch => BorderTone::Active,
        Screen::DeviceSelect => BorderTone::Active,
        Screen::Confirm => BorderTone::Warning,
        Screen::Writing => BorderTone::Primary,
        Screen::Done => match m.write_result {
            Some(Ok(_)) => BorderTone::Success,
            Some(Err(_)) => BorderTone::Danger,
            None => BorderTone::Inactive,
        },
    }
}

/// The mood of the frame around the screen.
pub fn border_tone(m: &Model) -> (r: BorderTone)
    ensures
        r == tone_of(m@),
{
    match m.screen {
        Screen::IsoSearch => BorderTone::Active,
        Screen::DeviceSelect => BorderTone::Active,
        Screen::Confirm => BorderTone::Warning,
        Screen::Writing => BorderTone::Primary,
        Screen::Done => match &m.write_result {
            Some(Ok(_)) => BorderTone::Success,
            Some(Err(_)) => BorderTone::Danger,
            None => BorderTone::Inactive,
        },
    }
}

/// How a job ended, as the last screen tells it apart.
#[derive(Debug, Clone, Copy, PartialEq, Eq, Structural)]
pub enum Ending {
    Succeeded,
    Failed,
    Unknown,
}

/// How the run ended: by the verification where there was one, else by
/// the write; unknown where neither has an outcome.
pub open spec fn ending_of(m: ModelView) -> Ending {
    match m.verify_result {
        Some(Ok(_)) => Ending::Succeeded,
        Some(Err(_)) => Ending::Failed,
        None => match m.write_result {
            Some(Ok(_)) => Ending::Succeeded,
            Some(Err(_)) => Ending::Failed,
            None => Ending::Unknown,
        },
    }
}

/// How the run ended.
pub fn ending(m: &Model) -> (r: Ending)
    ensures
        r == ending_of(m@),
{
    match &m.verify_result {
        Some(Ok(_)) => Ending::Succeeded,
        Some(Err(_)) => Ending::Failed,
        None => match &m.write_result {
            Some(Ok(_)) => Ending::Succeeded,
            Some(Err(_)) => Ending::Failed,
            None => Ending::Unknown,
        },
    }
}

} // verus!
