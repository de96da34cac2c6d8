//! The reducer: one message in, the next model and its commands out.
//!
//! [`reduce`] is the state machine as a function on views. [`update`] is
//! the executable reducer and returns exactly what [`reduce`] says.

use crate::app::msg::{Cmd, CmdView, KeyCode, KeyEvent, KeyEventKind, Msg, MsgView};
use crate::app::state::{acceptance_token, ActivePanel, Model, ModelView, Screen};
use crate::text::{ascii_upper, byte_len, is_ascii_letter};
use vstd::prelude::*;

verus! {

/// The panel that takes input while `screen` is shown.
pub open spec fn panel_for(screen: Screen) -> ActivePanel {
    match screen {
        Screen::IsoSearch => ActivePanel::IsoList,
        Screen::DeviceSelect => ActivePanel::DeviceList,
        Screen::Confirm => ActivePanel::ConfirmInput,
        Screen::Writing => ActivePanel::ConfirmInput,
        Screen::Done => ActivePanel::ConfirmInput,
    }
}

/// `m` showing `screen`, with the focus that goes with it.
pub open spec fn showing(m: ModelView, screen: Screen) -> ModelView {
    ModelView { screen, active_panel: panel_for(screen), ..m }
}

/// A write may start: both selections are made and the acceptance token
/// has been typed.
pub open spec fn may_confirm(m: ModelView) -> bool {
    m.has_both_selections() && m.is_confirmation_valid()
}

/// Where "next" leads. The confirmation screen is reached from device
/// selection only with both selections made; a running or finished job
/// holds its screen.
pub open spec fn next_of(m: ModelView) -> Screen {
    match m.screen {
        Screen::IsoSearch => Screen::DeviceSelect,
        Screen::DeviceSelect => if m.has_both_selections() {
            Screen::Confirm
        } else {
            Screen::IsoSearch
        },
        Screen::Confirm => Screen::IsoSearch,
        Screen::Writing => Screen::Writing,
        Screen::Done => Screen::Done,
    }
}

/// Where "previous" leads.
pub open spec fn prev_of(m: ModelView) -> Screen {
    match m.screen {
        Screen::IsoSearch => if may_confirm(m) {
            Screen::Confirm
        } else {
            Screen::DeviceSelect
        },
        Screen::DeviceSelect => Screen::IsoSearch,
        Screen::Confirm => Screen::DeviceSelect,
        Screen::Writing => Screen::Confirm,
        Screen::Done => Screen::DeviceSelect,
    }
}

/// Where "back" leads. The first screen has nowhere to go back to.
pub open spec fn back_of(screen: Screen) -> Screen {
    match screen {
        Screen::IsoSearch => Screen::IsoSearch,
        Screen::DeviceSelect => Screen::IsoSearch,
        Screen::Confirm => Screen::DeviceSelect,
        Screen::Writing => Screen::Confirm,
        Screen::Done => Screen::DeviceSelect,
    }
}

/// A selection moved by `delta` in a list of `len` items, kept inside the
/// list. In an empty list nothing moves.
pub open spec fn moved(selected: nat, delta: int, len: nat) -> nat {
    if len == 0 {
        selected
    } else if selected + delta < 0 {
        0
    } else if selected + delta > len - 1 {
        (len - 1) as nat
    } else {
        (selected + delta) as nat
    }
}

/// A selection brought back inside a list that was just replaced.
pub open spec fn kept_in_range(selected: nat, len: nat) -> nat {
    if selected < len {
        selected
    } else if len == 0 {
        0
    } else {
        (len - 1) as nat
    }
}

/// A navigation key, handled alike on every screen.
pub open spec fn key_navigates(m: ModelView, code: KeyCode) -> Option<ModelView> {
    match code {
        KeyCode::Tab => Some(showing(m, next_of(m))),
        KeyCode::BackTab => Some(showing(m, prev_of(m))),
        _ => None,
    }
}

/// A key on the image search screen.
pub open spec fn key_on_iso_search(m: ModelView, key: KeyEvent) -> (ModelView, Option<CmdView>) {
    match key.code {
        KeyCode::Up => (
            ModelView { iso_selected: moved(m.iso_selected, -1, m.iso_results.len()), ..m },
            None,
        ),
        KeyCode::Down => (
            ModelView { iso_selected: moved(m.iso_selected, 1, m.iso_results.len()), ..m },
            None,
        ),
        KeyCode::Enter => (
            iso_confirmed(m),
            if m.iso_selected < m.iso_results.len() {
                Some(CmdView::RefreshDevices)
            } else {
                None
            },
        ),
        KeyCode::Backspace => {
            let query = if m.iso_query.len() > 0 {
                m.iso_query.drop_last()
            } else {
                m.iso_query
            };
            (
                ModelView { iso_query: query, iso_selected: 0, iso_searching: true, ..m },
                Some(CmdView::ScanIso { query }),
            )
        },
        KeyCode::Char(c) => {
            let query = m.iso_query.push(c);
            (
                ModelView { iso_query: query, iso_selected: 0, iso_searching: true, ..m },
                Some(CmdView::ScanIso { query }),
            )
        },
        _ => (m, None),
    }
}

/// The model after the selected image was confirmed: it is the chosen
/// image and device selection is shown. With nothing selected, nothing
/// changes.
pub open spec fn iso_confirmed(m: ModelView) -> ModelView {
    if m.iso_selected < m.iso_results.len() {
        showing(
            ModelView { iso_chosen: Some(m.iso_results[m.iso_selected as int].path), ..m },
            Screen::DeviceSelect,
        )
    } else {
        m
    }
}

/// The model after the selected device was confirmed: it is the chosen
/// device, the confirmation text is empty and the confirmation screen is
/// shown. With nothing selected, nothing changes.
pub open spec fn device_confirmed(m: ModelView) -> ModelView {
    if m.device_selected < m.devices.len() {
        showing(
            ModelView {
                device_chosen: Some(m.devices[m.device_selected as int].path),
                confirm_input: Seq::empty(),
                ..m
            },
            Screen::Confirm,
        )
    } else {
        m
    }
}

/// A key on the device selection screen.
pub open spec fn key_on_device_select(m: ModelView, key: KeyEvent) -> (
    ModelView,
    Option<CmdView>,
) {
    match key.code {
        KeyCode::Up => (
            ModelView { device_selected: moved(m.device_selected, -1, m.devices.len()), ..m },
            None,
        ),
        KeyCode::Down => (
            ModelView { device_selected: moved(m.device_selected, 1, m.devices.len()), ..m },
            None,
        ),
        KeyCode::Char(c) => if c == 'r' || c == 'R' {
            (ModelView { device_refreshing: true, ..m }, Some(CmdView::RefreshDevices))
        } else {
            (m, None)
        },
        KeyCode::Enter => (device_confirmed(m), None),
        _ => (m, None),
    }
}

/// The model as a write begins: the writing screen, counters at zero, the
/// start recorded.
pub open spec fn write_begun(m: ModelView) -> ModelView {
    ModelView {
        writing_written: 0,
        writing_total: 0,
        writing_started: true,
        writing_speed_bps: 0,
        ..showing(m, Screen::Writing)
    }
}

/// A key on the confirmation screen. Enter starts the write only when
/// [`may_confirm`] holds; letters are typed into the confirmation text in
/// upper case, up to three bytes of them.
pub open spec fn key_on_confirm(m: ModelView, key: KeyEvent) -> (ModelView, Option<CmdView>) {
    match key.code {
        KeyCode::Backspace => (
            ModelView {
                confirm_input: if m.confirm_input.len() > 0 {
                    m.confirm_input.drop_last()
                } else {
                    m.confirm_input
                },
                ..m
            },
            None,
        ),
        KeyCode::Enter => if may_confirm(m) {
            (
                write_begun(m),
                Some(CmdView::Write { iso: m.iso_chosen->0, device: m.device_chosen->0 }),
            )
        } else {
            (m, None)
        },
        KeyCode::Char(c) => if (c == 's' || c == 'S') && key.modifiers.control {
            (
                m,
                if m.is_root {
                    None
                } else {
                    Some(CmdView::ReexecWithSudo)
                },
            )
        } else if c == 'v' || c == 'V' {
            (ModelView { verify_after_write: !m.verify_after_write, ..m }, None)
        } else if is_ascii_letter(c) && byte_len(m.confirm_input) < 3 {
            (ModelView { confirm_input: m.confirm_input.push(ascii_upper(c)), ..m }, None)
        } else {
            (m, None)
        },
        _ => (m, None),
    }
}

/// What a pressed key does: the next model and, at most, one command.
pub open spec fn key_step(m: ModelView, key: KeyEvent) -> (ModelView, Option<CmdView>) {
    match key_navigates(m, key.code) {
        Some(n) => (n, None),
        None => match m.screen {
            Screen::IsoSearch => key_on_iso_search(m, key),
            Screen::DeviceSelect => key_on_device_select(m, key),
            Screen::Confirm => key_on_confirm(m, key),
            Screen::Writing => (m, None),
            Screen::Done => (m, None),
        },
    }
}

/// The commands of a step that has at most one.
pub open spec fn one_or_none(c: Option<CmdView>) -> Seq<CmdView> {
    match c {
        Some(c) => seq![c],
        None => Seq::empty(),
    }
}

/// What a timer tick does: it starts a scan or a refresh when the screen
/// shown has nothing to show and no such job is running.
pub open spec fn tick_step(m: ModelView) -> (ModelView, Seq<CmdView>) {
    if m.screen == Screen::IsoSearch && !m.iso_searching && m.iso_results.len() == 0 {
        (ModelView { iso_searching: true, ..m }, seq![CmdView::ScanIso { query: m.iso_query }])
    } else if m.screen == Screen::DeviceSelect && !m.device_refreshing && m.devices.len() == 0 {
        (ModelView { device_refreshing: true, ..m }, seq![CmdView::RefreshDevices])
    } else {
        (m, Seq::empty())
    }
}

/// What the end of a write does. A good write with verification on starts
/// the verification; any other outcome ends on the last screen.
pub open spec fn write_finished_step(m: ModelView, result: Result<(), Seq<char>>) -> (
    ModelView,
    Seq<CmdView>,
) {
    let m1 = ModelView { write_result: Some(result), ..m };
    if result is Ok && m.verify_after_write {
        let m2 = ModelView { verifying: true, verifying_total: m.writing_total, ..m1 };
        if m.has_both_selections() {
            (
                m2,
                seq![
                    CmdView::Verify {
                        iso: m.iso_chosen->0,
                        device: m.device_chosen->0,
                        size: m.writing_total,
                    },
                ],
            )
        } else {
            (m2, Seq::empty())
        }
    } else {
        (showing(m1, Screen::Done), Seq::empty())
    }
}

/// The state machine: the model after `msg` and the commands to run.
pub open spec fn reduce(m: ModelView, msg: MsgView) -> (ModelView, Seq<CmdView>) {
    match msg {
        MsgView::Tick => tick_step(m),
        MsgView::Quit => (m, Seq::empty()),
        MsgView::Back => if m.screen == Screen::IsoSearch {
            (m, Seq::empty())
        } else {
            (showing(m, back_of(m.screen)), Seq::empty())
        },
        MsgView::Key(key) => if key.kind == KeyEventKind::Press {
            (key_step(m, key).0, one_or_none(key_step(m, key).1))
        } else {
            (m, Seq::empty())
        },
        MsgView::NextScreen => (showing(m, next_of(m)), Seq::empty()),
        MsgView::PrevScreen => (showing(m, prev_of(m)), Seq::empty()),
        MsgView::IsoQueryChanged(q) => (
            ModelView { iso_query: q, iso_selected: 0, iso_searching: true, ..m },
            seq![CmdView::ScanIso { query: q }],
        ),
        MsgView::IsoSearchRequested => (
            ModelView { iso_searching: true, ..m },
            seq![CmdView::ScanIso { query: m.iso_query }],
        ),
        MsgView::IsoSearchFailed(_) => (ModelView { iso_searching: false, ..m }, Seq::empty()),
        MsgView::IsoResults(results) => (
            ModelView {
                iso_results: results,
                iso_selected: kept_in_range(m.iso_selected, results.len()),
                iso_searching: false,
                ..m
            },
            Seq::empty(),
        ),
        MsgView::IsoMoveSelection(delta) => (
            ModelView { iso_selected: moved(m.iso_selected, delta, m.iso_results.len()), ..m },
            Seq::empty(),
        ),
        MsgView::IsoConfirmSelect => if m.iso_selected < m.iso_results.len() {
            (
                ModelView { device_refreshing: true, ..iso_confirmed(m) },
                seq![CmdView::RefreshDevices],
            )
        } else {
            (m, Seq::empty())
        },
        MsgView::DevicesRefreshFailed(_) => (
            ModelView { device_refreshing: false, ..m },
            Seq::empty(),
        ),
        MsgView::DevicesRefreshed(devices) => (
            ModelView {
                devices,
                device_selected: kept_in_range(m.device_selected, devices.len()),
                device_refreshing: false,
                ..m
            },
            Seq::empty(),
        ),
        MsgView::DeviceMoveSelection(delta) => (
            ModelView { device_selected: moved(m.device_selected, delta, m.devices.len()), ..m },
            Seq::empty(),
        ),
        MsgView::DeviceConfirmSelect => (device_confirmed(m), Seq::empty()),
        MsgView::RefreshDevicesRequested => (
            ModelView { device_refreshing: true, ..m },
            seq![CmdView::RefreshDevices],
        ),
        MsgView::ElevateRequested => (
            m,
            if m.is_root {
                Seq::empty()
            } else {
                seq![CmdView::ReexecWithSudo]
            },
        ),
        MsgView::WriteStarted { total } => (
            ModelView {
                writing_total: total,
                writing_written: 0,
                writing_started: true,
                writing_speed_bps: 0,
                ..m
            },
            Seq::empty(),
        ),
        MsgView::WriteProgress { written, total, bps } => (
            ModelView {
                writing_written: written,
                writing_total: total,
                writing_speed_bps: bps,
                ..m
            },
            Seq::empty(),
        ),
        MsgView::WriteFinished(result) => write_finished_step(m, result),
        MsgView::VerifyStarted { total } => (
            ModelView {
                verifying: true,
                verifying_total: total,
                verifying_checked: 0,
                verifying_speed_bps: 0,
                ..m
            },
            Seq::empty(),
        ),
        MsgView::VerifyProgress { checked, total, bps } => (
            ModelView {
                verifying_checked: checked,
                verifying_total: total,
                verifying_speed_bps: bps,
                ..m
            },
            Seq::empty(),
        ),
        MsgView::VerifyFinished(result) => (
            showing(ModelView { verify_result: Some(result), verifying: false, ..m }, Screen::Done),
            Seq::empty(),
        ),
    }
}

/// Whether `msg` makes the reducer read the clock: the start of a write,
/// announced by its job or begun by the confirming key.
pub open spec fn reads_clock(m: ModelView, msg: MsgView) -> bool {
    match msg {
        MsgView::WriteStarted { .. } => true,
        MsgView::Key(key) => key.kind == KeyEventKind::Press && key_reads_clock(m, key),
        _ => false,
    }
}

/// Whether a pressed key begins a write.
pub open spec fn key_reads_clock(m: ModelView, key: KeyEvent) -> bool {
    m.screen == Screen::Confirm && key.code == KeyCode::Enter && may_confirm(m)
}

/// The panel that takes input while `screen` is shown.
pub fn sync_active_panel(screen: &Screen) -> (r: ActivePanel)
    ensures
        r == panel_for(*screen),
{
    match screen {
        Screen::IsoSearch => ActivePanel::IsoList,
        Screen::DeviceSelect => ActivePanel::DeviceList,
        Screen::Confirm => ActivePanel::ConfirmInput,
        Screen::Writing => ActivePanel::ConfirmInput,
        Screen::Done => ActivePanel::ConfirmInput,
    }
}

/// Whether a write may start from this model.
pub fn can_confirm(model: &Model) -> (r: bool)
    ensures
        r == may_confirm(model@),
{
    model.has_both_selections() && model.is_confirmation_valid()
}

/// The screen that "next" leads to.
pub fn next_screen(model: &Model) -> (r: Screen)
    ensures
        r == next_of(model@),
{
    match model.screen {
        Screen::IsoSearch => Screen::DeviceSelect,
        Screen::DeviceSelect => {
            if model.has_both_selections() {
                Screen::Confirm
            } else {
                Screen::IsoSearch
            }
        },
        Screen::Confirm => Screen::IsoSearch,
        Screen::Writing => Screen::Writing,
        Screen::Done => Screen::Done,
    }
}

/// The screen that "previous" leads to.
pub fn prev_screen(model: &Model) -> (r: Screen)
    ensures
        r == prev_of(model@),
{
    match model.screen {
        Screen::IsoSearch => {
            if can_confirm(model) {
                Screen::Confirm
            } else {
                Screen::DeviceSelect
            }
        },
        Screen::DeviceSelect => Screen::IsoSearch,
        Screen::Confirm => Screen::DeviceSelect,
        Screen::Writing => Screen::Confirm,
        Screen::Done => Screen::DeviceSelect,
    }
}

/// A selection moved by `delta` and kept inside a list of `len` items.
fn move_selection(selected: usize, delta: i32, len: usize) -> (r: usize)
    ensures
        r == moved(selected as nat, delta as int, len as nat),
{
    if len == 0 {
        return selected;
    }
    let last: usize = len - 1;
    let target: i128 = selected as i128 + delta as i128;
    if target < 0 {
        0
    } else if target > last as i128 {
        last
    } else {
        target as usize
    }
}

/// A selection brought back inside a list of `len` items.
fn keep_in_range(selected: usize, len: usize) -> (r: usize)
    ensures
        r == kept_in_range(selected as nat, len as nat),
{
    if selected < len {
        selected
    } else if len == 0 {
        0
    } else {
        len - 1
    }
}

/// Shows `screen` and moves the focus with it.
fn show(model: &mut Model, screen: Screen)
    ensures
        final(model)@ == showing(old(model)@, screen),
        final(model).writing_started == old(model).writing_started,
        final(model).iso_debounce_until == old(model).iso_debounce_until,
{
    model.screen = screen;
    model.active_panel = sync_active_panel(&screen);
}

/// Makes the selected image the chosen one and shows device selection.
/// Returns whether there was a selected image.
fn confirm_iso(model: &mut Model) -> (done: bool)
    ensures
        final(model)@ == iso_confirmed(old(model)@),
        done == (old(model)@.iso_selected < old(model)@.iso_results.len()),
        final(model).writing_started == old(model).writing_started,
        final(model).iso_debounce_until == old(model).iso_debounce_until,
{
    if model.iso_selected < model.iso_results.len() {
        let path = model.iso_results[model.iso_selected].path.clone();
        model.iso_chosen = Some(path);
        show(model, Screen::DeviceSelect);
        true
    } else {
        false
    }
}

/// Makes the selected device the chosen one, empties the confirmation
/// text and shows the confirmation screen.
fn confirm_device(model: &mut Model)
    ensures
        final(model)@ == device_confirmed(old(model)@),
        final(model).writing_started == old(model).writing_started,
        final(model).iso_debounce_until == old(model).iso_debounce_until,
{
    if model.device_selected < model.devices.len() {
        let path = model.devices[model.device_selected].path.clone();
        model.device_chosen = Some(path);
        model.confirm_input = String::new();
        show(model, Screen::Confirm);
    }
}

/// A key on the image search screen.
fn handle_key_iso_search(model: &mut Model, key: KeyEvent) -> (r: Option<Cmd>)
    ensures
        final(model)@ == key_on_iso_search(old(model)@, key).0,
        r.deep_view() == key_on_iso_search(old(model)@, key).1,
        final(model).writing_started == old(model).writing_started,
        final(model).iso_debounce_until == old(model).iso_debounce_until,
{
    match key.code {
        KeyCode::Up => {
            model.iso_selected = move_selection(model.iso_selected, -1, model.iso_results.len());
            None
        },
        KeyCode::Down => {
            model.iso_selected = move_selection(model.iso_selected, 1, model.iso_results.len());
            None
        },
        KeyCode::Enter => {
            if confirm_iso(model) {
                Some(Cmd::RefreshDevices)
            } else {
                None
            }
        },
        KeyCode::Backspace => {
            crate::text::pop_char(&mut model.iso_query);
            model.iso_selected = 0;
            model.iso_searching = true;
            Some(Cmd::ScanIso { query: model.iso_query.clone() })
        },
        KeyCode::Char(c) => {
            crate::text::push_char(&mut model.iso_query, c);
            model.iso_selected = 0;
            model.iso_searching = true;
            Some(Cmd::ScanIso { query: model.iso_query.clone() })
        },
        _ => None,
    }
}

/// A key on the device selection screen.
fn handle_key_device_select(model: &mut Model, key: KeyEvent) -> (r: Option<Cmd>)
    ensures
        final(model)@ == key_on_device_select(old(model)@, key).0,
        r.deep_view() == key_on_device_select(old(model)@, key).1,
        final(model).writing_started == old(model).writing_started,
        final(model).iso_debounce_until == old(model).iso_debounce_until,
{
    match key.code {
        KeyCode::Up => {
            model.device_selected = move_selection(model.device_selected, -1, model.devices.len());
            None
        },
        KeyCode::Down => {
            model.device_selected = move_selection(model.device_selected, 1, model.devices.len());
            None
        },
        KeyCode::Char(c) => {
            if c == 'r' || c == 'R' {
                model.device_refreshing = true;
                Some(Cmd::RefreshDevices)
            } else {
                None
            }
        },
        KeyCode::Enter => {
            confirm_device(model);
            None
        },
        _ => None,
    }
}

/// A key on the confirmation screen.
fn handle_key_confirm(model: &mut Model, key: KeyEvent) -> (r: Option<Cmd>)
    ensures
        final(model)@ == key_on_confirm(old(model)@, key).0,
        r.deep_view() == key_on_confirm(old(model)@, key).1,
        !(key.code == KeyCode::Enter && may_confirm(old(model)@)) ==> final(model).writing_started
            == old(model).writing_started,
        final(model).iso_debounce_until == old(model).iso_debounce_until,
{
    match key.code {
        KeyCode::Backspace => {
            crate::text::pop_char(&mut model.confirm_input);
            None
        },
        KeyCode::Enter => {
            if can_confirm(model) {
                show(model, Screen::Writing);
                model.writing_written = 0;
                model.writing_total = 0;
                model.writing_started = Some(crate::clock::now());
                model.writing_speed_bps = 0;
                match (&model.iso_chosen, &model.device_chosen) {
                    (Some(iso), Some(dev)) => Some(
                        Cmd::Write { iso: iso.clone(), device: dev.clone() },
                    ),
                    _ => None,
                }
            } else {
                None
            }
        },
        KeyCode::Char(c) => {
            if (c == 's' || c == 'S') && key.modifiers.control {
                if !model.is_root {
                    Some(Cmd::ReexecWithSudo)
                } else {
                    None
                }
            } else if c == 'v' || c == 'V' {
                model.verify_after_write = !model.verify_after_write;
                None
            } else {
                if crate::text::char_is_ascii_letter(c) && crate::text::byte_length(
                    model.confirm_input.as_str(),
                ) < 3 {
                    crate::text::push_char(
                        &mut model.confirm_input,
                        crate::text::char_to_ascii_upper(c),
                    );
                }
                None
            }
        },
        _ => None,
    }
}

/// Handles one pressed key: changes the model and asks for at most one
/// command.
pub fn handle_key(model: &mut Model, key: KeyEvent) -> (r: Option<Cmd>)
    ensures
        final(model)@ == key_step(old(model)@, key).0,
        r.deep_view() == key_step(old(model)@, key).1,
        !key_reads_clock(old(model)@, key) ==> final(model).writing_started == old(
            model,
        ).writing_started,
        final(model).iso_debounce_until == old(model).iso_debounce_until,
{
    match key.code {
        KeyCode::Tab => {
            let screen = next_screen(model);
            show(model, screen);
            None
        },
        KeyCode::BackTab => {
            let screen = prev_screen(model);
            show(model, screen);
            None
        },
        _ => match model.screen {
            Screen::IsoSearch => handle_key_iso_search(model, key),
            Screen::DeviceSelect => handle_key_device_select(model, key),
            Screen::Confirm => handle_key_confirm(model, key),
            Screen::Writing => None,
            Screen::Done => None,
        },
    }
}

/// The intent behind a key that means the same on every screen, if it
/// has one: escape goes back, `q` and control-C quit, tab and back-tab
/// move between screens.
pub open spec fn global_intent(key: KeyEvent) -> Option<MsgView> {
    match key.code {
        KeyCode::Esc => Some(MsgView::Back),
        KeyCode::Char(c) => if c == 'q' {
            Some(MsgView::Quit)
        } else if (c == 'c' || c == 'C') && key.modifiers.only_control() {
            Some(MsgView::Quit)
        } else {
            None
        },
        KeyCode::Tab => Some(MsgView::NextScreen),
        KeyCode::BackTab => Some(MsgView::PrevScreen),
        _ => None,
    }
}

/// Maps a key to the intent it has on every screen, if any.
pub fn map_key_to_msg(key: KeyEvent) -> (r: Option<Msg>)
    ensures
        r is Some == global_intent(key) is Some,
        r is Some ==> r->0@ == global_intent(key)->0,
{
    match key.code {
        KeyCode::Esc => Some(Msg::Back),
        KeyCode::Char(c) => {
            if c == 'q' {
                Some(Msg::Quit)
            } else if (c == 'c' || c == 'C') && key.modifiers.is_only_control() {
                Some(Msg::Quit)
            } else {
                None
            }
        },
        KeyCode::Tab => Some(Msg::NextScreen),
        KeyCode::BackTab => Some(Msg::PrevScreen),
        _ => None,
    }
}

/// The commands of a step that asked for at most one.
fn commands_of(cmd: Option<Cmd>) -> (r: Vec<Cmd>)
    ensures
        r.deep_view() == one_or_none(cmd.deep_view()),
{
    match cmd {
        Some(c) => {
            let r = vec![c];
            assert(r.deep_view() =~= seq![c@]);
            r
        },
        None => {
            let r: Vec<Cmd> = Vec::new();
            assert(r.deep_view() =~= Seq::empty());
            r
        },
    }
}

/// No command.
fn no_commands() -> (r: Vec<Cmd>)
    ensures
        r.deep_view() == Seq::<CmdView>::empty(),
{
    let r: Vec<Cmd> = Vec::new();
    assert(r.deep_view() =~= Seq::empty());
    r
}

/// The one command `c`.
fn one_command(c: Cmd) -> (r: Vec<Cmd>)
    ensures
        r.deep_view() == seq![c@],
{
    let r = vec![c];
    assert(r.deep_view() =~= seq![c@]);
    r
}

/// From the confirmation screen the writing screen is reached only with
/// the confirmation text exactly `YES` and both an image and a device
/// chosen, whatever the message.
pub proof fn lemma_writing_needs_confirmation(m: ModelView, msg: MsgView)
    requires
        m.screen == Screen::Confirm,
        reduce(m, msg).0.screen == Screen::Writing,
    ensures
        m.confirm_input == acceptance_token(),
        m.iso_chosen is Some,
        m.device_chosen is Some,
{
}

/// A write command is asked for only from the confirmation screen, with
/// the confirmation text exactly `YES` and both selections made, and it
/// names the chosen image and device.
pub proof fn lemma_write_command_needs_confirmation(m: ModelView, msg: MsgView, i: int)
    requires
        0 <= i < reduce(m, msg).1.len(),
        reduce(m, msg).1[i] is Write,
    ensures
        m.screen == Screen::Confirm,
        may_confirm(m),
        reduce(m, msg).1[i] == (CmdView::Write {
            iso: m.iso_chosen->0,
            device: m.device_chosen->0,
        }),
        reduce(m, msg).0.screen == Screen::Writing,
{
}

/// Confirmation text that differs from `YES` in case does not confirm.
pub proof fn lemma_token_is_case_sensitive(m: ModelView)
    requires
        m.confirm_input == seq!['y', 'e', 's'] || m.confirm_input == seq!['Y', 'e', 's'],
    ensures
        !may_confirm(m),
{
    assert(m.confirm_input[1] == 'e');
    assert(acceptance_token()[1] == 'E');
}

/// Confirming the selected image leads from the image search to device
/// selection whenever there are results and the selection lies among
/// them, and the image is then the chosen one.
pub proof fn lemma_confirming_image_advances(m: ModelView)
    requires
        m.screen == Screen::IsoSearch,
        m.iso_results.len() > 0,
        m.selections_in_range(),
    ensures
        reduce(m, MsgView::IsoConfirmSelect).0.screen == Screen::DeviceSelect,
        reduce(m, MsgView::IsoConfirmSelect).0.iso_chosen == Some(
            m.iso_results[m.iso_selected as int].path,
        ),
        reduce(m, MsgView::IsoConfirmSelect).1 == seq![CmdView::RefreshDevices],
{
}

/// The end of a write leads to the last screen, unless the write went
/// well and is to be verified; the end of a verification always does.
/// The outcome is kept as it came.
pub proof fn lemma_outcomes_end_on_done(m: ModelView, result: Result<(), Seq<char>>)
    ensures
        reduce(m, MsgView::WriteFinished(result)).0.write_result == Some(result),
        !(result is Ok && m.verify_after_write) ==> reduce(
            m,
            MsgView::WriteFinished(result),
        ).0.screen == Screen::Done,
        reduce(m, MsgView::VerifyFinished(result)).0.verify_result == Some(result),
        reduce(m, MsgView::VerifyFinished(result)).0.screen == Screen::Done,
{
}

/// "Back" from the last screen leads to device selection, whatever else
/// the model holds.
pub proof fn lemma_back_from_done(m: ModelView)
    requires
        m.screen == Screen::Done,
    ensures
        reduce(m, MsgView::Back).0.screen == Screen::DeviceSelect,
        reduce(m, MsgView::Back).1.len() == 0,
{
}

/// A moved selection stays inside a list that is not empty.
proof fn lemma_moved_in_range(selected: nat, delta: int, len: nat)
    requires
        len > 0,
    ensures
        moved(selected, delta, len) < len,
{
}

/// A pressed key keeps the selections inside their lists.
proof fn lemma_key_keeps_selections(m: ModelView, key: KeyEvent)
    requires
        m.selections_in_range(),
    ensures
        key_step(m, key).0.selections_in_range(),
{
    if key_navigates(m, key.code) is None {
        match m.screen {
            Screen::IsoSearch => {
                if m.iso_results.len() > 0 {
                    lemma_moved_in_range(m.iso_selected, -1, m.iso_results.len());
                    lemma_moved_in_range(m.iso_selected, 1, m.iso_results.len());
                }
                assert(key_on_iso_search(m, key).0.selections_in_range());
            },
            Screen::DeviceSelect => {
                if m.devices.len() > 0 {
                    lemma_moved_in_range(m.device_selected, -1, m.devices.len());
                    lemma_moved_in_range(m.device_selected, 1, m.devices.len());
                }
                assert(key_on_device_select(m, key).0.selections_in_range());
            },
            Screen::Confirm => {
                assert(key_on_confirm(m, key).0.selections_in_range());
            },
            Screen::Writing => {},
            Screen::Done => {},
        }
    }
}

/// The reducer keeps the selections inside their lists.
pub proof fn lemma_selections_stay_in_range(m: ModelView, msg: MsgView)
    requires
        m.selections_in_range(),
    ensures
        reduce(m, msg).0.selections_in_range(),
{
    match msg {
        MsgView::Key(key) => {
            lemma_key_keeps_selections(m, key);
        },
        MsgView::IsoMoveSelection(delta) => {
            if m.iso_results.len() > 0 {
                lemma_moved_in_range(m.iso_selected, delta, m.iso_results.len());
            }
        },
        MsgView::DeviceMoveSelection(delta) => {
            if m.devices.len() > 0 {
                lemma_moved_in_range(m.device_selected, delta, m.devices.len());
            }
        },
        MsgView::Tick => {
            assert(tick_step(m).0.selections_in_range());
        },
        MsgView::WriteFinished(r) => {
            assert(write_finished_step(m, r).0.selections_in_range());
        },
        _ => {},
    }
}

/// A step asks for at most one command.
pub proof fn lemma_at_most_one_command(m: ModelView, msg: MsgView)
    ensures
        reduce(m, msg).1.len() <= 1,
{
}

/// Progress and start messages whose counters do not pass their totals
/// leave a model whose counters do not pass theirs, as long as no
/// verification is started from a write that just ended.
pub proof fn lemma_progress_stays_consistent(m: ModelView, msg: MsgView)
    requires
        m.progress_consistent(),
        msg matches MsgView::WriteProgress { written, total, .. } ==> written <= total,
        msg matches MsgView::VerifyProgress { checked, total, .. } ==> checked <= total,
        msg matches MsgView::WriteFinished(r) ==> !(r is Ok && m.verify_after_write)
            || m.verifying_checked <= m.writing_total,
    ensures
        reduce(m, msg).0.progress_consistent(),
{
}

/// `after` is what the state machine makes of `before` and `msg`.
pub open spec fn is_step(before: Model, msg: MsgView, after: (Model, Vec<Cmd>)) -> bool {
    &&& after.0@ == reduce(before@, msg).0
    &&& after.1.deep_view() == reduce(before@, msg).1
    &&& !reads_clock(before@, msg) ==> after.0.writing_started == before.writing_started
    &&& after.0.iso_debounce_until == before.iso_debounce_until
}

/// The step for a timer tick.
fn on_tick(model: Model) -> (r: (Model, Vec<Cmd>))
    ensures
        is_step(model, MsgView::Tick, r),
{
    let mut model = model;
    if model.screen == Screen::IsoSearch && !model.iso_searching && model.iso_results.len() == 0 {
        model.iso_searching = true;
        let query = model.iso_query.clone();
        return (model, one_command(Cmd::ScanIso { query }));
    }
    if model.screen == Screen::DeviceSelect && !model.device_refreshing && model.devices.len()
        == 0 {
        model.device_refreshing = true;
        return (model, one_command(Cmd::RefreshDevices));
    }
    (model, no_commands())
}

/// The step for the wish to go back.
fn on_back(model: Model) -> (r: (Model, Vec<Cmd>))
    ensures
        is_step(model, MsgView::Back, r),
{
    let mut model = model;
    match model.screen {
        Screen::IsoSearch => {},
        Screen::DeviceSelect => show(&mut model, Screen::IsoSearch),
        Screen::Confirm => show(&mut model, Screen::DeviceSelect),
        Screen::Writing => show(&mut model, Screen::Confirm),
        Screen::Done => show(&mut model, Screen::DeviceSelect),
    }
    (model, no_commands())
}

/// The step for a key.
fn on_key(model: Model, key: KeyEvent) -> (r: (Model, Vec<Cmd>))
    ensures
        is_step(model, MsgView::Key(key), r),
{
    let mut model = model;
    if key.kind == KeyEventKind::Press {
        let cmd = handle_key(&mut model, key);
        (model, commands_of(cmd))
    } else {
        (model, no_commands())
    }
}

/// The step for the wish for the next screen.
fn on_next_screen(model: Model) -> (r: (Model, Vec<Cmd>))
    ensures
        is_step(model, MsgView::NextScreen, r),
{
    let mut model = model;
    let screen = next_screen(&model);
    show(&mut model, screen);
    (model, no_commands())
}

/// The step for the wish for the previous screen.
fn on_prev_screen(model: Model) -> (r: (Model, Vec<Cmd>))
    ensures
        is_step(model, MsgView::PrevScreen, r),
{
    let mut model = model;
    let screen = prev_screen(&model);
    show(&mut model, screen);
    (model, no_commands())
}

/// The step for a changed query.
fn on_iso_query_changed(model: Model, q: String) -> (r: (Model, Vec<Cmd>))
    ensures
        is_step(model, MsgView::IsoQueryChanged(q@), r),
{
    let mut model = model;
    model.iso_query = q;
    model.iso_selected = 0;
    model.iso_searching = true;
    let query = model.iso_query.clone();
    (model, one_command(Cmd::ScanIso { query }))
}

/// The step for the wish for a scan.
fn on_iso_search_requested(model: Model) -> (r: (Model, Vec<Cmd>))
    ensures
        is_step(model, MsgView::IsoSearchRequested, r),
{
    let mut model = model;
    model.iso_searching = true;
    let query = model.iso_query.clone();
    (model, one_command(Cmd::ScanIso { query }))
}

/// The step for a failed scan.
fn on_iso_search_failed(model: Model, err: String) -> (r: (Model, Vec<Cmd>))
    ensures
        is_step(model, MsgView::IsoSearchFailed(err@), r),
{
    let mut model = model;
    model.iso_searching = false;
    (model, no_commands())
}

/// The step for the results of a scan.
fn on_iso_results(model: Model, results: Vec<crate::app::state::IsoMeta>) -> (r: (
    Model,
    Vec<Cmd>,
))
    ensures
        is_step(model, MsgView::IsoResults(results.deep_view()), r),
{
    let mut model = model;
    model.iso_results = results;
    model.iso_selected = keep_in_range(model.iso_selected, model.iso_results.len());
    model.iso_searching = false;
    (model, no_commands())
}

/// The step for a move of the image selection.
fn on_iso_move_selection(model: Model, delta: i32) -> (r: (Model, Vec<Cmd>))
    ensures
        is_step(model, MsgView::IsoMoveSelection(delta as int), r),
{
    let mut model = model;
    model.iso_selected = move_selection(model.iso_selected, delta, model.iso_results.len());
    (model, no_commands())
}

/// The step for the confirmation of the selected image.
fn on_iso_confirm_select(model: Model) -> (r: (Model, Vec<Cmd>))
    ensures
        is_step(model, MsgView::IsoConfirmSelect, r),
{
    let mut model = model;
    if confirm_iso(&mut model) {
        model.device_refreshing = true;
        (model, one_command(Cmd::RefreshDevices))
    } else {
        (model, no_commands())
    }
}

/// The step for a failed refresh.
fn on_devices_refresh_failed(model: Model, err: String) -> (r: (Model, Vec<Cmd>))
    ensures
        is_step(model, MsgView::DevicesRefreshFailed(err@), r),
{
    let mut model = model;
    model.device_refreshing = false;
    (model, no_commands())
}

/// The step for the devices of a refresh.
fn on_devices_refreshed(model: Model, devs: Vec<crate::app::state::Device>) -> (r: (
    Model,
    Vec<Cmd>,
))
    ensures
        is_step(model, MsgView::DevicesRefreshed(devs.deep_view()), r),
{
    let mut model = model;
    model.devices = devs;
    model.device_selected = keep_in_range(model.device_selected, model.devices.len());
    model.device_refreshing = false;
    (model, no_commands())
}

/// The step for a move of the device selection.
fn on_device_move_selection(model: Model, delta: i32) -> (r: (Model, Vec<Cmd>))
    ensures
        is_step(model, MsgView::DeviceMoveSelection(delta as int), r),
{
    let mut model = model;
    model.device_selected = move_selection(model.device_selected, delta, model.devices.len());
    (model, no_commands())
}

/// The step for the confirmation of the selected device.
fn on_device_confirm_select(model: Model) -> (r: (Model, Vec<Cmd>))
    ensures
        is_step(model, MsgView::DeviceConfirmSelect, r),
{
    let mut model = model;
    confirm_device(&mut model);
    (model, no_commands())
}

/// The step for the wish for a refresh.
fn on_refresh_devices_requested(model: Model) -> (r: (Model, Vec<Cmd>))
    ensures
        is_step(model, MsgView::RefreshDevicesRequested, r),
{
    let mut model = model;
    model.device_refreshing = true;
    (model, one_command(Cmd::RefreshDevices))
}

/// The step for the wish for privilege.
fn on_elevate_requested(model: Model) -> (r: (Model, Vec<Cmd>))
    ensures
        is_step(model, MsgView::ElevateRequested, r),
{
    if !model.is_root {
        (model, one_command(Cmd::ReexecWithSudo))
    } else {
        (model, no_commands())
    }
}

/// The step for the start of a write.
fn on_write_started(model: Model, total: u64) -> (r: (Model, Vec<Cmd>))
    ensures
        is_step(model, MsgView::WriteStarted { total: total as nat }, r),
{
    let mut model = model;
    model.writing_total = total;
    model.writing_written = 0;
    model.writing_started = Some(crate::clock::now());
    model.writing_speed_bps = 0;
    (model, no_commands())
}

/// The step for the progress of a write.
fn on_write_progress(model: Model, written: u64, total: u64, bps: u64) -> (r: (Model, Vec<Cmd>))
    ensures
        is_step(
            model,
            MsgView::WriteProgress { written: written as nat, total: total as nat, bps: bps as nat },
            r,
        ),
{
    let mut model = model;
    model.writing_written = written;
    model.writing_total = total;
    model.writing_speed_bps = bps;
    (model, no_commands())
}

/// The step for the end of a write.
fn on_write_finished(model: Model, result: Result<(), String>) -> (r: (Model, Vec<Cmd>))
    ensures
        is_step(model, MsgView::WriteFinished(crate::app::msg::outcome_view(result)), r),
{
    let mut model = model;
    let good = result.is_ok();
    model.write_result = Some(result);
    if good && model.verify_after_write {
        let total = model.writing_total;
        model.verifying = true;
        model.verifying_total = total;
        let cmd = match (&model.iso_chosen, &model.device_chosen) {
            (Some(iso), Some(dev)) => Some(
                Cmd::Verify { iso: iso.clone(), device: dev.clone(), size: total },
            ),
            _ => None,
        };
        (model, commands_of(cmd))
    } else {
        show(&mut model, Screen::Done);
        (model, no_commands())
    }
}

/// The step for the start of a verification.
fn on_verify_started(model: Model, total: u64) -> (r: (Model, Vec<Cmd>))
    ensures
        is_step(model, MsgView::VerifyStarted { total: total as nat }, r),
{
    let mut model = model;
    model.verifying = true;
    model.verifying_total = total;
    model.verifying_checked = 0;
    model.verifying_speed_bps = 0;
    (model, no_commands())
}

/// The step for the progress of a verification.
fn on_verify_progress(model: Model, checked: u64, total: u64, bps: u64) -> (r: (
    Model,
    Vec<Cmd>,
))
    ensures
        is_step(
            model,
            MsgView::VerifyProgress { checked: checked as nat, total: total as nat, bps: bps as nat },
            r,
        ),
{
    let mut model = model;
    model.verifying_checked = checked;
    model.verifying_total = total;
    model.verifying_speed_bps = bps;
    (model, no_commands())
}

/// The step for the end of a verification.
fn on_verify_finished(model: Model, result: Result<(), String>) -> (r: (Model, Vec<Cmd>))
    ensures
        is_step(model, MsgView::VerifyFinished(crate::app::msg::outcome_view(result)), r),
{
    let mut model = model;
    model.verify_result = Some(result);
    model.verifying = false;
    show(&mut model, Screen::Done);
    (model, no_commands())
}

/// The reducer. It returns the model and the commands that [`reduce`]
/// gives for this model and message, and nothing else changes: the
/// debounce deadline is kept, and the recorded start of the write is kept
/// unless the message begins a write, when it becomes the present reading
/// of the clock.
pub fn update(model: Model, msg: Msg) -> (r: (Model, Vec<Cmd>))
    ensures
        r.0@ == reduce(model@, msg@).0,
        r.1.deep_view() == reduce(model@, msg@).1,
        !reads_clock(model@, msg@) ==> r.0.writing_started == model.writing_started,
        r.0.iso_debounce_until == model.iso_debounce_until,
{
    match msg {
        Msg::Tick => on_tick(model),
        Msg::Quit => (model, no_commands()),
        Msg::Back => on_back(model),
        Msg::Key(key) => on_key(model, key),
        Msg::NextScreen => on_next_screen(model),
        Msg::PrevScreen => on_prev_screen(model),
        Msg::IsoQueryChanged(q) => on_iso_query_changed(model, q),
        Msg::IsoSearchRequested => on_iso_search_requested(model),
        Msg::IsoSearchFailed(err) => on_iso_search_failed(model, err),
        Msg::IsoResults(results) => on_iso_results(model, results),
        Msg::IsoMoveSelection(delta) => on_iso_move_selection(model, delta),
        Msg::IsoConfirmSelect => on_iso_confirm_select(model),
        Msg::DevicesRefreshFailed(err) => on_devices_refresh_failed(model, err),
        Msg::DevicesRefreshed(devs) => on_devices_refreshed(model, devs),
        Msg::DeviceMoveSelection(delta) => on_device_move_selection(model, delta),
        Msg::DeviceConfirmSelect => on_device_confirm_select(model),
        Msg::RefreshDevicesRequested => on_refresh_devices_requested(model),
        Msg::ElevateRequested => on_elevate_requested(model),
        Msg::WriteStarted { total } => on_write_started(model, total),
        Msg::WriteProgress { written, total, bps } => on_write_progress(
            model,
            written,
            total,
            bps,
        ),
        Msg::WriteFinished(result) => on_write_finished(model, result),
        Msg::VerifyStarted { total } => on_verify_started(model, total),
        Msg::VerifyProgress { checked, total, bps } => on_verify_progress(
            model,
            checked,
            total,
            bps,
        ),
        Msg::VerifyFinished(result) => on_verify_finished(model, result),
    }
}

} // verus!
