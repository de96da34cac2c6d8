use ferric::app::msg::{Cmd, KeyCode, KeyEvent, KeyEventKind, KeyModifiers, Msg};
use ferric::app::state::{Device, IsoMeta, Model, Screen};
use ferric::app::update::update;
use ferric::domain::{ByteSize, DevicePath, IsoPath};

fn make_test_iso(path: &str, size: u64) -> IsoMeta {
    IsoMeta {
        path: IsoPath::from(String::from(path)),
        size: ByteSize::from(size),
        modified: None,
    }
}

fn make_test_device(name: &str, path: &str) -> Device {
    Device {
        name: name.to_string(),
        path: DevicePath::from(String::from(path)),
        size: ByteSize::from(16_000_000_000),
        model: Some("Test USB Drive".to_string()),
        serial: None,
        tran: Some("usb".to_string()),
        removable: true,
        hotplug: true,
        ro: false,
        mounted: false,
        labels: vec![],
    }
}

fn press(code: KeyCode) -> Msg {
    Msg::Key(KeyEvent {
        code,
        modifiers: KeyModifiers::empty(),
        kind: KeyEventKind::Press,
    })
}

#[test]
fn test_iso_selection() {
    let mut model = Model::default();
    model.screen = Screen::IsoSearch;
    model.iso_results = vec![
        make_test_iso("/home/user/ubuntu.iso", 3_000_000_000),
        make_test_iso("/home/user/debian.iso", 4_000_000_000),
    ];
    model.iso_selected = 1;

    let (new_model, cmds) = update(model, Msg::IsoConfirmSelect);

    assert_eq!(
        new_model.iso_chosen,
        Some(IsoPath::from(String::from("/home/user/debian.iso")))
    );
    assert!(matches!(new_model.screen, Screen::DeviceSelect));
    assert!(new_model.device_refreshing);

    assert_eq!(cmds.len(), 1);
    assert!(matches!(cmds[0], Cmd::RefreshDevices));
}

#[test]
fn test_device_selection() {
    let mut model = Model::default();
    model.screen = Screen::DeviceSelect;
    model.iso_chosen = Some(IsoPath::from(String::from("/home/user/test.iso")));
    model.devices = vec![
        make_test_device("sdb", "/dev/sdb"),
        make_test_device("sdc", "/dev/sdc"),
    ];
    model.device_selected = 0;

    let (new_model, cmds) = update(model, Msg::DeviceConfirmSelect);

    assert_eq!(
        new_model.device_chosen,
        Some(DevicePath::from(String::from("/dev/sdb")))
    );
    assert!(matches!(new_model.screen, Screen::Confirm));
    assert_eq!(new_model.confirm_input, "");

    assert_eq!(cmds.len(), 0);
}

#[test]
fn test_iso_query_change() {
    let mut model = Model::default();
    model.screen = Screen::IsoSearch;
    model.iso_results = vec![
        make_test_iso("/home/user/test1.iso", 1_000_000),
        make_test_iso("/home/user/test2.iso", 2_000_000),
    ];
    model.iso_selected = 1;

    let (new_model, cmds) = update(model, Msg::IsoQueryChanged("ubuntu".to_string()));

    assert_eq!(new_model.iso_query, "ubuntu");
    assert_eq!(new_model.iso_selected, 0);
    assert!(new_model.iso_searching);

    assert_eq!(cmds.len(), 1);
    match &cmds[0] {
        Cmd::ScanIso { query } => assert_eq!(query, "ubuntu"),
        _ => panic!("Expected ScanIso command"),
    }
}

#[test]
fn test_write_lifecycle() {
    let mut model = Model::default();
    model.screen = Screen::Writing;

    let (model, cmds) = update(
        model,
        Msg::WriteStarted {
            total: 5_000_000_000,
        },
    );
    assert_eq!(model.writing_total, 5_000_000_000);
    assert_eq!(model.writing_written, 0);
    assert!(model.writing_started.is_some());
    assert_eq!(cmds.len(), 0);

    let (model, cmds) = update(
        model,
        Msg::WriteProgress {
            written: 1_000_000_000,
            total: 5_000_000_000,
            bps: 50_000_000,
        },
    );
    assert_eq!(model.writing_written, 1_000_000_000);
    assert_eq!(model.writing_speed_bps, 50_000_000);
    assert_eq!(cmds.len(), 0);

    let (model, cmds) = update(model, Msg::WriteFinished(Ok(())));
    assert_eq!(model.write_result, Some(Ok(())));
    assert!(matches!(model.screen, Screen::Done));
    assert_eq!(cmds.len(), 0);
}

#[test]
fn test_write_lifecycle_with_verify() {
    let mut model = Model::default();
    model.screen = Screen::Writing;
    model.verify_after_write = true;
    model.iso_chosen = Some(IsoPath::from(String::from("/test.iso")));
    model.device_chosen = Some(DevicePath::from(String::from("/dev/sdb")));

    let (model, _) = update(model, Msg::WriteStarted { total: 1_000_000 });

    let (model, cmds) = update(model, Msg::WriteFinished(Ok(())));

    assert_eq!(model.write_result, Some(Ok(())));
    assert!(model.verifying);
    assert_eq!(model.verifying_total, 1_000_000);

    assert_eq!(cmds.len(), 1);
    match &cmds[0] {
        Cmd::Verify { iso, device, size } => {
            assert_eq!(iso, &IsoPath::from(String::from("/test.iso")));
            assert_eq!(device, &DevicePath::from(String::from("/dev/sdb")));
            assert_eq!(*size, 1_000_000);
        }
        _ => panic!("Expected Verify command"),
    }
}

#[test]
fn test_iso_move_selection() {
    let mut model = Model::default();
    model.iso_results = vec![
        make_test_iso("/home/user/test1.iso", 1_000_000),
        make_test_iso("/home/user/test2.iso", 2_000_000),
        make_test_iso("/home/user/test3.iso", 3_000_000),
    ];
    model.iso_selected = 0;

    let (model, _) = update(model, Msg::IsoMoveSelection(1));
    assert_eq!(model.iso_selected, 1);

    let (model, _) = update(model, Msg::IsoMoveSelection(1));
    assert_eq!(model.iso_selected, 2);

    let (model, _) = update(model, Msg::IsoMoveSelection(5));
    assert_eq!(model.iso_selected, 2);

    let (model, _) = update(model, Msg::IsoMoveSelection(-1));
    assert_eq!(model.iso_selected, 1);

    let (model, _) = update(model, Msg::IsoMoveSelection(-5));
    assert_eq!(model.iso_selected, 0);
}

#[test]
fn test_predictability() {
    let model = Model::default();
    let msg = Msg::IsoQueryChanged("test".to_string());

    let (result1, cmds1) = update(model.clone(), msg.clone());
    let (result2, cmds2) = update(model.clone(), msg.clone());

    assert_eq!(result1.iso_query, result2.iso_query);
    assert_eq!(result1.iso_selected, result2.iso_selected);
    assert_eq!(result1.iso_searching, result2.iso_searching);
    assert_eq!(cmds1.len(), cmds2.len());
}

#[test]
fn test_tab_navigation_without_selections() {
    let model = Model::default();
    assert!(matches!(model.screen, Screen::IsoSearch));

    let (model, _) = update(model, Msg::NextScreen);
    assert!(matches!(model.screen, Screen::DeviceSelect));

    let (model, _) = update(model, Msg::NextScreen);
    assert!(matches!(model.screen, Screen::IsoSearch));
}

#[test]
fn test_tab_navigation_with_selections() {
    let mut model = Model::default();
    model.iso_chosen = Some(IsoPath::from(String::from("/test.iso")));
    model.device_chosen = Some(DevicePath::from(String::from("/dev/sdb")));
    model.confirm_input = "YES".to_string();
    model.screen = Screen::IsoSearch;

    let (model, _) = update(model, Msg::NextScreen);
    assert!(matches!(model.screen, Screen::DeviceSelect));

    let (model, _) = update(model, Msg::NextScreen);
    assert!(matches!(model.screen, Screen::Confirm));

    let (model, _) = update(model, Msg::NextScreen);
    assert!(matches!(model.screen, Screen::IsoSearch));
}

#[test]
fn test_back_navigation() {
    let mut model = Model::default();
    model.screen = Screen::IsoSearch;
    let (model, _) = update(model, Msg::Back);
    assert!(matches!(model.screen, Screen::IsoSearch));

    let mut model = Model::default();
    model.screen = Screen::DeviceSelect;
    let (model, _) = update(model, Msg::Back);
    assert!(matches!(model.screen, Screen::IsoSearch));

    let mut model = Model::default();
    model.screen = Screen::Confirm;
    let (model, _) = update(model, Msg::Back);
    assert!(matches!(model.screen, Screen::DeviceSelect));

    let mut model = Model::default();
    model.screen = Screen::Writing;
    let (model, _) = update(model, Msg::Back);
    assert!(matches!(model.screen, Screen::Confirm));

    let mut model = Model::default();
    model.screen = Screen::Done;
    let (model, _) = update(model, Msg::Back);
    assert!(matches!(model.screen, Screen::DeviceSelect));
}

#[test]
fn test_confirmation_requires_yes_input() {
    let mut model = Model::default();
    model.screen = Screen::Confirm;
    model.iso_chosen = Some(IsoPath::from(String::from("/test.iso")));
    model.device_chosen = Some(DevicePath::from(String::from("/dev/sdb")));

    model.confirm_input = "".to_string();
    let (new_model, cmds) = update(model.clone(), press(KeyCode::Enter));
    assert!(matches!(new_model.screen, Screen::Confirm));
    assert_eq!(cmds.len(), 0);

    model.confirm_input = "yes".to_string();
    let (new_model, cmds) = update(model.clone(), press(KeyCode::Enter));
    assert!(matches!(new_model.screen, Screen::Confirm));
    assert_eq!(cmds.len(), 0);

    model.confirm_input = "YES".to_string();
    let (new_model, cmds) = update(model, press(KeyCode::Enter));
    assert!(matches!(new_model.screen, Screen::Writing));
    assert_eq!(cmds.len(), 1);
    assert!(matches!(cmds[0], Cmd::Write { .. }));
}

#[test]
fn test_device_refresh_command() {
    let mut model = Model::default();
    model.screen = Screen::DeviceSelect;

    let (new_model, cmds) = update(model, Msg::RefreshDevicesRequested);

    assert!(new_model.device_refreshing);
    assert_eq!(cmds.len(), 1);
    assert!(matches!(cmds[0], Cmd::RefreshDevices));
}

#[test]
fn test_verify_finished_transitions_to_done() {
    let mut model = Model::default();
    model.screen = Screen::Writing;
    model.verifying = true;

    let (new_model, cmds) = update(model, Msg::VerifyFinished(Ok(())));

    assert_eq!(new_model.verify_result, Some(Ok(())));
    assert!(!new_model.verifying);
    assert!(matches!(new_model.screen, Screen::Done));
    assert_eq!(cmds.len(), 0);
}

#[test]
fn confirmation_token_is_case_sensitive() {
    for text in ["yes", "Yes", "YES ", "YE", ""] {
        let mut model = Model::default();
        model.screen = Screen::Confirm;
        model.iso_chosen = Some(IsoPath::from(String::from("/a.iso")));
        model.device_chosen = Some(DevicePath::from(String::from("/dev/sdz")));
        model.confirm_input = text.to_string();
        let (after, cmds) = update(model, press(KeyCode::Enter));
        assert!(matches!(after.screen, Screen::Confirm));
        assert!(cmds.is_empty());
    }
}

#[test]
fn confirmation_needs_both_selections() {
    let mut model = Model::default();
    model.screen = Screen::Confirm;
    model.confirm_input = "YES".to_string();
    model.iso_chosen = Some(IsoPath::from(String::from("/a.iso")));
    let (after, cmds) = update(model, press(KeyCode::Enter));
    assert!(matches!(after.screen, Screen::Confirm));
    assert!(cmds.is_empty());
}

#[test]
fn write_command_names_the_chosen_pair() {
    let mut model = Model::default();
    model.screen = Screen::Confirm;
    model.confirm_input = "YES".to_string();
    model.iso_chosen = Some(IsoPath::from(String::from("/a.iso")));
    model.device_chosen = Some(DevicePath::from(String::from("/dev/sdz")));
    model.writing_written = 7;
    model.writing_total = 9;
    let (after, cmds) = update(model, press(KeyCode::Enter));
    assert_eq!(after.writing_written, 0);
    assert_eq!(after.writing_total, 0);
    assert!(after.writing_started.is_some());
    match &cmds[0] {
        Cmd::Write { iso, device } => {
            assert_eq!(iso.as_path(), "/a.iso");
            assert_eq!(device.as_path(), "/dev/sdz");
        }
        _ => panic!("expected a write command"),
    }
}

#[test]
fn typing_on_confirm_screen_builds_the_token() {
    let mut model = Model::default();
    model.screen = Screen::Confirm;
    for c in ['y', 'e', 's', 'x'] {
        let (next, cmds) = update(model, press(KeyCode::Char(c)));
        assert!(cmds.is_empty());
        model = next;
    }
    assert_eq!(model.confirm_input, "YES");
    let (model, _) = update(model, press(KeyCode::Backspace));
    assert_eq!(model.confirm_input, "YE");
    let (model, _) = update(model, press(KeyCode::Char('1')));
    assert_eq!(model.confirm_input, "YE");
    let (model, _) = update(model, press(KeyCode::Char('v')));
    assert!(model.verify_after_write);
    assert_eq!(model.confirm_input, "YE");
}

#[test]
fn control_s_asks_for_privilege_only_without_it() {
    let key = Msg::Key(KeyEvent {
        code: KeyCode::Char('s'),
        modifiers: KeyModifiers::control(),
        kind: KeyEventKind::Press,
    });
    let mut model = Model::default();
    model.screen = Screen::Confirm;
    let (after, cmds) = update(model, key.clone());
    assert_eq!(after.confirm_input, "");
    assert!(matches!(cmds[0], Cmd::ReexecWithSudo));

    let mut model = Model::default();
    model.screen = Screen::Confirm;
    model.is_root = true;
    let (_, cmds) = update(model, key);
    assert!(cmds.is_empty());
}

#[test]
fn key_release_is_ignored() {
    let mut model = Model::default();
    model.screen = Screen::IsoSearch;
    let (after, cmds) = update(
        model,
        Msg::Key(KeyEvent {
            code: KeyCode::Char('a'),
            modifiers: KeyModifiers::empty(),
            kind: KeyEventKind::Release,
        }),
    );
    assert_eq!(after.iso_query, "");
    assert!(cmds.is_empty());
}

#[test]
fn typing_on_search_screen_edits_the_query() {
    let model = Model::default();
    let (model, cmds) = update(model, press(KeyCode::Char('u')));
    match &cmds[0] {
        Cmd::ScanIso { query } => assert_eq!(query, "u"),
        _ => panic!("expected a scan"),
    }
    let (model, _) = update(model, press(KeyCode::Char('b')));
    assert_eq!(model.iso_query, "ub");
    let (model, cmds) = update(model, press(KeyCode::Backspace));
    assert_eq!(model.iso_query, "u");
    match &cmds[0] {
        Cmd::ScanIso { query } => assert_eq!(query, "u"),
        _ => panic!("expected a scan"),
    }
    let (model, _) = update(model, press(KeyCode::Backspace));
    let (model, _) = update(model, press(KeyCode::Backspace));
    assert_eq!(model.iso_query, "");
    assert!(model.iso_searching);
}

#[test]
fn tick_starts_the_job_the_screen_needs() {
    let model = Model::default();
    let (model, cmds) = update(model, Msg::Tick);
    assert!(model.iso_searching);
    assert!(matches!(cmds[0], Cmd::ScanIso { .. }));
    let (model, cmds) = update(model, Msg::Tick);
    assert!(cmds.is_empty());

    let mut model = model;
    model.screen = Screen::DeviceSelect;
    let (model, cmds) = update(model, Msg::Tick);
    assert!(model.device_refreshing);
    assert!(matches!(cmds[0], Cmd::RefreshDevices));
}

#[test]
fn results_pull_the_selection_back_in_range() {
    let mut model = Model::default();
    model.iso_selected = 5;
    model.iso_searching = true;
    let (model, _) = update(
        model,
        Msg::IsoResults(vec![make_test_iso("/a.iso", 1), make_test_iso("/b.iso", 2)]),
    );
    assert_eq!(model.iso_selected, 1);
    assert!(!model.iso_searching);
    let (model, _) = update(model, Msg::IsoResults(vec![]));
    assert_eq!(model.iso_selected, 0);

    let mut model = model;
    model.device_selected = 3;
    let (model, _) = update(model, Msg::DevicesRefreshed(vec![make_test_device("sdb", "/dev/sdb")]));
    assert_eq!(model.device_selected, 0);
}

#[test]
fn failed_write_ends_on_done_with_its_message() {
    let mut model = Model::default();
    model.screen = Screen::Writing;
    model.verify_after_write = true;
    let (model, cmds) = update(model, Msg::WriteFinished(Err("Write error: disk full".into())));
    assert!(matches!(model.screen, Screen::Done));
    assert_eq!(model.write_result, Some(Err("Write error: disk full".to_string())));
    assert!(cmds.is_empty());
}

#[test]
fn next_from_devices_needs_only_both_selections() {
    let mut model = Model::default();
    model.screen = Screen::DeviceSelect;
    model.iso_chosen = Some(IsoPath::from(String::from("/test.iso")));
    model.device_chosen = Some(DevicePath::from(String::from("/dev/sdb")));
    let (model, _) = update(model, Msg::NextScreen);
    assert!(matches!(model.screen, Screen::Confirm));
    let (model, _) = update(model, Msg::PrevScreen);
    assert!(matches!(model.screen, Screen::DeviceSelect));
}

#[test]
fn elevation_is_asked_only_without_privilege() {
    let model = Model::default();
    let (model, cmds) = update(model, Msg::ElevateRequested);
    assert!(matches!(cmds[0], Cmd::ReexecWithSudo));
    let mut model = model;
    model.is_root = true;
    let (_, cmds) = update(model, Msg::ElevateRequested);
    assert!(cmds.is_empty());
}
