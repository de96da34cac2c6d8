use ferric::adapters::platform::{
    device_basename, join_texts, mounted_partitions_of, needs_fallback, partprobe_report,
    signed_decimal_string, status_shows_root, unmount_failure, unmount_report, ToolRun,
};
use ferric::app::cmd::{
    elevation_failure_message, lost_job_message, sudo_arguments, ElevationFailure,
};
use ferric::app::msg::{Cmd, KeyCode, KeyEvent, KeyEventKind, KeyModifiers, Msg};
use ferric::app::update::map_key_to_msg;
use ferric::domain::{DevicePath, IsoPath};
use ferric::text::{decimal_string, parse_u64, trim_text};

#[test]
fn basename_is_the_last_segment() {
    assert_eq!(device_basename("/dev/sdb").as_deref(), Some("sdb"));
    assert_eq!(device_basename("/dev/sdb/").as_deref(), Some("sdb"));
    assert_eq!(device_basename("sdb").as_deref(), Some("sdb"));
    assert_eq!(device_basename("/dev/disk/by-id/usb-1"), Some("usb-1".to_string()));
    assert_eq!(device_basename("/"), None);
    assert_eq!(device_basename(""), None);
    assert_eq!(device_basename("/dev/.."), None);
    assert_eq!(device_basename("/dev/.").as_deref(), Some("dev"));
    assert_eq!(device_basename("/dev//sdb//").as_deref(), Some("sdb"));
    assert_eq!(device_basename("."), None);
    for p in ["", "/", ".", "..", "a", "a/", "/a/b", "/a/b/.", "/a/b/..", "./a", "a/./", "//"] {
        let by_platform = std::path::Path::new(p)
            .file_name()
            .map(|n| n.to_string_lossy().into_owned());
        assert_eq!(device_basename(p), by_platform, "for {:?}", p);
    }
}

const LISTING: &str = "NAME=\"sdb\" TYPE=\"disk\" MOUNTPOINT=\"\" PKNAME=\"\"\n\
NAME=\"sdb1\" TYPE=\"part\" MOUNTPOINT=\"/media/a b\" PKNAME=\"sdb\"\n\
NAME=\"sdb2\" TYPE=\"part\" MOUNTPOINT=\"\" PKNAME=\"sdb\"\n\
NAME=\"sdc1\" TYPE=\"part\" MOUNTPOINT=\"/mnt/c\" PKNAME=\"sdc\"\n\
NAME=\"sdb3\" TYPE=\"part\" MOUNTPOINT=\"/mnt/three\" PKNAME=\"sdb\"\n";

#[test]
fn only_mounted_partitions_of_the_device_are_unmounted() {
    assert_eq!(mounted_partitions_of(LISTING, "sdb"), vec!["/media/a b", "/mnt/three"]);
    assert_eq!(mounted_partitions_of(LISTING, "sdc"), vec!["/mnt/c"]);
    assert!(mounted_partitions_of(LISTING, "sdd").is_empty());
    assert!(mounted_partitions_of(LISTING, "").is_empty());
    assert!(mounted_partitions_of("", "sdb").is_empty());
}

#[test]
fn partitions_to_unmount_need_no_name() {
    let listing = "TYPE=\"part\" MOUNTPOINT=\"/mnt/x\" PKNAME=\"sdb\"\n\
TYPE=\"part\" MOUNTPOINT=\"/mnt/y\"\n\
TYPE=\"disk\" MOUNTPOINT=\"/mnt/z\" PKNAME=\"sdb\"\n\
NAME=\"sdb9\" TYPE=\"part\" PKNAME=\"sdb\"\n";
    assert_eq!(mounted_partitions_of(listing, "sdb"), vec!["/mnt/x"]);
}

#[test]
fn unmount_report_counts_failures() {
    assert_eq!(unmount_report(&vec![], 3), Ok(()));
    assert_eq!(
        unmount_report(&vec!["umount /a failed with status 32: busy".into()], 2),
        Err("failed to unmount 1 of 2 partition(s): umount /a failed with status 32: busy".into())
    );
    assert_eq!(
        unmount_report(&vec!["one".into(), "two".into(), "three".into()], 12),
        Err("failed to unmount 3 of 12 partition(s): one; two; three".into())
    );
}

#[test]
fn unmount_failure_is_put_in_words() {
    assert_eq!(unmount_failure("/mnt/a", &ToolRun::Succeeded), None);
    assert_eq!(
        unmount_failure("/mnt/a", &ToolRun::Failed { code: 32, stderr: "  target is busy.\n".into() }),
        Some("umount /mnt/a failed with status 32: target is busy.".into())
    );
    assert_eq!(
        unmount_failure("/mnt/a", &ToolRun::Failed { code: -1, stderr: " \n".into() }),
        Some("umount /mnt/a failed with status -1".into())
    );
    assert_eq!(
        unmount_failure("/mnt/a", &ToolRun::NotStarted("No such file or directory".into())),
        Some("failed to run umount /mnt/a: No such file or directory".into())
    );
}

#[test]
fn partition_reread_falls_back_and_reports_both_failures() {
    let failed = |code: i32, text: &str| ToolRun::Failed { code, stderr: text.into() };
    assert!(!needs_fallback(&ToolRun::Succeeded));
    assert!(needs_fallback(&failed(1, "")));
    assert!(needs_fallback(&ToolRun::NotStarted("x".into())));
    assert_eq!(partprobe_report(&ToolRun::Succeeded, &ToolRun::Succeeded), Ok(()));
    assert_eq!(partprobe_report(&ToolRun::Succeeded, &failed(1, "x")), Ok(()));
    assert_eq!(partprobe_report(&failed(1, "x"), &ToolRun::Succeeded), Ok(()));
    assert_eq!(partprobe_report(&ToolRun::NotStarted("x".into()), &ToolRun::Succeeded), Ok(()));
    assert_eq!(
        partprobe_report(&failed(1, " busy\n"), &failed(-1, "ioctl failed ")),
        Err("partprobe failed (code 1): busy; blockdev --rereadpt failed (code -1): ioctl failed".into())
    );
    assert_eq!(
        partprobe_report(&failed(2, "busy"), &ToolRun::NotStarted("not found".into())),
        Err("partprobe failed (code 2): busy; blockdev --rereadpt spawn error: not found".into())
    );
    assert_eq!(
        partprobe_report(&ToolRun::NotStarted("not found".into()), &failed(1, "busy")),
        Err("partprobe spawn error: not found; blockdev --rereadpt failed (code 1): busy".into())
    );
    assert_eq!(
        partprobe_report(&ToolRun::NotStarted("a".into()), &ToolRun::NotStarted("b".into())),
        Err("partprobe spawn error: a; blockdev --rereadpt spawn error: b".into())
    );
}

#[test]
fn status_file_tells_the_superuser() {
    assert!(status_shows_root("Name:\tferric\nUid:\t0\t0\t0\t0\nGid:\t0\t0\t0\t0\n"));
    assert!(!status_shows_root("Name:\tferric\nUid:\t1000\t0\t0\t0\nGid:\t0\t0\t0\t0\n"));
    assert!(!status_shows_root("Name:\tferric\nUid:\t00\t0\n"));
    assert!(!status_shows_root("Uid:\nUid:\t0\n"));
    assert!(status_shows_root("Uid: 0"));
    assert!(status_shows_root("Uid:0\r\n"));
    assert!(!status_shows_root("Gid:\t0\n"));
    assert!(!status_shows_root(" Uid:\t0\n"));
    assert!(!status_shows_root(""));
}

#[test]
fn numbers_are_written_and_read_in_decimal() {
    assert_eq!(decimal_string(0), "0");
    assert_eq!(decimal_string(7), "7");
    assert_eq!(decimal_string(10), "10");
    assert_eq!(decimal_string(1234567890), "1234567890");
    assert_eq!(decimal_string(u64::MAX), "18446744073709551615");
    assert_eq!(signed_decimal_string(0), "0");
    assert_eq!(signed_decimal_string(-1), "-1");
    assert_eq!(signed_decimal_string(i32::MIN), "-2147483648");
    assert_eq!(signed_decimal_string(i32::MAX), "2147483647");
    assert_eq!(parse_u64("0"), Some(0));
    assert_eq!(parse_u64("+15"), Some(15));
    assert_eq!(parse_u64("007"), Some(7));
    assert_eq!(parse_u64("18446744073709551615"), Some(u64::MAX));
    assert_eq!(parse_u64("18446744073709551616"), None);
    assert_eq!(parse_u64("99999999999999999999999"), None);
    assert_eq!(parse_u64(""), None);
    assert_eq!(parse_u64("+"), None);
    assert_eq!(parse_u64("-1"), None);
    assert_eq!(parse_u64("1 "), None);
    assert_eq!(parse_u64("12a"), None);
    for n in [0u64, 1, 9, 10, 99, 100, 4096, 500107862016, u64::MAX - 1] {
        assert_eq!(decimal_string(n), n.to_string());
        assert_eq!(parse_u64(&n.to_string()), Some(n));
    }
}

#[test]
fn texts_are_joined_and_trimmed() {
    assert_eq!(join_texts(&vec![], ", "), "");
    assert_eq!(join_texts(&vec!["a".into()], ", "), "a");
    assert_eq!(join_texts(&vec!["a".into(), "".into(), "c".into()], ", "), "a, , c");
    assert_eq!(trim_text("  a b \t\n"), "a b");
    assert_eq!(trim_text("\u{a0}x\u{3000}"), "x");
    assert_eq!(trim_text(" \n "), "");
    assert_eq!(trim_text(""), "");
    assert_eq!(trim_text("abc"), "abc");
}

fn key(code: KeyCode, modifiers: KeyModifiers) -> KeyEvent {
    KeyEvent { code, modifiers, kind: KeyEventKind::Press }
}

#[test]
fn keys_with_a_meaning_on_every_screen() {
    let none = KeyModifiers::empty();
    assert!(matches!(map_key_to_msg(key(KeyCode::Esc, none)), Some(Msg::Back)));
    assert!(matches!(map_key_to_msg(key(KeyCode::Char('q'), none)), Some(Msg::Quit)));
    assert!(matches!(map_key_to_msg(key(KeyCode::Tab, none)), Some(Msg::NextScreen)));
    assert!(matches!(map_key_to_msg(key(KeyCode::BackTab, none)), Some(Msg::PrevScreen)));
    assert!(matches!(
        map_key_to_msg(key(KeyCode::Char('c'), KeyModifiers::control())),
        Some(Msg::Quit)
    ));
    assert!(matches!(
        map_key_to_msg(key(KeyCode::Char('C'), KeyModifiers::control())),
        Some(Msg::Quit)
    ));
    let control_shift = KeyModifiers { shift: true, control: true, alt: false, other: false };
    assert!(map_key_to_msg(key(KeyCode::Char('c'), control_shift)).is_none());
    assert!(map_key_to_msg(key(KeyCode::Char('c'), none)).is_none());
    assert!(map_key_to_msg(key(KeyCode::Enter, none)).is_none());
    assert!(map_key_to_msg(key(KeyCode::Char('Q'), none)).is_none());
}

#[test]
fn lost_jobs_are_reported_as_failures() {
    let iso = || IsoPath::from(String::from("/a.iso"));
    let dev = || DevicePath::from(String::from("/dev/sdb"));
    assert!(matches!(
        lost_job_message(&Cmd::ScanIso { query: "q".into() }, "task panicked"),
        Some(Msg::IsoSearchFailed(e)) if e == "task panicked"
    ));
    assert!(matches!(
        lost_job_message(&Cmd::RefreshDevices, "cancelled"),
        Some(Msg::DevicesRefreshFailed(e)) if e == "cancelled"
    ));
    assert!(matches!(
        lost_job_message(&Cmd::Write { iso: iso(), device: dev() }, "task panicked"),
        Some(Msg::WriteFinished(Err(e))) if e == "Join error: task panicked"
    ));
    assert!(matches!(
        lost_job_message(&Cmd::Verify { iso: iso(), device: dev(), size: 1 }, "task panicked"),
        Some(Msg::VerifyFinished(Err(e))) if e == "Join error: task panicked"
    ));
    assert!(lost_job_message(&Cmd::Noop, "x").is_none());
    assert!(lost_job_message(&Cmd::ReexecWithSudo, "x").is_none());
}

#[test]
fn elevation_keeps_the_arguments() {
    assert_eq!(
        sudo_arguments("/usr/bin/ferric".into(), vec!["--flag".into(), "a b".into()]),
        vec!["-E", "--", "/usr/bin/ferric", "--flag", "a b"]
    );
    assert_eq!(sudo_arguments("ferric".into(), vec![]), vec!["-E", "--", "ferric"]);
    assert!(matches!(
        elevation_failure_message(ElevationFailure::NoExecutable("gone".into())),
        Msg::WriteFinished(Err(e)) if e == "Cannot determine current executable: gone"
    ));
    assert!(matches!(
        elevation_failure_message(ElevationFailure::NotReplaced),
        Msg::WriteFinished(Err(e)) if e == "Failed to exec sudo"
    ));
}
