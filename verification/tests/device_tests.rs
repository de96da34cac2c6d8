use ferric::adapters::lsblk::{devices_from_listing, parse_key_value_line};
use ferric::domain::device::{rank_devices, Device};
use ferric::domain::{ByteSize, DevicePath};

fn make_device(ro: bool, mounted: bool) -> Device {
    Device {
        name: "sdx".to_string(),
        path: DevicePath::from(String::from("/dev/sdx")),
        size: ByteSize::from(1_000_000),
        model: None,
        serial: None,
        tran: None,
        removable: true,
        hotplug: true,
        ro,
        mounted,
        labels: vec![],
    }
}

fn named(name: &str, hotplug: bool, removable: bool, mounted: bool) -> Device {
    Device {
        name: name.to_string(),
        path: DevicePath::from(format!("/dev/{}", name)),
        size: ByteSize::from(1),
        model: None,
        serial: None,
        tran: None,
        removable,
        hotplug,
        ro: false,
        mounted,
        labels: vec![],
    }
}

#[test]
fn mounted_device_is_not_safe_target() {
    let d = make_device(false, true);
    assert!(!d.is_safe_target());
}

#[test]
fn safe_target_is_writable_and_unmounted() {
    assert!(make_device(false, false).is_safe_target());
    assert!(!make_device(true, false).is_safe_target());
    assert!(!make_device(true, true).is_safe_target());
}

#[test]
fn line_is_read_into_keys_and_values() {
    let kv = parse_key_value_line(r#"NAME="sda" TYPE="disk" SIZE="500107862016" MODEL="Samsung SSD 860""#);
    assert_eq!(kv.get("NAME").map(|s| s.as_str()), Some("sda"));
    assert_eq!(kv.get("TYPE").map(|s| s.as_str()), Some("disk"));
    assert_eq!(kv.get("SIZE").map(|s| s.as_str()), Some("500107862016"));
    assert_eq!(kv.get("MODEL").map(|s| s.as_str()), Some("Samsung SSD 860"));
    assert_eq!(kv.get("LABEL"), None);
}

#[test]
fn malformed_tokens_are_dropped_not_fatal() {
    let kv = parse_key_value_line(r#"   A="1"    B="" junk"#);
    assert_eq!(kv.get("A").map(|s| s.as_str()), Some("1"));
    assert_eq!(kv.get("B").map(|s| s.as_str()), Some(""));
    assert_eq!(kv.get("junk"), None);

    let kv = parse_key_value_line(r#"A="unterminated"#);
    assert_eq!(kv.get("A").map(|s| s.as_str()), Some("unterminated"));

    let kv = parse_key_value_line("");
    assert_eq!(kv.get(""), None);

    let kv = parse_key_value_line(r#"K="first" K="second""#);
    assert_eq!(kv.get("K").map(|s| s.as_str()), Some("second"));

    let kv = parse_key_value_line("A=bare B=\"x\"");
    assert_eq!(kv.get("A").map(|s| s.as_str()), Some("bare B="));
}

const LISTING: &str = r#"NAME="sda" TYPE="disk" SIZE="500107862016" RM="0" RO="0" MODEL="Samsung SSD 860" SERIAL="S3Z9" TRAN="sata" HOTPLUG="0" MOUNTPOINT="" PKNAME="" LABEL=""
NAME="sda1" TYPE="part" SIZE="536870912" RM="0" RO="0" MODEL="" SERIAL="" TRAN="" HOTPLUG="0" MOUNTPOINT="/boot/efi" PKNAME="sda" LABEL=""
NAME="sda2" TYPE="part" SIZE="499570991104" RM="0" RO="0" MODEL="" SERIAL="" TRAN="" HOTPLUG="0" MOUNTPOINT="/" PKNAME="sda" LABEL="root"
NAME="sdb" TYPE="disk" SIZE="15931539456" RM="1" RO="0" MODEL="Ultra" SERIAL="4C53" TRAN="usb" HOTPLUG="1" MOUNTPOINT="" PKNAME="" LABEL=""
NAME="sdb1" TYPE="part" SIZE="15930490880" RM="1" RO="0" MODEL="" SERIAL="" TRAN="" HOTPLUG="1" MOUNTPOINT="/media/user/STICK" PKNAME="sdb" LABEL=""
NAME="sdb2" TYPE="part" SIZE="1048576" RM="1" RO="0" MODEL="" SERIAL="" TRAN="" HOTPLUG="1" MOUNTPOINT="" PKNAME="sdb" LABEL="DATA"
NAME="sdb3" TYPE="part" SIZE="1048576" RM="1" RO="0" MODEL="" SERIAL="" TRAN="" HOTPLUG="1" MOUNTPOINT="/mnt/STICK" PKNAME="sdb" LABEL=""
NAME="sdc" TYPE="disk" SIZE="8000000000" RM="1" RO="1" MODEL="" SERIAL="" TRAN="usb" HOTPLUG="1" MOUNTPOINT="" PKNAME="" LABEL=""
NAME="sdd" TYPE="disk" SIZE="32000000000" RM="1" RO="0" MODEL="" SERIAL="" TRAN="usb" HOTPLUG="1" MOUNTPOINT="" PKNAME="" LABEL=""
NAME="loop0" TYPE="loop" SIZE="4096" RM="0" RO="1" MODEL="" SERIAL="" TRAN="" HOTPLUG="0" MOUNTPOINT="/snap/core/1" PKNAME="" LABEL=""
NAME="loop1" TYPE="disk" SIZE="4096" RM="0" RO="0" MODEL="" SERIAL="" TRAN="" HOTPLUG="0" MOUNTPOINT="" PKNAME="" LABEL=""
NAME="nvme0n1" TYPE="disk" SIZE="not-a-number" RM="0" RO="0" MODEL="" SERIAL="" TRAN="nvme" HOTPLUG="0" MOUNTPOINT="" PKNAME="" LABEL=""
"#;

#[test]
fn discovery_filters_and_ranks() {
    let devices = devices_from_listing(LISTING);
    let names: Vec<&str> = devices.iter().map(|d| d.name.as_str()).collect();
    assert_eq!(names, vec!["sdd", "sdb", "nvme0n1"]);

    let sdd = &devices[0];
    assert_eq!(sdd.path.as_path(), "/dev/sdd");
    assert_eq!(sdd.size.as_u64(), 32_000_000_000);
    assert!(sdd.removable && sdd.hotplug && !sdd.ro && !sdd.mounted);
    assert_eq!(sdd.model, None);
    assert_eq!(sdd.tran.as_deref(), Some("usb"));
    assert!(sdd.labels.is_empty());

    let sdb = &devices[1];
    assert!(sdb.mounted);
    assert_eq!(sdb.model.as_deref(), Some("Ultra"));
    assert_eq!(sdb.serial.as_deref(), Some("4C53"));
    assert_eq!(sdb.labels, vec!["STICK".to_string(), "DATA".to_string()]);

    let nvme = &devices[2];
    assert_eq!(nvme.size.as_u64(), 0);
    assert!(!nvme.hotplug && !nvme.removable);
}

#[test]
fn read_only_disk_never_appears() {
    let devices = devices_from_listing(LISTING);
    assert!(devices.iter().all(|d| d.name != "sdc"));
    assert!(devices.iter().all(|d| !d.ro));
}

#[test]
fn disk_hosting_root_never_appears() {
    let devices = devices_from_listing(LISTING);
    assert!(devices.iter().all(|d| d.name != "sda"));
}

#[test]
fn loop_devices_never_appear() {
    let devices = devices_from_listing(LISTING);
    assert!(devices.iter().all(|d| !d.name.starts_with("loop")));
}

#[test]
fn unreadable_listing_gives_no_devices() {
    assert!(devices_from_listing("").is_empty());
    assert!(devices_from_listing("lsblk: command failed\n\n").is_empty());
    assert!(devices_from_listing("TYPE=\"disk\" SIZE=\"1\"\n").is_empty());
}

#[test]
fn discovery_order_does_not_matter() {
    let mut lines: Vec<&str> = LISTING.lines().collect();
    let forward = devices_from_listing(&lines.join("\n"));
    let disks: Vec<&str> = lines.iter().copied().filter(|l| l.contains("TYPE=\"disk\"")).collect();
    let parts: Vec<&str> = lines.iter().copied().filter(|l| !l.contains("TYPE=\"disk\"")).collect();
    lines = disks.into_iter().rev().chain(parts.into_iter().rev()).collect();
    let backward = devices_from_listing(&lines.join("\r\n"));
    let a: Vec<&str> = forward.iter().map(|d| d.name.as_str()).collect();
    let b: Vec<&str> = backward.iter().map(|d| d.name.as_str()).collect();
    assert_eq!(a, b);
}

#[test]
fn later_disk_record_replaces_earlier() {
    let text = "NAME=\"sdb\" TYPE=\"disk\" SIZE=\"1\" RO=\"1\"\nNAME=\"sdb\" TYPE=\"disk\" SIZE=\"+2\" RO=\"0\"\n";
    let devices = devices_from_listing(text);
    assert_eq!(devices.len(), 1);
    assert_eq!(devices[0].size.as_u64(), 2);
}

#[test]
fn ranking_orders_by_hotplug_removable_mounted_name() {
    let ranked = rank_devices(vec![
        named("sdz", false, false, false),
        named("sdb", true, true, true),
        named("sda", false, true, false),
        named("sdc", true, false, false),
        named("sdy", true, true, false),
        named("sdx", true, true, false),
        named("sd", true, true, false),
    ]);
    let names: Vec<&str> = ranked.iter().map(|d| d.name.as_str()).collect();
    assert_eq!(names, vec!["sd", "sdx", "sdy", "sdb", "sdc", "sda", "sdz"]);
}
