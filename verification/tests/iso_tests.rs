use ferric::domain::iso::{
    default_roots, downloads_of, has_iso_extension, judge, matches_filter, normalize_roots,
    rank_candidates, scan, DirEntry, EntryKind, IsoMeta, Root, Timestamp, Visit, MAX_DEPTH,
    MIN_SIZE,
};
use ferric::domain::{ByteSize, DirPath, IsoPath};

const MIB: u64 = 1024 * 1024;
const GIB: u64 = 1024 * MIB;

fn file(path: &str, size: u64, modified: Option<i128>) -> IsoMeta {
    IsoMeta {
        path: IsoPath::from(String::from(path)),
        size: ByteSize::new(size),
        modified: modified.map(Timestamp),
    }
}

fn paths(list: &[IsoMeta]) -> Vec<&str> {
    list.iter().map(|m| m.path.as_path()).collect()
}

#[test]
fn scan_of_two_directories_keeps_only_the_large_image() {
    let found = vec![
        file("/srv/one/a.iso", 2 * GIB, Some(10)),
        file("/srv/two/b.img", 50 * MIB, Some(20)),
    ];
    let result = scan(found, "", 100 * MIB);
    assert_eq!(paths(&result), vec!["/srv/one/a.iso"]);
    assert_eq!(result[0].size.as_u64(), 2 * GIB);
}

#[test]
fn scan_counts_a_file_reached_twice_once() {
    let found = vec![
        file("/home/u/Downloads/a.iso", 200 * MIB, Some(5)),
        file("/home/u/Downloads/b.iso", 300 * MIB, Some(6)),
        file("/home/u/Downloads/a.iso", 200 * MIB, Some(5)),
    ];
    let result = scan(found, "", 100 * MIB);
    assert_eq!(paths(&result), vec!["/home/u/Downloads/b.iso", "/home/u/Downloads/a.iso"]);
}

#[test]
fn scan_never_shows_small_or_foreign_files() {
    let found = vec![
        file("/d/small.iso", 100 * MIB - 1, Some(1)),
        file("/d/exact.iso", 100 * MIB, Some(1)),
        file("/d/notes.txt", 900 * MIB, Some(1)),
        file("/d/noextension", 900 * MIB, Some(1)),
        file("/d/.iso", 900 * MIB, Some(1)),
        file("/d/UPPER.ISO", 900 * MIB, Some(1)),
        file("/d/disk.Raw", 900 * MIB, Some(1)),
        file("/d/archive.iso.gz", 900 * MIB, Some(1)),
    ];
    let result = scan(found, "", 100 * MIB);
    assert_eq!(paths(&result), vec!["/d/UPPER.ISO", "/d/disk.Raw", "/d/exact.iso"]);
}

#[test]
fn scan_filters_by_query_on_the_file_name() {
    let found = vec![
        file("/ubuntu/debian.iso", GIB, None),
        file("/isos/Ubuntu-24.04.iso", GIB, None),
        file("/isos/kubuntu.img", GIB, None),
    ];
    let result = scan(found, "ubuntu", 0);
    assert_eq!(paths(&result), vec!["/isos/Ubuntu-24.04.iso", "/isos/kubuntu.img"]);
}

#[test]
fn scan_orders_newest_first_unknown_age_last_then_by_path() {
    let found = vec![
        file("/d/unknown-b.iso", GIB, None),
        file("/d/old.iso", GIB, Some(100)),
        file("/d/new.iso", GIB, Some(300)),
        file("/d/unknown-a.iso", GIB, None),
        file("/d/tie-b.iso", GIB, Some(200)),
        file("/d/tie-a.iso", GIB, Some(200)),
        file("/d/ancient.iso", GIB, Some(-5)),
    ];
    let result = scan(found, "", 0);
    assert_eq!(
        paths(&result),
        vec![
            "/d/new.iso",
            "/d/tie-a.iso",
            "/d/tie-b.iso",
            "/d/old.iso",
            "/d/ancient.iso",
            "/d/unknown-a.iso",
            "/d/unknown-b.iso",
        ]
    );
}

#[test]
fn scan_breaks_ties_component_by_component() {
    let found = vec![
        file("/d/a-b/x.iso", GIB, Some(7)),
        file("/d/a/x.iso", GIB, Some(7)),
        file("/d/a.b/x.iso", GIB, Some(7)),
        file("/d/a/w.iso", GIB, Some(7)),
    ];
    let result = scan(found, "", 0);
    assert_eq!(
        paths(&result),
        vec!["/d/a/w.iso", "/d/a/x.iso", "/d/a-b/x.iso", "/d/a.b/x.iso"]
    );
}

#[test]
fn scan_counts_one_path_written_two_ways_once() {
    let found = vec![
        file("/d//a.iso", GIB, Some(1)),
        file("/d/a.iso", GIB, Some(2)),
        file("/d/./a.iso", GIB, Some(3)),
        file("/d/b.iso", GIB, Some(0)),
    ];
    let result = scan(found, "", 0);
    assert_eq!(paths(&result), vec!["/d//a.iso", "/d/b.iso"]);
}

#[test]
fn default_scan_limits_and_roots() {
    assert_eq!(MAX_DEPTH, 5);
    assert_eq!(MIN_SIZE, 100 * 1024 * 1024);
    let home = DirPath::from(String::from("/home/u"));
    assert_eq!(downloads_of(&home).as_path(), "/home/u/Downloads");
    let roots = default_roots(dir("/work"), dir("/home/u"));
    assert_eq!(texts(&roots), vec!["/work", "/home/u/Downloads", "/home/u"]);
    let roots = default_roots(None, dir("/home/u/"));
    assert_eq!(texts(&roots), vec!["/home/u/Downloads", "/home/u/"]);
    let roots = default_roots(dir("/work"), None);
    assert_eq!(texts(&roots), vec!["/work"]);
    assert!(default_roots(None, None).is_empty());
}

#[test]
fn roots_written_two_ways_are_one_root() {
    let roots = vec![
        root("/home/u/", None),
        root("/home/u", None),
        root("/home//u/Downloads", None),
    ];
    let out = normalize_roots(roots, dir("/home/u"), dir("/home/u/Downloads/"));
    assert_eq!(texts(&out), vec!["/home//u/Downloads"]);
}

#[test]
fn scan_of_nothing_is_nothing() {
    assert!(scan(vec![], "x", 0).is_empty());
}

#[test]
fn ranking_keeps_every_candidate() {
    let ranked = rank_candidates(vec![
        file("/b.iso", 1, Some(1)),
        file("/a.iso", 1, Some(1)),
        file("/a.iso", 1, Some(1)),
    ]);
    assert_eq!(paths(&ranked), vec!["/a.iso", "/a.iso", "/b.iso"]);
}

#[test]
fn extension_decides_what_an_image_is() {
    assert!(has_iso_extension("/x/a.iso"));
    assert!(has_iso_extension("a.IMG"));
    assert!(has_iso_extension("/x.d/b.raw"));
    assert!(has_iso_extension("a.b.iso"));
    assert!(!has_iso_extension("/x/a.isox"));
    assert!(!has_iso_extension("/x/iso"));
    assert!(!has_iso_extension("/x/.iso"));
    assert!(!has_iso_extension("/x.iso/readme"));
    assert!(has_iso_extension("/x/a.iso/"));
    assert!(has_iso_extension("/x/a.iso/."));
    assert!(!has_iso_extension("/x/a.iso/.."));
    assert!(!has_iso_extension(""));
    assert!(!has_iso_extension("a."));
}

#[test]
fn extension_is_found_as_the_platform_finds_it() {
    let samples = [
        "", "/", ".", "..", "a", "a.iso", ".iso", "..iso", "a.ISO", "a.Img", "a.raw", "a.rawx",
        "a.iso.gz", "a.b.iso", "/x/a.iso", "/x/a.iso/", "/x//a.iso//", "/x/a.iso/.", "/x/a.iso/..",
        "/x.iso/a", "/x.iso/a.", "x.iso/.hidden", "iso", "a.", "/d/é.iso", "/d/a.isо",
    ];
    for p in samples {
        let by_platform = std::path::Path::new(p)
            .extension()
            .and_then(|e| e.to_str())
            .map(|e| e.to_ascii_lowercase())
            .map_or(false, |e| e == "iso" || e == "img" || e == "raw");
        assert_eq!(has_iso_extension(p), by_platform, "for {:?}", p);
    }
}

#[test]
fn filter_ignores_ascii_case_and_accepts_the_empty_query() {
    assert!(matches_filter("Ubuntu-24.04.iso", ""));
    assert!(matches_filter("Ubuntu-24.04.iso", "ubuntu"));
    assert!(matches_filter("ubuntu-24.04.iso", "UBUNTU"));
    assert!(matches_filter("ubuntu-24.04.iso", ".iso"));
    assert!(!matches_filter("ubuntu-24.04.iso", "debian"));
    assert!(!matches_filter("iso", "isos"));
    assert!(!matches_filter("", "a"));
}

fn entry(name: &str, kind: Option<EntryKind>, leads_to_directory: bool) -> DirEntry {
    DirEntry { name: name.to_string(), kind, leads_to_directory }
}

#[test]
fn walk_prunes_hidden_directories_and_never_follows_links() {
    let dir = Some(EntryKind::Directory);
    assert_eq!(judge(&entry("sub", dir, true), 0, 5, ""), Visit::Descend);
    assert_eq!(judge(&entry(".cache", dir, true), 0, 5, ""), Visit::Skip);
    assert_eq!(judge(&entry("link", Some(EntryKind::Symlink), true), 0, 5, ""), Visit::Skip);
    assert_eq!(judge(&entry("link.iso", Some(EntryKind::Symlink), false), 0, 5, ""), Visit::Skip);
    assert_eq!(judge(&entry(".hidden-link", Some(EntryKind::Symlink), true), 0, 5, ""), Visit::Skip);
    assert_eq!(judge(&entry("pipe.iso", Some(EntryKind::Other), false), 0, 5, ""), Visit::Skip);
    assert_eq!(judge(&entry("a.iso", None, false), 0, 5, ""), Visit::Skip);
}

#[test]
fn walk_stops_at_the_depth_limit() {
    let dir = Some(EntryKind::Directory);
    assert_eq!(judge(&entry("sub", dir, true), 4, 5, ""), Visit::Descend);
    assert_eq!(judge(&entry("sub", dir, true), 5, 5, ""), Visit::Skip);
    assert_eq!(judge(&entry("sub", dir, true), 0, 0, ""), Visit::Skip);
    assert_eq!(judge(&entry("a.iso", Some(EntryKind::File), false), 5, 5, ""), Visit::Inspect);
}

#[test]
fn walk_inspects_only_matching_images() {
    let f = Some(EntryKind::File);
    assert_eq!(judge(&entry("a.iso", f, false), 0, 5, ""), Visit::Inspect);
    assert_eq!(judge(&entry(".hidden.iso", f, false), 0, 5, ""), Visit::Inspect);
    assert_eq!(judge(&entry("a.iso", f, false), 0, 5, "deb"), Visit::Skip);
    assert_eq!(judge(&entry("a.txt", f, false), 0, 5, ""), Visit::Skip);
}

fn root(path: &str, canonical: Option<&str>) -> Root {
    Root {
        path: DirPath::from(String::from(path)),
        canonical: canonical.map(|c| DirPath::from(String::from(c))),
    }
}

fn dir(path: &str) -> Option<DirPath> {
    Some(DirPath::from(String::from(path)))
}

fn texts(list: &[DirPath]) -> Vec<&str> {
    list.iter().map(|p| p.as_path()).collect()
}

#[test]
fn roots_drop_home_when_downloads_is_scanned() {
    let roots = vec![
        root("/work", Some("/work")),
        root("/home/u/Downloads", Some("/home/u/Downloads")),
        root("/home/u", Some("/home/u")),
    ];
    let out = normalize_roots(roots, dir("/home/u"), dir("/home/u/Downloads"));
    assert_eq!(texts(&out), vec!["/work", "/home/u/Downloads"]);
}

#[test]
fn roots_keep_home_without_downloads() {
    let roots = vec![root("/work", Some("/work")), root("/home/u", Some("/home/u"))];
    let out = normalize_roots(roots, dir("/home/u"), None);
    assert_eq!(texts(&out), vec!["/work", "/home/u"]);
    let roots = vec![root("/work", Some("/work")), root("/home/u", Some("/home/u"))];
    let out = normalize_roots(roots, dir("/home/u"), dir("/home/u/Downloads"));
    assert_eq!(texts(&out), vec!["/work", "/home/u"]);
}

#[test]
fn roots_are_told_apart_by_canonical_path() {
    let roots = vec![
        root(".", Some("/home/u")),
        root("/home/u/Downloads", None),
        root("/home/u", Some("/home/u")),
        root("/link/to/downloads", Some("/home/u/Downloads")),
    ];
    let out = normalize_roots(roots, None, None);
    assert_eq!(texts(&out), vec![".", "/home/u/Downloads"]);

    let roots = vec![
        root(".", Some("/home/u")),
        root("/home/u/Downloads", Some("/home/u/Downloads")),
        root("/home/u", Some("/home/u")),
    ];
    let out = normalize_roots(roots, dir("/home/u"), dir("/home/u/Downloads"));
    assert_eq!(texts(&out), vec!["/home/u/Downloads"]);
}

#[test]
fn no_roots_give_no_roots() {
    assert!(normalize_roots(vec![], dir("/h"), dir("/h/Downloads")).is_empty());
}
