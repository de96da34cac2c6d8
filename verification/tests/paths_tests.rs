use ferric::domain::paths::{path_before_or_same, path_components, same_path_text, Component};
use ferric::domain::{DevicePath, DirPath, IsoPath};
use std::path::Path;

#[test]
fn paths_hold_what_they_were_given() {
    let d = DirPath::new(String::from("/home/user"));
    assert_eq!(d.as_path(), "/home/user");
    assert_eq!(d.to_string(), "/home/user");
    assert_eq!(d.clone().into_inner(), "/home/user");
    let i = IsoPath::new(String::from("/a/b.iso"));
    assert_eq!(i.as_path(), "/a/b.iso");
    assert_eq!(i.clone(), IsoPath::from(String::from("/a/b.iso")));
    assert_eq!(i.into_inner(), "/a/b.iso");
    let v = DevicePath::new(String::from("/dev/sdb"));
    assert_eq!(v.as_path(), "/dev/sdb");
    assert_eq!(v.clone(), DevicePath::from(String::from("/dev/sdb")));
    assert_eq!(v.into_inner(), "/dev/sdb");
}

#[test]
fn join_puts_one_separator_between() {
    let home = DirPath::new(String::from("/home/user"));
    assert_eq!(home.join("Downloads").as_path(), "/home/user/Downloads");
    assert_eq!(DirPath::new(String::from("/home/user/")).join("Downloads").as_path(), "/home/user/Downloads");
    assert_eq!(home.join("/etc").as_path(), "/etc");
    assert_eq!(DirPath::new(String::new()).join("a").as_path(), "a");
    assert_eq!(DirPath::new(String::from("/")).join("a").as_path(), "/a");
    assert_eq!(home.join("").as_path(), "/home/user/");
}

#[test]
fn starts_with_counts_whole_components() {
    let d = DirPath::new(String::from("/home/user/Downloads"));
    assert!(d.starts_with(&DirPath::new(String::from("/home/user"))));
    assert!(d.starts_with(&DirPath::new(String::from("/home/user/"))));
    assert!(d.starts_with(&DirPath::new(String::from("/home/user/Downloads"))));
    assert!(d.starts_with(&DirPath::new(String::from("/"))));
    assert!(!d.starts_with(&DirPath::new(String::from("/home/use"))));
    assert!(!d.starts_with(&DirPath::new(String::from("/home/user/Downloads/x"))));
    assert!(!d.starts_with(&DirPath::new(String::from("/var"))));
}

#[test]
fn starts_with_ignores_trailing_and_repeated_separators() {
    let d = DirPath::new(String::from("/home/user"));
    assert!(d.starts_with(&DirPath::new(String::from("/home/user/"))));
    assert!(d.starts_with(&DirPath::new(String::from("/home//user"))));
    assert!(d.starts_with(&DirPath::new(String::from("//home/./user/."))));
    assert!(!d.starts_with(&DirPath::new(String::from("home/user"))));
    assert!(!d.starts_with(&DirPath::new(String::from("/home/user/.."))));
    let r = DirPath::new(String::from("a/b"));
    assert!(r.starts_with(&DirPath::new(String::from(""))));
    assert!(r.starts_with(&DirPath::new(String::from("a/"))));
    assert!(!r.starts_with(&DirPath::new(String::from("./a"))));
    assert!(!r.starts_with(&DirPath::new(String::from("/"))));
}

const SAMPLES: [&str; 34] = [
    "", "/", "//", ".", "..", "./", "./.", "/.", "/..", "a", "a/", "a//", "/a", "//a", "a/b",
    "a//b", "a/./b", "a/b/.", "./a/b", "a/../b", "/a/b", "/a/b/", "/a-b/x.iso", "/a/x.iso",
    "/a.b/x.iso", "/a b/x.iso", "/a/x.isO", "/A/x.iso", "/home/user", "/home/user/Downloads",
    "/home/use", "..a", "a..", "/é/x.iso",
];

fn std_names(path: &str) -> Vec<String> {
    Path::new(path)
        .components()
        .map(|c| match c {
            std::path::Component::RootDir => "<root>".to_string(),
            std::path::Component::CurDir => "<cur>".to_string(),
            std::path::Component::ParentDir => "<parent>".to_string(),
            std::path::Component::Normal(n) => n.to_string_lossy().into_owned(),
            std::path::Component::Prefix(_) => "<prefix>".to_string(),
        })
        .collect()
}

fn our_names(path: &str) -> Vec<String> {
    path_components(path)
        .into_iter()
        .map(|c| match c {
            Component::RootDir => "<root>".to_string(),
            Component::CurDir => "<cur>".to_string(),
            Component::ParentDir => "<parent>".to_string(),
            Component::Normal(n) => n,
        })
        .collect()
}

#[test]
fn components_are_those_of_the_platform() {
    for p in SAMPLES {
        assert_eq!(our_names(p), std_names(p), "for {:?}", p);
    }
    assert_eq!(our_names("/a//b/./c/../d/"), vec!["<root>", "a", "b", "c", "<parent>", "d"]);
    assert_eq!(our_names("./x"), vec!["<cur>", "x"]);
}

#[test]
fn paths_compare_as_the_platform_compares_them() {
    for a in SAMPLES {
        for b in SAMPLES {
            let (x, y) = (Path::new(a), Path::new(b));
            assert_eq!(path_before_or_same(a, b), x <= y, "order of {:?} and {:?}", a, b);
            assert_eq!(same_path_text(a, b), x == y, "sameness of {:?} and {:?}", a, b);
            assert_eq!(
                DirPath::new(a.to_string()).starts_with(&DirPath::new(b.to_string())),
                x.starts_with(y),
                "whether {:?} starts with {:?}",
                a,
                b
            );
        }
    }
    assert!(path_before_or_same("/a/x.iso", "/a-b/x.iso"));
    assert!(!path_before_or_same("/a-b/x.iso", "/a/x.iso"));
}

#[test]
fn derived_order_goes_by_text() {
    assert!(IsoPath::new(String::from("/a")) < IsoPath::new(String::from("/b")));
    assert!(DirPath::new(String::from("/a")) < DirPath::new(String::from("/a/b")));
}
