use os_paths::{is_absolute, relative, resolve, resolve_n, resolve_one, OsPathManipulation};

#[test]
fn test() {
    assert_eq!(
        r"\\Whack/a/Box",
        resolve_n(
            &["foo", r"\\Whack////a//Box", "..", "Box"],
            OsPathManipulation::Windows
        )
    );
    assert_eq!("C:/a", resolve("C:/", "a", OsPathManipulation::Windows));
    assert_eq!("D:/", resolve("C:/", "D:/", OsPathManipulation::Windows));
    assert_eq!("D:/a", resolve_one("D:/a", OsPathManipulation::Windows));
    assert_eq!(
        "C:/a/f/b",
        resolve("a", "C:/a///f//b", OsPathManipulation::Windows)
    );
    assert_eq!("", relative("C:/", "C:/", OsPathManipulation::Windows));
    assert_eq!("", relative("C:/foo", "C:/foo", OsPathManipulation::Windows));
    assert_eq!(r"\\foo", relative("C:/", r"\\foo", OsPathManipulation::Windows));
    assert_eq!(
        "../../foo",
        relative(r"\\a/b", r"\\foo", OsPathManipulation::Windows)
    );
    assert_eq!("D:/", relative("C:/", r"D:", OsPathManipulation::Windows));
}

#[test]
fn idempotence_examples() {
    for p in [
        "a/./b/../c",
        "/x//y/",
        "",
        "..",
        "C:/a/../b",
        r"\\srv\share\f",
        "foo/bar",
        "./c:/rest",
    ] {
        for m in [OsPathManipulation::Default, OsPathManipulation::Windows] {
            let once = resolve_one(p, m);
            let twice = resolve_one(once.as_str(), m);
            assert_eq!(once, twice);
        }
    }
}

#[test]
fn absolute_override_examples() {
    let m = OsPathManipulation::Default;
    assert_eq!(resolve_one("/abs/q", m), resolve("x/y", "/abs/q", m));
    let w = OsPathManipulation::Windows;
    assert_eq!(resolve_one("C:/x", w), resolve("foo", "C:/x", w));
    assert_eq!(resolve_one(r"\\srv/s", w), resolve("D:/other", r"\\srv/s", w));
}

#[test]
fn empty_fold() {
    assert_eq!("", resolve_n(&[], OsPathManipulation::Default));
    assert_eq!("", resolve_n(&[], OsPathManipulation::Windows));
}

#[test]
fn single_path_fold() {
    assert_eq!("foo", resolve_n(&["foo"], OsPathManipulation::Windows));
    assert_eq!("a/b", resolve_n(&["a//b"], OsPathManipulation::Default));
    assert_eq!("D:/a", resolve_n(&["D:/a"], OsPathManipulation::Windows));
}

#[test]
fn self_relative() {
    assert_eq!("", relative("/a/b", "/a/b", OsPathManipulation::Default));
    assert_eq!("", relative(r"\\s/x", r"\\s/x", OsPathManipulation::Windows));
}

#[test]
fn generic_resolution() {
    let m = OsPathManipulation::Default;
    assert_eq!("a/b/c", resolve("a/b", "c", m));
    assert_eq!("/a/b", resolve("/a/", "b", m));
    assert_eq!("/b", resolve("a", "/b", m));
    assert_eq!("x/y", resolve_one("./x/./y", m));
    assert_eq!("", resolve("", "", m));
    assert_eq!("..", resolve("a/b", "../../..", m));
}

#[test]
fn dotdot_at_root_retained() {
    let m = OsPathManipulation::Default;
    assert_eq!("/..", resolve("/", "..", m));
    assert_eq!("../x", resolve_one("../x", m));
}

#[test]
fn absoluteness() {
    let d = OsPathManipulation::Default;
    let w = OsPathManipulation::Windows;
    assert!(is_absolute("/x", d));
    assert!(is_absolute(r"\x", d));
    assert!(!is_absolute("C:", d));
    assert!(!is_absolute("x/y", d));
    assert!(!is_absolute("", d));
    assert!(is_absolute("C:", w));
    assert!(is_absolute("c:stuff", w));
    assert!(is_absolute(r"\\", w));
    assert!(is_absolute("/", w));
    assert!(is_absolute(r"\x", w));
    assert!(!is_absolute("x", w));
    assert!(!is_absolute("", w));
    assert!(!is_absolute(r"/\x", w));
}

#[test]
fn prefix_clash_prefers_later() {
    let w = OsPathManipulation::Windows;
    assert_eq!("D:/x", resolve(r"\\srv/sh", "D:x", w));
    assert_eq!(r"\\a/b", resolve("C:/c", r"\\a\b", w));
}

#[test]
fn drive_relative_forms() {
    let w = OsPathManipulation::Windows;
    assert_eq!("C:/", resolve_one("C:", w));
    assert_eq!("c:/stuff", resolve_one("c:stuff", w));
    assert_eq!("x", relative("C:", "C:x", w));
}

#[test]
fn drive_lookalike_segment() {
    // a relative path may surface a drive-marker-looking segment at its
    // front when resolved; resolving that result roots it
    let w = OsPathManipulation::Windows;
    assert_eq!("c:", resolve_one("./c:", w));
    assert_eq!("c:/", resolve_one("c:", w));
    assert_eq!("c:/rest", resolve_one("./c:/rest", w));
}

#[test]
fn rooted_addition_takes_marker() {
    // a separator-rooted addition without its own marker borrows the base's
    let w = OsPathManipulation::Windows;
    assert_eq!("C:/foo", resolve("C:/x", "/foo", w));
    assert_eq!(r"\\foo", resolve(r"\\x/y", "/foo", w));
}

#[test]
fn cross_root_fallback_normalizes() {
    let w = OsPathManipulation::Windows;
    assert_eq!(r"\\s/t", relative("C:/a", r"\\s//t", w));
    assert_eq!("/b", relative("C:/a", "/b/", w));
}
