use strace_copy::path::{relative_path, usrmerge, FsPath};

fn merged(s: &str) -> String {
    usrmerge(&FsPath::parse(s)).render()
}

fn rel(from: &str, to: &str) -> String {
    relative_path(&FsPath::parse(from), &FsPath::parse(to)).render()
}

#[test]
fn usrmerge_moves_lib_under_usr() {
    assert_eq!(merged("/lib/x/y"), "/usr/lib/x/y");
    assert_eq!(merged("/lib/libc.so.6"), "/usr/lib/libc.so.6");
    assert_eq!(merged("/lib"), "/usr/lib");
}

#[test]
fn usrmerge_leaves_other_paths() {
    assert_eq!(merged("/etc/passwd"), "/etc/passwd");
    assert_eq!(merged("/libfoo/x"), "/libfoo/x");
    assert_eq!(merged("/usr/lib/x"), "/usr/lib/x");
    assert_eq!(merged("lib/x"), "lib/x");
}

#[test]
fn relative_path_to_deeper_sibling() {
    assert_eq!(rel("/a/b/c", "/a/b/d/e"), "../d/e");
}

#[test]
fn relative_path_to_shallower_target() {
    assert_eq!(rel("/a/b/c", "/a/x"), "../../x");
}

#[test]
fn relative_path_from_a_prefix() {
    assert_eq!(rel("/a/b", "/a/b/c"), "c");
    assert_eq!(rel("/a/b/c", "/a/b"), "..");
}

#[test]
fn parse_drops_empty_and_dot_components() {
    let p = FsPath::parse("//a/./b/");
    assert!(p.absolute);
    assert_eq!(p.comps, vec!["a".to_string(), "b".to_string()]);
    assert_eq!(p.render(), "/a/b");
    assert_eq!(FsPath::parse("a/../b").render(), "a/../b");
    assert_eq!(FsPath::parse("/").render(), "/");
    assert_eq!(FsPath::parse("").render(), "");
}

#[test]
fn strip_prefix_and_join() {
    let p = FsPath::parse("/usr/lib/x");
    let rest = p.strip_prefix(&FsPath::parse("/usr/")).unwrap();
    assert_eq!(rest, vec!["lib".to_string(), "x".to_string()]);
    assert_eq!(FsPath::parse("/dst").join(&rest).render(), "/dst/lib/x");
    assert!(p.strip_prefix(&FsPath::parse("/etc")).is_none());
    assert!(p.strip_prefix(&FsPath::parse("usr")).is_none());
    assert!(FsPath::parse("/usrx/lib").strip_prefix(&FsPath::parse("/usr")).is_none());
}
