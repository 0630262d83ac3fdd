use strace_copy::path::{usrmerge, FsPath};
use strace_copy::replicate::plan_replication;

fn plan(src: &str, canon: &str, prefix: &str, dest: &str, link: bool) -> Option<(String, Option<(String, String)>)> {
    plan_replication(
        &FsPath::parse(src),
        &FsPath::parse(canon),
        &FsPath::parse(prefix),
        &FsPath::parse(dest),
        link,
    )
    .map(|p| (p.copy_to.render(), p.link.map(|l| (l.at.render(), l.target.render()))))
}

#[test]
fn content_goes_under_destination() {
    assert_eq!(plan("/usr/lib/x.so", "/usr/lib/x.so", "/usr/", "/dst", false), Some(("/dst/lib/x.so".to_string(), None)));
}

#[test]
fn outside_prefix_is_skipped() {
    assert_eq!(plan("/etc/x", "/etc/x", "/usr/", "/dst", false), None);
    assert_eq!(plan("/usr/lib/x", "/opt/x", "/usr/", "/dst", true), None);
}

#[test]
fn symlink_is_rebuilt_relative() {
    assert_eq!(
        plan("/usr/lib/libfoo.so", "/usr/lib/libfoo.so.1.2", "/usr", "/dst", true),
        Some(("/dst/lib/libfoo.so.1.2".to_string(), Some(("/dst/lib/libfoo.so".to_string(), "libfoo.so.1.2".to_string()))))
    );
    assert_eq!(
        plan("/usr/bin/cc", "/usr/lib/gcc/cc1", "/usr", "/dst", true),
        Some(("/dst/lib/gcc/cc1".to_string(), Some(("/dst/bin/cc".to_string(), "../lib/gcc/cc1".to_string()))))
    );
}

#[test]
fn no_link_without_a_direct_symlink() {
    assert_eq!(plan("/usr/lib64/x", "/usr/lib/x", "/usr", "/dst", false), Some(("/dst/lib/x".to_string(), None)));
}

#[test]
fn no_link_when_source_is_outside_prefix() {
    assert_eq!(plan("/opt/x", "/usr/lib/x", "/usr", "/dst", true), Some(("/dst/lib/x".to_string(), None)));
}

#[test]
fn libc_through_lib_is_copied_once_merged() {
    let src = usrmerge(&FsPath::parse("/lib/libc.so.6"));
    let r = plan_replication(&src, &FsPath::parse("/usr/lib/libc.so.6"), &FsPath::parse("/usr/"), &FsPath::parse("/dst"), false).unwrap();
    assert_eq!(r.copy_to.render(), "/dst/lib/libc.so.6");
    assert!(r.link.is_none());
}

#[test]
fn planning_twice_gives_the_same_plan() {
    let a = plan("/usr/lib/libfoo.so", "/usr/lib/libfoo.so.1.2", "/usr", "/dst", true);
    let b = plan("/usr/lib/libfoo.so", "/usr/lib/libfoo.so.1.2", "/usr", "/dst", true);
    assert_eq!(a, b);
}

#[test]
fn link_through_lib_points_at_usr_lib() {
    assert_eq!(
        plan("/lib/libc.so.6", "/usr/lib/libc.so.6", "/", "/dst", true),
        Some(("/dst/usr/lib/libc.so.6".to_string(), Some(("/dst/lib/libc.so.6".to_string(), "../usr/lib/libc.so.6".to_string()))))
    );
}

#[test]
fn no_link_into_its_own_directory() {
    assert_eq!(plan("/usr/a/b", "/usr/a", "/usr", "/dst", true), Some(("/dst/a".to_string(), None)));
}
