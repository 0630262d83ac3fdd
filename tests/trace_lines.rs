use strace_copy::trace::{extract_path, parse_line, scan_lines, strace_line_to_path, LineOutcome, ParsedLine};

fn candidate(line: &str) -> Option<String> {
    match strace_line_to_path(line) {
        LineOutcome::Candidate(p) => Some(p),
        _ => None,
    }
}

fn is_ignored(line: &str) -> bool {
    matches!(strace_line_to_path(line), LineOutcome::Ignored)
}

fn is_malformed(line: &str) -> bool {
    matches!(strace_line_to_path(line), LineOutcome::Malformed)
}

#[test]
fn openat_takes_second_argument() {
    assert_eq!(candidate("openat(3, \"/a\", O_RDONLY) = 5"), Some("/a".to_string()));
}

#[test]
fn newfstatat_takes_second_argument() {
    assert_eq!(candidate("newfstatat(3, \"/a\", {st_mode=S_IFREG|0644}, 0) = 0"), Some("/a".to_string()));
}

#[test]
fn open_takes_first_argument() {
    assert_eq!(candidate("open(\"/a\", O_RDONLY) = 5"), Some("/a".to_string()));
}

#[test]
fn execve_takes_first_argument() {
    assert_eq!(candidate("execve(\"/a\", [\"a\"], 0x7ffc /* 3 vars */) = 0"), Some("/a".to_string()));
}

#[test]
fn readlink_takes_first_argument() {
    assert_eq!(candidate("readlink(\"/proc/self/exe\", \"/usr/bin/x\", 4096) = 10"), Some("/proc/self/exe".to_string()));
}

#[test]
fn leading_pid_is_accepted() {
    assert_eq!(
        candidate("1234 openat(AT_FDCWD, \"/lib/libc.so.6\", O_RDONLY|O_CLOEXEC) = 3"),
        Some("/lib/libc.so.6".to_string())
    );
}

#[test]
fn unlisted_syscalls_give_nothing() {
    assert!(is_ignored("close(3) = 0"));
    assert!(is_ignored("stat(\"/a\", {st_mode=S_IFREG|0644}) = 0"));
    assert!(is_ignored("access(\"/etc/ld.so.preload\", R_OK) = -1 ENOENT (No such file or directory)"));
    assert!(is_ignored("syscall_0x1b6(0x1, 0x2) = 0"));
}

#[test]
fn exit_names_give_nothing() {
    assert!(is_ignored("exit(0) = 0"));
    assert!(is_ignored("exit_group(0) = 0"));
}

#[test]
fn failed_calls_give_nothing() {
    assert!(is_ignored("openat(AT_FDCWD, \"/nope\", O_RDONLY) = -1 ENOENT (No such file or directory)"));
    assert!(is_ignored("open(\"/nope\", O_RDONLY) = -1 ENOENT"));
    assert!(is_ignored("execve(\"/nope\", [\"nope\"], 0x0) = -1 ENOENT"));
}

#[test]
fn other_negative_codes_still_give_the_path() {
    assert_eq!(candidate("open(\"/a\", O_RDONLY) = -2"), Some("/a".to_string()));
}

#[test]
fn malformed_return_code_is_reported() {
    assert!(is_malformed("openat(AT_FDCWD, \"/a\", O_RDONLY) = ?"));
    assert!(is_malformed("open(\"/a\", O_RDONLY) = 99999999999999999999"));
    assert!(is_malformed("open(\"/a\", O_RDONLY) = -"));
}

#[test]
fn signed_and_extreme_codes_are_integers() {
    assert_eq!(candidate("open(\"/a\", O_RDONLY) = +5"), Some("/a".to_string()));
    assert_eq!(candidate("open(\"/a\", O_RDONLY) = 9223372036854775807"), Some("/a".to_string()));
    assert_eq!(candidate("open(\"/a\", O_RDONLY) = -9223372036854775808"), Some("/a".to_string()));
    assert!(is_malformed("open(\"/a\", O_RDONLY) = 9223372036854775808"));
}

#[test]
fn lines_of_other_shapes_are_ignored() {
    assert!(is_ignored("+++ exited with 0 +++"));
    assert!(is_ignored("--- SIGCHLD {si_signo=SIGCHLD, si_code=CLD_EXITED} ---"));
    assert!(is_ignored(""));
    assert!(is_ignored("openat() = 3"));
    assert!(is_ignored("openat(3, \"/a\") =3"));
}

#[test]
fn missing_path_argument_gives_nothing() {
    assert!(is_ignored("openat(\"/a\") = 3"));
}

#[test]
fn comma_inside_an_argument_splits_it() {
    assert_eq!(candidate("openat(AT_FDCWD, \"/a,b\", O_RDONLY) = 3"), Some("/a".to_string()));
}

#[test]
fn malformed_line_does_not_stop_the_scan() {
    let lines = vec![
        "open(\"/a\", O_RDONLY) = 3".to_string(),
        "open(\"/b\", O_RDONLY) = ?".to_string(),
        "close(3) = 0".to_string(),
        "open(\"/c\", O_RDONLY) = 4".to_string(),
    ];
    let out = scan_lines(&lines);
    assert_eq!(out.len(), 4);
    assert!(matches!(&out[0], LineOutcome::Candidate(p) if p == "/a"));
    assert!(matches!(&out[1], LineOutcome::Malformed));
    assert!(matches!(&out[2], LineOutcome::Ignored));
    assert!(matches!(&out[3], LineOutcome::Candidate(p) if p == "/c"));
}

#[test]
fn parse_line_splits_and_trims_arguments() {
    match parse_line("42 openat(AT_FDCWD, \"/etc/ld.so.cache\", O_RDONLY|O_CLOEXEC) = 3 <0.000012>") {
        ParsedLine::Record(rec) => {
            assert_eq!(rec.pid, Some(42));
            assert_eq!(rec.name, "openat");
            assert_eq!(rec.args, vec!["AT_FDCWD".to_string(), "/etc/ld.so.cache".to_string(), "O_RDONLY|O_CLOEXEC".to_string()]);
            assert_eq!(rec.code, 3);
            assert_eq!(extract_path(&rec), Some("/etc/ld.so.cache".to_string()));
        }
        _ => panic!("expected a record"),
    }
    assert!(matches!(parse_line("exit_group(0) = ?"), ParsedLine::BadCode));
    assert!(matches!(parse_line("no call here"), ParsedLine::NoMatch));
}

#[test]
fn process_id_is_read_when_present() {
    let pid_of = |line: &str| match parse_line(line) {
        ParsedLine::Record(rec) => rec.pid,
        _ => panic!("expected a record"),
    };
    assert_eq!(pid_of("1234  open(\"/a\", O_RDONLY) = 3"), Some(1234));
    assert_eq!(pid_of("open(\"/a\", O_RDONLY) = 3"), None);
    assert_eq!(pid_of("[pid 12] open(\"/a\", O_RDONLY) = 3"), None);
}
