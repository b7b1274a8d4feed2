use project_dashboard::git_status::{
    branch_from_output, parse_ahead_behind, parse_count, parse_porcelain, status_from_git_output,
};

#[test]
fn porcelain_counts() {
    let c = parse_porcelain(b"M  a.rs\n M b.rs\n?? c.rs\nA  d.rs\nMD e.rs\n");
    assert_eq!(c.staged, 3);
    assert_eq!(c.modified, 2);
    assert_eq!(c.untracked, 1);
}

#[test]
fn porcelain_short_lines_and_crlf() {
    let c = parse_porcelain(b"M\n\n M\r\nX");
    assert_eq!(c.staged, 0);
    assert_eq!(c.modified, 1);
    let c = parse_porcelain(b"A\r\n?\r");
    assert_eq!((c.staged, c.untracked), (0, 1));
    let c = parse_porcelain(b" M");
    assert_eq!(c.modified, 1);
    let c = parse_porcelain(b"");
    assert_eq!((c.staged, c.modified, c.untracked), (0, 0, 0));
}

#[test]
fn ahead_behind_counts() {
    assert_eq!(parse_ahead_behind("3\t5\n"), (3, 5));
    assert_eq!(parse_ahead_behind("x 2"), (0, 2));
    assert_eq!(parse_ahead_behind("1"), (0, 0));
    assert_eq!(parse_ahead_behind("1 2 3"), (0, 0));
}

#[test]
fn decimal_counts() {
    assert_eq!(parse_count("42"), Some(42));
    assert_eq!(parse_count("+7"), Some(7));
    assert_eq!(parse_count(""), None);
    assert_eq!(parse_count("+"), None);
    assert_eq!(parse_count("-1"), None);
    assert_eq!(parse_count("18446744073709551615"), Some(usize::MAX));
    assert_eq!(parse_count("18446744073709551616"), None);
}

#[test]
fn branch_names() {
    assert_eq!(branch_from_output("main\n"), "main");
    assert_eq!(branch_from_output("  \n"), "HEAD");
    assert_eq!(branch_from_output(""), "HEAD");
}

#[test]
fn status_assembly() {
    let s = status_from_git_output("dev\n", b"?? new\n", Some("2 1\n"));
    assert_eq!(s.branch, "dev");
    assert_eq!(s.untracked, 1);
    assert_eq!(s.behind, 2);
    assert_eq!(s.ahead, 1);
    let s = status_from_git_output("dev\n", b"", None);
    assert_eq!((s.ahead, s.behind), (0, 0));
}
