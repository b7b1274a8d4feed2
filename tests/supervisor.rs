use project_dashboard::output::{OutputBuffer, MAX_OUTPUT_LINES};
use project_dashboard::supervisor::{parse_command, ProcessTable, StartError};

#[test]
fn output_buffer_keeps_most_recent_lines() {
    let mut buf = OutputBuffer::new();
    for i in 0..1005 {
        buf.push(format!("line {}", i));
    }
    let lines = buf.lines();
    assert_eq!(lines.len(), MAX_OUTPUT_LINES);
    assert_eq!(lines[0], "line 5");
    assert_eq!(lines[999], "line 1004");
}

#[test]
fn output_buffer_under_the_bound_keeps_everything() {
    let mut buf = OutputBuffer::new();
    buf.push("a".to_string());
    buf.push_stderr("oops");
    assert_eq!(buf.lines(), vec!["a".to_string(), "[stderr] oops".to_string()]);
    assert_eq!(buf.len(), 2);
}

#[test]
fn parse_command_splits_words() {
    let c = parse_command("  npm   run dev ").unwrap();
    assert_eq!(c.program, "npm");
    assert_eq!(c.args, vec!["run".to_string(), "dev".to_string()]);
    let c = parse_command("sleep").unwrap();
    assert_eq!(c.program, "sleep");
    assert!(c.args.is_empty());
}

#[test]
fn parse_command_refuses_empty() {
    assert_eq!(parse_command("").unwrap_err(), StartError::EmptyCommand);
    assert_eq!(parse_command(" \t ").unwrap_err(), StartError::EmptyCommand);
}

#[test]
fn start_records_port_and_output() {
    let mut t: ProcessTable<u32, OutputBuffer> = ProcessTable::new();
    assert!(t.track("web".to_string(), 7, Some(3001), OutputBuffer::new()).is_none());
    assert!(t.is_tracked("web"));
    assert_eq!(t.get_port("web"), Some(3001));
    assert_eq!(t.handle("web"), Some(&7));
    assert!(t.output("web").is_some());
    assert_eq!(t.get_port("api"), None);
    assert_eq!(t.running_projects(), vec!["web".to_string()]);
}

#[test]
fn double_start_hands_back_previous_handle() {
    let mut t: ProcessTable<u32, OutputBuffer> = ProcessTable::new();
    t.track("web".to_string(), 1, None, OutputBuffer::new());
    let prev = t.track("web".to_string(), 2, Some(4000), OutputBuffer::new());
    assert_eq!(prev, Some(1));
    assert_eq!(t.handle("web"), Some(&2));
    assert_eq!(t.running_projects().len(), 1);
}

#[test]
fn stop_untracked_is_a_no_op() {
    let mut t: ProcessTable<u32, OutputBuffer> = ProcessTable::new();
    t.track("a".to_string(), 1, None, OutputBuffer::new());
    assert_eq!(t.untrack("nobody"), None);
    assert!(t.is_tracked("a"));
    assert_eq!(t.running_projects(), vec!["a".to_string()]);
}

#[test]
fn stop_twice_succeeds() {
    let mut t: ProcessTable<u32, OutputBuffer> = ProcessTable::new();
    t.track("a".to_string(), 1, Some(5000), OutputBuffer::new());
    assert_eq!(t.untrack("a"), Some(1));
    assert_eq!(t.untrack("a"), None);
    assert!(!t.is_tracked("a"));
    assert!(t.output("a").is_none());
    assert_eq!(t.get_port("a"), None);
}

#[test]
fn reap_removes_exited_and_their_output() {
    let mut t: ProcessTable<u32, OutputBuffer> = ProcessTable::new();
    let mut out = OutputBuffer::new();
    out.push("hello".to_string());
    t.track("demo".to_string(), 1, None, out);
    t.track("srv".to_string(), 2, None, OutputBuffer::new());
    t.reap(&vec!["demo".to_string()]);
    assert!(!t.is_tracked("demo"));
    assert!(t.is_tracked("srv"));
    assert_eq!(t.running_projects(), vec!["srv".to_string()]);
    assert!(t.output("demo").is_none());
    assert!(t.output("srv").is_some());
    assert_eq!(t.untrack("demo"), None);
    assert!(t.is_tracked("srv"));
}

#[test]
fn demo_process_output_then_reaped() {
    let mut t: ProcessTable<u32, OutputBuffer> = ProcessTable::new();
    let cmd = parse_command("echo hello").unwrap();
    assert_eq!(cmd.program, "echo");
    t.track("demo".to_string(), 42, None, OutputBuffer::new());
    let mut buf = t.output("demo").unwrap().clone();
    buf.push("hello".to_string());
    t.track("demo".to_string(), 42, None, buf);
    assert!(t.output("demo").unwrap().lines().iter().any(|l| l == "hello"));
    t.reap(&vec!["demo".to_string()]);
    assert!(!t.running_projects().contains(&"demo".to_string()));
    assert!(t.output("demo").is_none());
}

#[test]
fn long_running_process_stopped() {
    let mut t: ProcessTable<u32, OutputBuffer> = ProcessTable::new();
    t.track("srv".to_string(), 9, None, OutputBuffer::new());
    assert!(t.is_tracked("srv"));
    assert_eq!(t.untrack("srv"), Some(9));
    assert!(!t.is_tracked("srv"));
}
