use std::sync::mpsc;

use project_dashboard::detect::{detect, ProjectMarkers, ProjectType};
use project_dashboard::git_status::GitStatus;
use project_dashboard::git_worker::{GitStatusResult, GitWorker};

fn worker() -> (GitWorker, mpsc::Receiver<String>, mpsc::Sender<GitStatusResult>) {
    let (req_tx, req_rx) = mpsc::channel::<String>();
    let (res_tx, res_rx) = mpsc::channel::<GitStatusResult>();
    (GitWorker::new(req_tx, res_rx), req_rx, res_tx)
}

fn status(branch: &str, staged: usize) -> GitStatus {
    GitStatus { branch: branch.to_string(), staged, modified: 0, untracked: 0, ahead: 0, behind: 0 }
}

#[test]
fn request_reaches_the_worker() {
    let (w, req_rx, _res_tx) = worker();
    w.request("/tmp/p");
    assert_eq!(req_rx.try_recv().unwrap(), "/tmp/p");
}

#[test]
fn request_after_worker_gone_is_silent() {
    let (w, req_rx, _res_tx) = worker();
    drop(req_rx);
    w.request("/tmp/p");
}

#[test]
fn poll_ingests_results() {
    let (mut w, _req_rx, res_tx) = worker();
    assert!(!w.poll());
    assert!(w.is_stale("/p"));
    res_tx
        .send(GitStatusResult { path: "/p".to_string(), git_status: Some(status("main", 2)), detection: None })
        .unwrap();
    assert!(w.poll());
    assert_eq!(w.get_git_status("/p").unwrap().branch, "main");
    assert_eq!(w.get_git_status("/p").unwrap().staged, 2);
    assert!(w.get_detection("/p").is_none());
    assert!(!w.is_stale("/p"));
    assert!(!w.poll());
}

#[test]
fn staleness_window() {
    let (mut w, _req_rx, _res_tx) = worker();
    w.ingest(GitStatusResult { path: "/p".to_string(), git_status: None, detection: None }, 1000);
    assert!(!w.is_stale_at("/p", 1000));
    assert!(!w.is_stale_at("/p", 31999));
    assert!(w.is_stale_at("/p", 32000));
    assert!(w.is_stale_at("/other", 1000));
    assert!(!w.is_stale_at("/p", 500));
}

#[test]
fn later_probe_of_same_path_wins() {
    let (mut w, _req_rx, _res_tx) = worker();
    let results = vec![
        GitStatusResult { path: "/p".to_string(), git_status: Some(status("old", 1)), detection: None },
        GitStatusResult { path: "/q".to_string(), git_status: Some(status("q", 0)), detection: None },
        GitStatusResult { path: "/p".to_string(), git_status: Some(status("new", 5)), detection: None },
    ];
    assert!(w.ingest_all(results, 10));
    assert_eq!(w.get_git_status("/p").unwrap().branch, "new");
    assert_eq!(w.get_git_status("/p").unwrap().staged, 5);
    assert_eq!(w.get_git_status("/q").unwrap().branch, "q");
    assert!(!w.ingest_all(Vec::new(), 20));
}

#[test]
fn invalidate_all_clears_cache() {
    let (mut w, _req_rx, _res_tx) = worker();
    w.ingest(GitStatusResult { path: "/p".to_string(), git_status: Some(status("m", 0)), detection: None }, 0);
    w.invalidate_all();
    assert!(w.get_git_status("/p").is_none());
    assert!(w.is_stale_at("/p", 0));
}

#[test]
fn non_repo_has_no_status_and_cargo_is_rust() {
    let (mut w, _req_rx, res_tx) = worker();
    let detection = detect(&ProjectMarkers { cargo_toml: true, ..ProjectMarkers::default() }, None).ok();
    res_tx.send(GitStatusResult { path: "/plain".to_string(), git_status: None, detection }).unwrap();
    assert!(w.poll());
    assert!(w.get_git_status("/plain").is_none());
    let d = w.get_detection("/plain").unwrap();
    assert_eq!(d.project_type, ProjectType::Rust);
    assert!(!d.run_command.as_ref().unwrap().is_empty());
}
