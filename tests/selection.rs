use project_dashboard::detect::{detect, ProjectMarkers};
use project_dashboard::selection::{
    answers_yes, choose_run_command, index_after_removal, is_skipped_dir, next_index, parse_import_selection,
    previous_index, wants_port,
};
use project_dashboard::sync_flow::{next_push_step, push_command, PushStep};
use project_dashboard::text::name_matches;

#[test]
fn navigation_wraps() {
    assert_eq!(next_index(Some(0), 3), Some(1));
    assert_eq!(next_index(Some(2), 3), Some(0));
    assert_eq!(next_index(None, 3), Some(0));
    assert_eq!(next_index(Some(7), 3), Some(2));
    assert_eq!(next_index(Some(1), 0), Some(1));
    assert_eq!(previous_index(Some(0), 3), Some(2));
    assert_eq!(previous_index(Some(2), 3), Some(1));
    assert_eq!(previous_index(None, 3), Some(0));
}

#[test]
fn selection_after_removal() {
    assert_eq!(index_after_removal(0, 0), None);
    assert_eq!(index_after_removal(3, 3), Some(2));
    assert_eq!(index_after_removal(1, 3), Some(1));
}

#[test]
fn run_command_choice() {
    let js = detect(
        &ProjectMarkers { package_json: true, ..ProjectMarkers::default() },
        Some(r#"{"scripts": {"dev": "vite"}}"#),
    )
    .unwrap();
    assert_eq!(choose_run_command(None, Some(&js)), Some("npm run dev".to_string()));
    assert_eq!(choose_run_command(Some("make serve".to_string()), Some(&js)), Some("make serve".to_string()));
    assert_eq!(choose_run_command(None, None), None);
    assert!(wants_port(Some(&js)));
    let rust = detect(&ProjectMarkers { cargo_toml: true, ..ProjectMarkers::default() }, None).unwrap();
    assert!(!wants_port(Some(&rust)));
    assert!(!wants_port(None));
}

#[test]
fn scan_skips() {
    assert!(is_skipped_dir(".git"));
    assert!(is_skipped_dir("node_modules"));
    assert!(is_skipped_dir("__pycache__"));
    assert!(is_skipped_dir("target"));
    assert!(!is_skipped_dir("myapp"));
    assert!(!is_skipped_dir(""));
}

#[test]
fn filter_matching() {
    assert!(name_matches("MyRepo", ""));
    assert!(name_matches("MyRepo", "repo"));
    assert!(name_matches("MyRepo", "YR"));
    assert!(!name_matches("MyRepo", "xyz"));
}

#[test]
fn import_prompt_answers() {
    assert!(answers_yes("\n"));
    assert!(answers_yes(" Y \n"));
    assert!(!answers_yes("n\n"));
    assert_eq!(parse_import_selection("all\n", 3), vec![0, 1, 2]);
    assert_eq!(parse_import_selection("none\n", 3), Vec::<usize>::new());
    assert_eq!(parse_import_selection("2, 1, 9, x, 0\n", 3), vec![1, 0]);
    assert_eq!(parse_import_selection("", 3), Vec::<usize>::new());
}

#[test]
fn publishing_steps() {
    let mut step = PushStep::Stage;
    let outcomes = [true, false, true, false, true, true];
    let mut commands = Vec::new();
    for ok in outcomes {
        let args = push_command(step, "sync").unwrap();
        commands.push(args.join(" "));
        step = next_push_step(step, ok);
    }
    assert_eq!(step, PushStep::Done);
    assert_eq!(
        commands,
        vec![
            "add projects.db",
            "diff --cached --quiet",
            "commit -m sync",
            "push origin main",
            "pull --rebase origin main",
            "push origin main",
        ]
    );
    assert!(push_command(PushStep::Done, "x").is_none());
    assert_eq!(next_push_step(PushStep::CheckStaged, true), PushStep::Done);
    assert_eq!(next_push_step(PushStep::Commit, false), PushStep::Failed);
    assert_eq!(next_push_step(PushStep::Failed, true), PushStep::Failed);
}
