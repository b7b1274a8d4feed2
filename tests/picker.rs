use project_dashboard::picker::{PickerKey, RepoSelector};

fn repos() -> Vec<(String, String)> {
    vec![
        ("alpha".to_string(), "a.git".to_string()),
        ("Beta-App".to_string(), "b.git".to_string()),
        ("gamma".to_string(), "g.git".to_string()),
    ]
}

#[test]
fn picker_moves_and_picks() {
    let mut p = RepoSelector::new();
    assert!(!p.visible);
    p.show(repos());
    assert!(p.visible);
    assert_eq!(p.selected, Some(0));
    assert_eq!(p.handle_key(PickerKey::Up), None);
    assert_eq!(p.selected, Some(2));
    assert_eq!(p.handle_key(PickerKey::Char('j')), None);
    assert_eq!(p.selected, Some(0));
    assert_eq!(p.handle_key(PickerKey::Down), None);
    assert_eq!(p.handle_key(PickerKey::Enter), Some(("Beta-App".to_string(), "b.git".to_string())));
    assert!(!p.visible);
    assert!(p.repos.is_empty());
}

#[test]
fn picker_filters_ignoring_case() {
    let mut p = RepoSelector::new();
    p.show(repos());
    p.handle_key(PickerKey::Char('A'));
    p.handle_key(PickerKey::Char('p'));
    assert_eq!(p.filter, "Ap");
    assert_eq!(p.filtered(), vec![1]);
    assert_eq!(p.handle_key(PickerKey::Enter), Some(("Beta-App".to_string(), "b.git".to_string())));
}

#[test]
fn picker_backspace_and_escape() {
    let mut p = RepoSelector::new();
    p.show(repos());
    p.handle_key(PickerKey::Char('z'));
    assert!(p.filtered().is_empty());
    assert_eq!(p.handle_key(PickerKey::Enter), None);
    assert!(p.visible);
    p.handle_key(PickerKey::Backspace);
    assert_eq!(p.filter, "");
    assert_eq!(p.filtered(), vec![0, 1, 2]);
    assert_eq!(p.handle_key(PickerKey::Esc), None);
    assert!(!p.visible);
}
