use project_dashboard::config::MachineConfig;
use project_dashboard::store::{ProjectEntry, ProjectStore};

fn entry(name: &str, path: &str) -> ProjectEntry {
    ProjectEntry { name: name.to_string(), repo_url: None, path: path.to_string(), run_command: None }
}

#[test]
fn test_add_and_remove() {
    let mut store = ProjectStore::default();

    store.add(ProjectEntry {
        name: "my-project".to_string(),
        repo_url: Some("https://github.com/user/my-project".to_string()),
        path: "/home/user/my-project".to_string(),
        run_command: None,
    });
    assert_eq!(store.projects.len(), 1);

    store.add(ProjectEntry {
        name: "my-project".to_string(),
        repo_url: None,
        path: "/other/path".to_string(),
        run_command: None,
    });
    assert_eq!(store.projects.len(), 1);

    store.remove("my-project");
    assert!(store.projects.is_empty());
}

#[test]
fn test_default_config() {
    let config = MachineConfig::default();
    assert!(config.install_dir.is_none());
}

#[test]
fn projects_kept_in_name_order() {
    let mut store = ProjectStore::default();
    store.add(entry("zeta", "/z"));
    store.add(entry("Alpha", "/a"));
    store.add(entry("beta", "/b"));
    let names: Vec<&str> = store.projects.iter().map(|p| p.name.as_str()).collect();
    assert_eq!(names, vec!["Alpha", "beta", "zeta"]);
}

#[test]
fn duplicate_names_ignore_ascii_case() {
    let mut store = ProjectStore::default();
    store.add(entry("Web", "/w"));
    store.add(entry("wEB", "/other"));
    assert_eq!(store.projects.len(), 1);
    assert_eq!(store.get("WEB").unwrap().path, "/w");
    assert!(store.get("api").is_none());
    store.remove("web");
    assert!(store.projects.is_empty());
}

#[test]
fn get_mut_changes_in_place() {
    let mut store = ProjectStore::default();
    store.add(entry("app", "/a"));
    store.get_mut("APP").unwrap().run_command = Some("npm start".to_string());
    assert_eq!(store.get("app").unwrap().run_command, Some("npm start".to_string()));
    assert!(store.get_mut("none").is_none());
    assert_eq!(store.index_of("App"), Some(0));
}

#[test]
fn loaded_store_is_sorted() {
    let store = ProjectStore::from_loaded(
        Some("~/Projects".to_string()),
        vec![entry("b", "/b"), entry("C", "/c"), entry("a", "/a")],
        true,
    );
    let names: Vec<&str> = store.projects.iter().map(|p| p.name.as_str()).collect();
    assert_eq!(names, vec!["a", "b", "C"]);
    assert!(store.is_first_run());
    assert!(!ProjectStore::default().is_first_run());
}

#[test]
fn install_dir_setting() {
    let mut config = MachineConfig::default();
    config.set_install_dir(Some("/srv/code".to_string()));
    assert_eq!(config.install_dir, Some("/srv/code".to_string()));
    config.set_install_dir(None);
    assert!(config.install_dir.is_none());
}
