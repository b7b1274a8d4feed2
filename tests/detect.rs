use project_dashboard::detect::{
    detect, detect_with_scripts, package_scripts, DetectError, PackageManager, ProjectMarkers, ProjectType,
};

#[test]
fn test_detect_js_with_pnpm() {
    let markers = ProjectMarkers { package_json: true, pnpm_lock: true, ..ProjectMarkers::default() };
    let detected = detect(&markers, Some(r#"{"scripts": {"dev": "vite"}}"#)).unwrap();
    assert_eq!(detected.package_manager, Some(PackageManager::Pnpm));
    assert_eq!(detected.run_command, Some("pnpm run dev".to_string()));
    assert_eq!(detected.project_type, ProjectType::JavaScript);
}

#[test]
fn test_detect_rust() {
    let markers = ProjectMarkers { cargo_toml: true, ..ProjectMarkers::default() };
    let detected = detect(&markers, None).unwrap();
    assert_eq!(detected.package_manager, Some(PackageManager::Cargo));
    assert_eq!(detected.run_command, Some("cargo run".to_string()));
    assert_eq!(detected.project_type, ProjectType::Rust);
}

#[test]
fn detect_go_and_python_projects() {
    let go = detect(&ProjectMarkers { go_mod: true, ..ProjectMarkers::default() }, None).unwrap();
    assert_eq!(go.package_manager, Some(PackageManager::Go));
    assert_eq!(go.run_command, Some("go run .".to_string()));
    assert_eq!(go.project_type, ProjectType::Go);

    let django = detect(
        &ProjectMarkers { manage_py: true, main_py: true, ..ProjectMarkers::default() },
        None,
    )
    .unwrap();
    assert_eq!(django.run_command, Some("python manage.py runserver".to_string()));
    assert_eq!(django.project_type, ProjectType::Python);

    let script = detect(&ProjectMarkers { main_py: true, ..ProjectMarkers::default() }, None).unwrap();
    assert_eq!(script.package_manager, Some(PackageManager::Python));
    assert_eq!(script.run_command, Some("python main.py".to_string()));
}

#[test]
fn detect_unknown_project() {
    let d = detect(&ProjectMarkers::default(), None).unwrap();
    assert_eq!(d.package_manager, None);
    assert_eq!(d.run_command, None);
    assert_eq!(d.project_type, ProjectType::Unknown);
}

#[test]
fn package_json_wins_over_cargo_toml() {
    let markers = ProjectMarkers { package_json: true, cargo_toml: true, ..ProjectMarkers::default() };
    let d = detect(&markers, Some(r#"{"name": "x"}"#)).unwrap();
    assert_eq!(d.project_type, ProjectType::JavaScript);
    assert_eq!(d.package_manager, Some(PackageManager::Npm));
    assert_eq!(d.run_command, None);
}

#[test]
fn lock_files_choose_the_manager() {
    let yarn = ProjectMarkers { package_json: true, yarn_lock: true, bun_lockb: true, ..ProjectMarkers::default() };
    let d = detect(&yarn, Some(r#"{"scripts": {"start": "node ."}}"#)).unwrap();
    assert_eq!(d.package_manager, Some(PackageManager::Yarn));
    assert_eq!(d.run_command, Some("yarn run start".to_string()));

    let bun = ProjectMarkers { package_json: true, bun_lockb: true, ..ProjectMarkers::default() };
    let d = detect(&bun, Some(r#"{"scripts": {"watch": "w", "serve": "s"}}"#)).unwrap();
    assert_eq!(d.package_manager, Some(PackageManager::Bun));
    assert_eq!(d.run_command, Some("bun run serve".to_string()));
}

#[test]
fn script_preference_order() {
    let markers = ProjectMarkers { package_json: true, ..ProjectMarkers::default() };
    let names = vec!["watch".to_string(), "start".to_string(), "dev".to_string()];
    let d = detect_with_scripts(&markers, Some(&names));
    assert_eq!(d.run_command, Some("npm run dev".to_string()));
    let names = vec!["build".to_string(), "test".to_string()];
    let d = detect_with_scripts(&markers, Some(&names));
    assert_eq!(d.run_command, None);
    assert_eq!(d.package_manager, Some(PackageManager::Npm));
}

#[test]
fn package_json_errors() {
    let markers = ProjectMarkers { package_json: true, ..ProjectMarkers::default() };
    assert_eq!(detect(&markers, None).unwrap_err(), DetectError::Unreadable);
    assert_eq!(detect(&markers, Some("{not json")).unwrap_err(), DetectError::InvalidPackageJson);
    assert_eq!(detect(&markers, Some(r#"{"scripts": 3}"#)).unwrap_err(), DetectError::InvalidPackageJson);
    assert_eq!(detect(&markers, Some("[1, 2]")).unwrap_err(), DetectError::InvalidPackageJson);
}

#[test]
fn package_scripts_reads_names() {
    let names = package_scripts(r#"{"scripts": {"dev": "vite", "build": "tsc"}}"#).unwrap().unwrap();
    assert_eq!(names.len(), 2);
    assert!(names.contains(&"dev".to_string()));
    assert!(names.contains(&"build".to_string()));
    assert!(package_scripts(r#"{"scripts": null}"#).unwrap().is_none());
    assert!(package_scripts(r#"{}"#).unwrap().is_none());
}

#[test]
fn manager_names() {
    assert_eq!(PackageManager::Pnpm.as_str(), "pnpm");
    assert_eq!(PackageManager::Yarn.as_str(), "yarn");
    assert_eq!(PackageManager::Bun.as_str(), "bun");
    assert_eq!(PackageManager::Npm.as_str(), "npm");
    assert_eq!(PackageManager::Cargo.as_str(), "cargo");
    assert_eq!(PackageManager::Go.as_str(), "go");
    assert_eq!(PackageManager::Python.as_str(), "python");
}

#[test]
fn scripts_must_be_strings() {
    let markers = ProjectMarkers { package_json: true, ..ProjectMarkers::default() };
    assert_eq!(
        detect(&markers, Some(r#"{"scripts": {"dev": 1}}"#)).unwrap_err(),
        DetectError::InvalidPackageJson
    );
    let d = detect(&markers, Some(r#"{"scripts": null, "name": "x"}"#)).unwrap();
    assert_eq!(d.run_command, None);
    assert_eq!(d.project_type, ProjectType::JavaScript);
}
