use project_dashboard::errors::AppError;
use project_dashboard::input::{DialogKey, InputDialog};
use project_dashboard::ports::dev_server_ports;
use project_dashboard::updater::version_is_newer;

#[test]
fn dialog_editing() {
    let mut d = InputDialog::new("Run Command");
    assert_eq!(d.title, "Run Command");
    assert!(!d.visible);
    d.show();
    assert!(d.visible);
    assert_eq!(d.handle_key(DialogKey::Char('l')), None);
    assert_eq!(d.handle_key(DialogKey::Char('s')), None);
    assert_eq!(d.handle_key(DialogKey::Char('x')), None);
    assert_eq!(d.handle_key(DialogKey::Backspace), None);
    assert_eq!(d.value, "ls");
    assert_eq!(d.handle_key(DialogKey::Enter), Some("ls".to_string()));
    assert!(!d.visible);
}

#[test]
fn dialog_escape_and_hint() {
    let mut d = InputDialog::new("Path");
    d.set_hint("not set");
    d.show();
    assert_eq!(d.hint, Some("not set".to_string()));
    d.set_value("/tmp");
    assert_eq!(d.handle_key(DialogKey::Other), None);
    assert_eq!(d.handle_key(DialogKey::Esc), None);
    assert!(!d.visible);
    assert!(d.hint.is_none());
    assert_eq!(d.value, "/tmp");
    d.show();
    assert_eq!(d.value, "");
    assert_eq!(d.handle_key(DialogKey::Backspace), None);
    assert_eq!(d.value, "");
    d.dismiss();
    assert!(!d.visible);
}

#[test]
fn dev_ports_list() {
    let ports = dev_server_ports();
    assert_eq!(ports.len(), 46);
    assert_eq!(ports[0], 3000);
    assert_eq!(ports[10], 3010);
    assert_eq!(ports[11], 4000);
    assert_eq!(ports[43], 8010);
    assert_eq!(ports[44], 8080);
    assert_eq!(ports[45], 9000);
}

#[test]
fn version_comparison() {
    assert!(version_is_newer("1.2.10", "1.2.9"));
    assert!(!version_is_newer("1.2.9", "1.2.10"));
    assert!(!version_is_newer("1.2.0", "1.2.0"));
    assert!(version_is_newer("1.2.0", "1.2"));
    assert!(!version_is_newer("1.2", "1.2.0"));
    assert!(version_is_newer("2.0.0", "1.99.99"));
    assert!(!version_is_newer("x.y", "0.1"));
}

#[test]
fn error_messages() {
    assert_eq!(AppError::NotInitialized.message(), "Run 'project-dashboard --init' first");
    assert_eq!(AppError::GhNotAuthenticated.message(), "Run 'gh auth login' first");
    assert_eq!(AppError::DatabaseError("locked".to_string()).message(), "Database error: locked");
    let io = std::io::Error::new(std::io::ErrorKind::Other, "disk");
    assert_eq!(AppError::from(io).message(), "IO error: disk");
}
