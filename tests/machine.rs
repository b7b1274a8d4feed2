use project_dashboard::machine::{machine_id_from, new_machine_id};

#[test]
fn test_machine_id_format() {
    let id = new_machine_id("testhost");

    assert!(id.starts_with("testhost-"));
    assert_eq!(id.len(), "testhost-".len() + 8);
}

#[test]
fn machine_id_takes_eight_characters() {
    assert_eq!(machine_id_from("box", "0123456789abcdef"), "box-01234567");
    assert_eq!(machine_id_from("box", "abc"), "box-abc");
    let a = new_machine_id("h");
    let b = new_machine_id("h");
    assert_ne!(a, b);
    assert!(a[2..].chars().all(|c| c.is_ascii_hexdigit()));
}
