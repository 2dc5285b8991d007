use paira_shell::name::{resolve_name, sentinel_name_bytes};
use paira_shell::query::QueryOutput;

fn ok(stdout: &[u8]) -> QueryOutput {
    QueryOutput { success: true, stdout: stdout.to_vec() }
}

fn failed() -> QueryOutput {
    QueryOutput { success: false, stdout: Vec::new() }
}

#[test]
fn primary_name_is_trimmed_output() {
    let name = resolve_name(&ok(b" MY-MACHINE \r\n"), &failed(), &None);
    assert_eq!(name, b"MY-MACHINE".to_vec());
}

#[test]
fn secondary_name_parses_key_value_line() {
    let name = resolve_name(&failed(), &ok(b"\r\nName=BOX-01\r\n\r\n"), &None);
    assert_eq!(name, b"BOX-01".to_vec());
}

#[test]
fn environment_value_is_third_in_line() {
    let name = resolve_name(&failed(), &failed(), &Some(b"ENV-HOST".to_vec()));
    assert_eq!(name, b"ENV-HOST".to_vec());
}

#[test]
fn sentinel_when_everything_fails() {
    let name = resolve_name(&failed(), &failed(), &None);
    assert_eq!(name, b"Unknown Device".to_vec());
    assert_eq!(name, sentinel_name_bytes());
}

#[test]
fn name_is_never_empty() {
    // Even an empty environment value and empty successful outputs leave a
    // non-empty name: the sentinel.
    let name = resolve_name(&ok(b"   \r\n"), &ok(b"Name=   \r\n"), &Some(Vec::new()));
    assert_eq!(name, b"Unknown Device".to_vec());
    assert!(!name.is_empty());
}

#[test]
fn earlier_tiers_shadow_later_ones() {
    let name = resolve_name(
        &ok(b"FIRST\r\n"),
        &ok(b"Name=SECOND\r\n"),
        &Some(b"THIRD".to_vec()),
    );
    assert_eq!(name, b"FIRST".to_vec());
}
