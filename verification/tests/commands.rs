use never_notes::commands::{classify_command, parse_command, update_script, Command};

#[test]
fn update_message_is_recognized() {
    let c = parse_command("{\"type\": \"update\"}").unwrap();
    assert!(matches!(c, Command::Update));
}

#[test]
fn unknown_type_is_carried_back() {
    let c = parse_command("{\"type\": \"reload\"}").unwrap();
    match c {
        Command::Unrecognized(t) => assert_eq!(t, "reload"),
        _ => panic!("expected an unrecognized command"),
    }
}

#[test]
fn json_without_string_type_has_missing_type() {
    assert!(matches!(parse_command("{\"kind\": \"update\"}").unwrap(), Command::MissingType));
    assert!(matches!(parse_command("{\"type\": 3}").unwrap(), Command::MissingType));
    assert!(matches!(parse_command("[1, 2]").unwrap(), Command::MissingType));
}

#[test]
fn text_that_is_not_json_is_an_error() {
    assert!(parse_command("not json at all").is_err());
}

#[test]
fn classify_goes_by_the_type_field() {
    assert!(matches!(classify_command(Some("update".to_string())), Command::Update));
    assert!(matches!(classify_command(None), Command::MissingType));
    match classify_command(Some("other".to_string())) {
        Command::Unrecognized(t) => assert_eq!(t, "other"),
        _ => panic!("expected an unrecognized command"),
    }
}

#[test]
fn update_script_encodes_the_names() {
    let names = vec!["a.txt".to_string(), "b \"quoted\".md".to_string()];
    assert_eq!(
        update_script(&names),
        "update_note_list([\"a.txt\",\"b \\\"quoted\\\".md\"])"
    );
    assert_eq!(update_script(&Vec::new()), "update_note_list([])");
}
