use powerflow::event::StatusBarItem;

fn parse(json: &str) -> StatusBarItem {
    let value: serde_json::Value = serde_json::from_str(json).unwrap();
    StatusBarItem::from_name(value.as_str())
}

#[test]
fn known_status_bar_items_round_trip() {
    for (json, expected) in [
        ("\"system\"", StatusBarItem::System),
        ("\"screen\"", StatusBarItem::Screen),
        ("\"heatpipe\"", StatusBarItem::Heatpipe),
    ] {
        let parsed = parse(json);
        assert_eq!(parsed, expected, "{json} should parse to {expected:?}");
    }
}

#[test]
fn malformed_status_bar_items_fall_back_to_system() {
    for json in ["\"none\"", "\"\"", "null"] {
        let parsed = parse(json);
        assert!(
            matches!(parsed, StatusBarItem::System),
            "{json} should fall back to System, got {parsed:?}"
        );
    }
}

#[test]
fn values_that_are_not_strings_fall_back_to_system() {
    for json in ["0", "3.5", "true", "[\"screen\"]", "{\"item\":\"screen\"}"] {
        assert_eq!(parse(json), StatusBarItem::System, "{json} should fall back to System");
    }
}
