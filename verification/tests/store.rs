use shell_backend::json::{from_json, to_json, ParseError};
use shell_backend::prefs::{load_from_content, save_content, state_file_name, Preferences};

fn record(channel: &str, always_on_top: bool, transparent: bool) -> Preferences {
    Preferences { channel: channel.to_string(), always_on_top, transparent }
}

#[test]
fn load_missing_file_returns_defaults() {
    let p = load_from_content(None).unwrap();
    assert_eq!(p.channel, "poly_fr");
    assert_eq!(p.always_on_top, false);
    assert_eq!(p.transparent, false);
}

#[test]
fn default_record_fields() {
    let p = Preferences::default();
    assert_eq!(p.channel, "poly_fr");
    assert!(!p.always_on_top);
    assert!(!p.transparent);
}

#[test]
fn save_then_load_round_trip() {
    let text = save_content("x".to_string(), true, true);
    let p = load_from_content(Some(&text)).unwrap();
    assert_eq!(p.channel, "x");
    assert!(p.always_on_top);
    assert!(p.transparent);
}

#[test]
fn second_save_overwrites_fully() {
    let first = save_content("one".to_string(), true, false);
    let second = save_content("two".to_string(), false, true);
    // The replacement text depends on the latest values alone.
    assert!(!second.contains("one"));
    assert_eq!(second, save_content("two".to_string(), false, true));
    let p = load_from_content(Some(&second)).unwrap();
    assert_eq!(p.channel, "two");
    assert!(!p.always_on_top);
    assert!(p.transparent);
    let q = load_from_content(Some(&first)).unwrap();
    assert_eq!(q.channel, "one");
}

#[test]
fn canonical_text_exact() {
    let p = Preferences::default();
    assert_eq!(
        to_json(&p),
        "{\"channel\":\"poly_fr\",\"always_on_top\":false,\"transparent\":false}"
    );
    assert_eq!(
        save_content("x".to_string(), true, true),
        "{\"channel\":\"x\",\"always_on_top\":true,\"transparent\":true}"
    );
}

#[test]
fn corrupted_file_yields_error() {
    let corrupt = [
        "",
        "   ",
        "not json",
        "{",
        "{]",
        "null",
        "[]",
        "{}",
        "{\"channel\":\"x\"",
        "{\"channel\":\"x\",\"always_on_top\":true,\"transparent\":tru",
        "{\"channel\":\"x\",\"always_on_top\":true,\"transparent\":true",
        "\"channel\"",
        "{\"channel\":}",
    ];
    for text in corrupt {
        assert_eq!(from_json(text), Err(ParseError::Malformed));
    }
}

#[test]
fn corrupted_file_does_not_default() {
    // A malformed file surfaces an error; it must not be read as the defaults.
    let r = load_from_content(Some("{broken"));
    assert!(matches!(r, Err(ParseError::Malformed)));
}

#[test]
fn parse_accepts_whitespace_and_any_order() {
    let text =
        " {\n\t\"transparent\" : true ,\r\n \"channel\"\t: \"a b\" , \"always_on_top\" : false } ";
    let p = from_json(text).unwrap();
    assert_eq!(p.channel, "a b");
    assert!(!p.always_on_top);
    assert!(p.transparent);
}

#[test]
fn parse_rejects_duplicate_member() {
    let text = "{\"channel\":\"a\",\"channel\":\"b\",\"always_on_top\":true}";
    assert_eq!(from_json(text), Err(ParseError::Malformed));
    let text2 =
        "{\"channel\":\"a\",\"always_on_top\":true,\"always_on_top\":false,\"transparent\":true}";
    assert_eq!(from_json(text2), Err(ParseError::Malformed));
}

#[test]
fn parse_rejects_missing_member() {
    assert_eq!(from_json("{\"channel\":\"a\",\"always_on_top\":true}"), Err(ParseError::Malformed));
    assert_eq!(from_json("{\"always_on_top\":true,\"transparent\":false}"), Err(ParseError::Malformed));
}

#[test]
fn parse_rejects_unknown_member() {
    let text = "{\"channel\":\"a\",\"always_on_top\":true,\"volume\":3}";
    assert_eq!(from_json(text), Err(ParseError::Malformed));
}

#[test]
fn parse_rejects_wrong_value_shape() {
    assert_eq!(
        from_json("{\"channel\":true,\"always_on_top\":true,\"transparent\":false}"),
        Err(ParseError::Malformed)
    );
    assert_eq!(
        from_json("{\"channel\":\"a\",\"always_on_top\":\"yes\",\"transparent\":false}"),
        Err(ParseError::Malformed)
    );
}

#[test]
fn parse_rejects_trailing_text() {
    assert_eq!(
        from_json("{\"channel\":\"a\",\"always_on_top\":true,\"transparent\":false}x"),
        Err(ParseError::Malformed)
    );
    assert_eq!(
        from_json("{\"channel\":\"a\",\"always_on_top\":true,\"transparent\":false} {}"),
        Err(ParseError::Malformed)
    );
}

#[test]
fn channel_escapes_round_trip() {
    let channel = "a\"b\\c\nd\te\rf/g";
    let text = to_json(&record(channel, false, true));
    let p = from_json(&text).unwrap();
    assert_eq!(p.channel, channel);
    assert!(!p.always_on_top);
    assert!(p.transparent);
}

#[test]
fn channel_escaped_text_exact() {
    let text = to_json(&record("a\"b\\c\nd", false, false));
    assert_eq!(
        text,
        "{\"channel\":\"a\\\"b\\\\c\\nd\",\"always_on_top\":false,\"transparent\":false}"
    );
}

#[test]
fn parse_short_escapes() {
    let text = "{\"channel\":\"\\\"\\\\\\/\\b\\f\\n\\r\\t\",\"always_on_top\":false,\"transparent\":false}";
    let p = from_json(text).unwrap();
    assert_eq!(p.channel, "\"\\/\u{8}\u{c}\n\r\t");
}

#[test]
fn parse_rejects_unsupported_escape() {
    // Unicode escapes are outside the accepted grammar; the saver never
    // writes them.
    let text = "{\"channel\":\"\\u0041\",\"always_on_top\":false,\"transparent\":false}";
    assert_eq!(from_json(text), Err(ParseError::Malformed));
}

#[test]
fn error_message_text() {
    assert_eq!(ParseError::Malformed.message(), "invalid preferences JSON in state file");
}

#[test]
fn state_file_name_fixed() {
    assert_eq!(state_file_name(), "app_state.json");
}

#[test]
fn serde_json_reads_saved_state() {
    let text = save_content("poly fr".to_string(), true, false);
    let v: serde_json::Value = serde_json::from_str(&text).unwrap();
    assert_eq!(v["channel"].as_str(), Some("poly fr"));
    assert_eq!(v["always_on_top"].as_bool(), Some(true));
    assert_eq!(v["transparent"].as_bool(), Some(false));
    assert_eq!(v.as_object().unwrap().len(), 3);
}

#[test]
fn serde_json_written_state_loads() {
    let mut m = serde_json::Map::new();
    m.insert("channel".to_string(), serde_json::Value::String("x y".to_string()));
    m.insert("always_on_top".to_string(), serde_json::Value::Bool(true));
    m.insert("transparent".to_string(), serde_json::Value::Bool(true));
    let text = serde_json::Value::Object(m).to_string();
    let p = from_json(&text).unwrap();
    assert_eq!(p.channel, "x y");
    assert!(p.always_on_top);
    assert!(p.transparent);
}

#[test]
fn clone_keeps_fields() {
    let p = record("c", true, false);
    let q = p.clone();
    assert_eq!(q.channel, "c");
    assert!(q.always_on_top);
    assert!(!q.transparent);
}
