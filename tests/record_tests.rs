use deadbeef_hotkeys::host::DBConfigurationItem;
use deadbeef_hotkeys::record::{parse_config, parse_line};

#[test]
fn parses_example_not_global() {
    let line = "\"Ctrl k\" 0 0 toggle_stop_after_album";
    let (keystroke, is_global, action, _) = parse_line(line).expect("parse failed");
    assert_eq!(keystroke, "Ctrl k");
    assert_eq!(is_global, false);
    assert_eq!(action, "toggle_stop_after_album");
}

#[test]
fn parses_example_global_and_action_with_spaces() {
    let line = "\"Alt+X\" 123 1 do something now";
    let (keystroke, is_global, action, _) = parse_line(line).expect("parse failed");
    assert_eq!(keystroke, "Alt+X");
    assert_eq!(is_global, true);
    assert_eq!(action, "do something now");
}

#[test]
fn errors_when_missing_quote() {
    let line = "Ctrl k\" 0 0 action";
    assert!(parse_line(line).is_err());
}

#[test]
fn context_is_returned() {
    let (_, _, _, ctx) = parse_line("\"Alt+X\" 123 1 do something now").unwrap();
    assert_eq!(ctx, 123);
    let (_, _, _, ctx) = parse_line("\"Ctrl k\" 0 0 toggle_stop_after_album").unwrap();
    assert_eq!(ctx, 0);
}

#[test]
fn missing_opening_quote_message() {
    assert_eq!(
        parse_line("Ctrl k\" 0 0 action"),
        Err("line must start with a double quote for keystroke".to_string())
    );
    assert_eq!(
        parse_line("   "),
        Err("line must start with a double quote for keystroke".to_string())
    );
}

#[test]
fn missing_closing_quote_is_an_error() {
    assert_eq!(
        parse_line("\"Ctrl k 0 0 action"),
        Err("missing closing quote for keystroke".to_string())
    );
}

#[test]
fn missing_or_bad_numbers_are_errors() {
    assert_eq!(parse_line("\"k\""), Err("missing context number".to_string()));
    assert_eq!(
        parse_line("\"k\" x 0 a"),
        Err("context number is not a valid integer".to_string())
    );
    assert_eq!(
        parse_line("\"k\" -1 0 a"),
        Err("context number is not a valid integer".to_string())
    );
    assert_eq!(
        parse_line("\"k\" 4294967296 0 a"),
        Err("context number is not a valid integer".to_string())
    );
    assert_eq!(parse_line("\"k\" 1"), Err("missing scope number".to_string()));
    assert_eq!(
        parse_line("\"k\" 1 yes a"),
        Err("scope number is not a valid integer".to_string())
    );
    assert_eq!(
        parse_line("\"k\" 1 9223372036854775808 a"),
        Err("scope number is not a valid integer".to_string())
    );
}

#[test]
fn missing_action_is_an_error() {
    assert_eq!(parse_line("\"k\" 1 1"), Err("missing action name".to_string()));
    assert_eq!(parse_line("\"k\" 1 1   \t "), Err("missing action name".to_string()));
}

#[test]
fn numbers_take_signs_and_limits() {
    let r = parse_line("\"k\" +4294967295 -9223372036854775808 a").unwrap();
    assert_eq!(r, ("k".to_string(), true, "a".to_string(), 4294967295));
    let r = parse_line("\"k\" 007 +0 a").unwrap();
    assert_eq!(r, ("k".to_string(), false, "a".to_string(), 7));
    let r = parse_line("\"k\" 1 -3 a").unwrap();
    assert!(r.1);
}

#[test]
fn whitespace_is_trimmed_and_action_words_joined() {
    let r = parse_line("  \t\"Shift  F1\"\t2   1   play   next\tsong  \n").unwrap();
    assert_eq!(
        r,
        ("Shift  F1".to_string(), true, "play next song".to_string(), 2)
    );
    let r = parse_line("\"k\"0 0 a").unwrap();
    assert_eq!(r, ("k".to_string(), false, "a".to_string(), 0));
}

#[test]
fn empty_keystroke_and_quotes_in_action() {
    let r = parse_line("\"\" 0 0 say \"hi\"").unwrap();
    assert_eq!(r, (String::new(), false, "say \"hi\"".to_string(), 0));
}

#[test]
fn record_fields_round_trip() {
    let fields = [("Ctrl k", 0u32, 0i64, "toggle_stop_after_album"), ("Alt+X", 123, 1, "do something now"), ("a b", 4294967295, -9223372036854775808, "x")];
    for (k, c, s, a) in fields {
        let line = format!("\"{}\" {} {} {}", k, c, s, a);
        let parsed = parse_line(&line).unwrap();
        assert_eq!(parsed, (k.to_string(), s != 0, a.to_string(), c));
    }
}

#[test]
fn config_entries_parse_in_order_and_skip_bad_ones() {
    let items = vec![
        DBConfigurationItem::new(Some("hotkey.key1".to_string()), Some("\"Ctrl k\" 0 0 stop".to_string())),
        DBConfigurationItem::new(Some("hotkey.key2".to_string()), None),
        DBConfigurationItem::new(Some("hotkey.key3".to_string()), Some("broken".to_string())),
        DBConfigurationItem::new(Some("hotkey.key4".to_string()), Some("\"Alt+X\" 3 1 play".to_string())),
    ];
    let (records, errors) = parse_config(&items);
    assert_eq!(records.len(), 2);
    assert_eq!(records[0].keystroke, "Ctrl k");
    assert_eq!(records[0].action_name, "stop");
    assert!(!records[0].is_global);
    assert_eq!(records[1].keystroke, "Alt+X");
    assert_eq!(records[1].ctx, 3);
    assert!(records[1].is_global);
    assert_eq!(errors, vec!["line must start with a double quote for keystroke".to_string()]);
}
