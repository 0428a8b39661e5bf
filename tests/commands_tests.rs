use deadbeef_hotkeys::commands::{registration_requests, Command, MiscPlugin};
use deadbeef_hotkeys::host::{Action, DBConfigurationItem, DeadBeef, Plugin};
use deadbeef_hotkeys::record::{parse_config, HotkeyRecord};
use deadbeef_hotkeys::session::{SessionAction, SessionPhase, ShortcutHandler};

fn action(ptr: usize, name: &str, title: Option<&str>) -> Action {
    Action::new(ptr, Some(name.to_string()), title.map(|t| t.to_string()))
}

fn host() -> DeadBeef {
    DeadBeef::new(vec![
        Plugin::new(100, Some("core".to_string()), vec![
            action(11, "toggle_stop_after_album", Some("Playback/Stop After Album")),
            action(12, "play_next", None),
            action(13, "untitled", Some("Menu/")),
        ]),
        Plugin::new(200, Some("extra".to_string()), vec![action(21, "cut_paste", Some("Edit/Cut\\/Paste"))]),
    ])
}

fn record(keystroke: &str, is_global: bool, action_name: &str, ctx: u32) -> HotkeyRecord {
    HotkeyRecord {
        keystroke: keystroke.to_string(),
        is_global,
        action_name: action_name.to_string(),
        ctx,
    }
}

#[test]
fn first_registered_binding_wins() {
    let db = DeadBeef::new(vec![Plugin::new(1, None, vec![action(7, "a", None), action(8, "b", None)])]);
    let records = vec![record("Ctrl a", false, "a", 1), record("Ctrl a", false, "b", 2)];
    let keys = vec![Some((38, 4)), Some((38, 4))];
    let mut plugin = MiscPlugin::new();
    plugin.read_config(&db, &records, &keys);
    assert_eq!(plugin.commands.len(), 2);
    assert_eq!(plugin.get_action_for_keycombo(38, 4, 0), Some((1, 7)));
}

#[test]
fn lookup_matches_scope_key_and_modifiers() {
    let mut plugin = MiscPlugin::new();
    plugin.commands.push(Command::new(10, 1, 5, 1, 99));
    plugin.commands.push(Command::new(10, 1, 6, 0, 98));
    assert_eq!(plugin.get_action_for_keycombo(10, 1, 0), Some((6, 98)));
    assert_eq!(plugin.get_action_for_keycombo(10, 1, 1), Some((5, 99)));
    assert_eq!(plugin.get_action_for_keycombo(10, 2, 0), None);
    assert_eq!(plugin.get_action_for_keycombo(11, 1, 0), None);
    assert_eq!(MiscPlugin::new().get_action_for_keycombo(10, 1, 0), None);
}

#[test]
fn unresolved_keys_are_skipped_and_unknown_actions_kept_inert() {
    let db = host();
    let records = vec![
        record("Nonsense", false, "play_next", 0),
        record("Ctrl n", false, "no_such_action", 3),
        record("Ctrl p", true, "PLAY_NEXT", 4),
    ];
    let keys = vec![None, Some((57, 4)), Some((33, 4))];
    let mut plugin = MiscPlugin::new();
    plugin.read_config(&db, &records, &keys);
    assert_eq!(plugin.commands, vec![Command::new(57, 4, 3, 0, 0), Command::new(33, 4, 4, 1, 12)]);
    assert_eq!(plugin.get_action_for_keycombo(57, 4, 0), Some((3, 0)));
}

#[test]
fn end_to_end_one_global_one_local() {
    let db = host();
    let items = vec![
        DBConfigurationItem::new(
            Some("hotkey.key01".to_string()),
            Some("\"Ctrl k\" 0 0 toggle_stop_after_album".to_string()),
        ),
        DBConfigurationItem::new(Some("hotkey.key02".to_string()), Some("\"Alt+X\" 123 1 play_next".to_string())),
    ];
    let (records, errors) = parse_config(&items);
    assert!(errors.is_empty());
    let keys = vec![Some((45, 4)), Some((53, 8))];
    let mut plugin = MiscPlugin::new();
    let requests = plugin.plugin_start(&db, &records, &keys);
    assert_eq!(plugin.commands.len(), 2);
    assert_eq!(plugin.get_action_for_keycombo(45, 4, 0), Some((0, 11)));
    assert_eq!(requests.len(), 1);
    assert_eq!(requests[0].id, "play_next");
    assert_eq!(requests[0].description, "play_next");
    assert_eq!(requests[0].preferred_trigger, "Alt+X");

    let mut handler = ShortcutHandler::new();
    assert_eq!(handler.start_session(&requests), SessionAction::Register);
    assert_eq!(handler.phase(), SessionPhase::Registering);
}

#[test]
fn requests_use_leaf_titles_and_skip_inert_or_untitled() {
    let db = host();
    let records = vec![
        record("Ctrl a", true, "toggle_stop_after_album", 0),
        record("Ctrl b", true, "cut_paste", 0),
        record("Ctrl c", true, "untitled", 0),
        record("Ctrl d", true, "missing", 0),
        record("Ctrl e", false, "play_next", 0),
        record("Ctrl f", true, "play_next", 0),
    ];
    let keys = vec![Some((1, 0)), Some((2, 0)), Some((3, 0)), Some((4, 0)), Some((5, 0)), None];
    let requests = registration_requests(&db, &records, &keys);
    assert_eq!(requests.len(), 2);
    assert_eq!(requests[0].id, "toggle_stop_after_album");
    assert_eq!(requests[0].description, "Stop After Album");
    assert_eq!(requests[0].preferred_trigger, "Ctrl a");
    assert_eq!(requests[1].id, "cut_paste");
    assert_eq!(requests[1].description, "Cut/Paste");
}

#[test]
fn no_global_records_means_nothing_to_register() {
    let db = host();
    let records = vec![record("Ctrl k", false, "play_next", 0)];
    let keys = vec![Some((45, 4))];
    let mut plugin = MiscPlugin::new();
    let requests = plugin.plugin_start(&db, &records, &keys);
    assert!(requests.is_empty());
    let mut handler = ShortcutHandler::new();
    assert_eq!(handler.start_session(&requests), SessionAction::NothingToRegister);
    assert_eq!(handler.phase(), SessionPhase::Idle);
}

#[test]
fn plugin_stop_drops_bindings_and_stops_handler() {
    let db = host();
    let records = vec![record("Ctrl k", false, "play_next", 0)];
    let mut plugin = MiscPlugin::new();
    plugin.read_config(&db, &records, &vec![Some((45, 4))]);
    let mut handler = ShortcutHandler::new();
    assert_eq!(plugin.plugin_stop(&mut handler), SessionAction::Nothing);
    assert!(plugin.commands.is_empty());
    assert!(handler.is_cancelled());
    assert_eq!(plugin.get_action_for_keycombo(45, 4, 0), None);
}
