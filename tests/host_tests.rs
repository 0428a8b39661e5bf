use deadbeef_hotkeys::host::{
    names_match, Action, DBConfigurationItem, DB_Error, DB_TF_Error, DeadBeef, PlItem, PlaybackState, Plugin,
    ACTION_CTX_MAIN,
};

fn registry() -> DeadBeef {
    DeadBeef::new(vec![
        Plugin::new(1, Some("first".to_string()), vec![
            Action::new(10, None, Some("Nameless".to_string())),
            Action::new(11, Some("Stop".to_string()), None),
        ]),
        Plugin::new(2, None, vec![
            Action::new(20, Some("stop".to_string()), Some("Other stop".to_string())),
            Action::new(21, Some("play".to_string()), Some("Play".to_string())),
        ]),
    ])
}

#[test]
fn find_action_ignores_ascii_case_and_takes_the_first() {
    let db = registry();
    assert_eq!(db.find_action_by_name("STOP").map(|a| a.as_ptr()), Some(11));
    assert_eq!(db.find_action_by_name("Play").map(|a| a.as_ptr()), Some(21));
    assert!(db.find_action_by_name("pause").is_none());
    assert!(db.find_action_by_name("").is_none());
}

#[test]
fn call_action_runs_in_main_context() {
    let db = registry();
    let (a, ctx) = db.call_action_by_name("play").unwrap();
    assert_eq!(a.as_ptr(), 21);
    assert_eq!(ctx, ACTION_CTX_MAIN);
    assert!(db.call_action_by_name("nothing").is_none());
}

#[test]
fn name_comparison_folds_ascii_only() {
    assert!(names_match("Hello", "hELLO"));
    assert!(!names_match("Hello", "Hell"));
    assert!(names_match("Ärger", "Ärger"));
    assert!(!names_match("Ärger", "ärger"));
    assert!(!names_match("a", "b"));
}

#[test]
fn iterators_walk_in_order() {
    let db = registry();
    let mut plugins = db.plugins();
    let first = plugins.next().unwrap();
    assert_eq!(first.as_ptr(), 1);
    assert_eq!(first.name(), Some("first"));
    let mut actions = first.actions();
    assert_eq!(actions.next().map(|a| a.as_ptr()), Some(10));
    let second = actions.next().unwrap();
    assert_eq!(second.name(), Some("Stop"));
    assert_eq!(second.title(), None);
    assert!(actions.next().is_none());
    assert_eq!(plugins.next().unwrap().name(), None);
    assert!(plugins.next().is_none());
}

#[test]
fn config_item_accessors() {
    let item = DBConfigurationItem::new(Some("hotkey.key1".to_string()), None);
    assert_eq!(item.key(), Some("hotkey.key1"));
    assert_eq!(item.value(), None);
}

#[test]
fn playlist_item_refuses_null() {
    assert_eq!(PlItem::from_raw(0).err(), Some(DB_Error::CreationFailed));
    assert_eq!(PlItem::from_raw(4096).unwrap().as_ptr(), 4096);
}

#[test]
fn playback_state_codes_and_names() {
    assert_eq!(PlaybackState::from_raw(1).as_raw(), 1);
    assert_eq!(PlaybackState::from_raw(0).to_string(), "PlaybackState::Stopped");
    assert_eq!(PlaybackState::from_raw(1).to_string(), "PlaybackState::Playing");
    assert_eq!(PlaybackState::from_raw(2).to_string(), "PlaybackState::Paused");
    assert_eq!(PlaybackState::from_raw(9).to_string(), "PlaybackState::Unknown");
}

#[test]
fn error_messages() {
    assert_eq!(DB_Error::CreationFailed.message(), "Creation failed");
    assert_eq!(DB_Error::NoMemory.message(), "No memory");
    assert_eq!(DB_TF_Error::CompileError.message(), "Compile error");
    assert_eq!(DB_TF_Error::EvalError.message(), "Evaluation error");
    let e: DB_TF_Error = DB_Error::NoMemory.into();
    assert_eq!(e, DB_TF_Error::DBError(DB_Error::NoMemory));
    assert_eq!(e.message(), "No memory");
}
