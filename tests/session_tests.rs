use deadbeef_hotkeys::commands::ShortcutRequest;
use deadbeef_hotkeys::session::{
    RegisteredShortcut, RegistrationFailure, SessionAction, SessionPhase, ShortcutEvent, ShortcutHandler,
};

fn request(id: &str) -> ShortcutRequest {
    ShortcutRequest {
        id: id.to_string(),
        description: id.to_string(),
        preferred_trigger: "Ctrl x".to_string(),
    }
}

fn shortcut(id: &str, activation: &str) -> RegisteredShortcut {
    RegisteredShortcut { id: id.to_string(), activation: activation.to_string() }
}

fn active_handler() -> ShortcutHandler {
    let mut h = ShortcutHandler::new();
    assert_eq!(h.start_session(&vec![request("play"), request("stop")]), SessionAction::Register);
    let confirmed = vec![shortcut("play", "Ctrl+P"), shortcut("stop", "Ctrl+S")];
    assert_eq!(h.on_registered(Ok(confirmed)), SessionAction::AwaitEvents);
    assert_eq!(h.phase(), SessionPhase::Active);
    h
}

#[test]
fn active_set_follows_last_event_per_id() {
    let mut h = active_handler();
    assert_eq!(h.on_activated("play"), SessionAction::CallAction);
    assert_eq!(h.on_activated("stop"), SessionAction::CallAction);
    assert_eq!(h.on_deactivated("play"), SessionAction::Nothing);
    assert_eq!(h.on_activated("play"), SessionAction::CallAction);
    assert_eq!(h.on_activated("play"), SessionAction::CallAction);
    assert_eq!(h.on_deactivated("stop"), SessionAction::Nothing);
    assert!(h.is_active("play"));
    assert!(!h.is_active("stop"));
    assert_eq!(h.on_deactivated("play"), SessionAction::Nothing);
    assert!(!h.is_active("play"));
}

#[test]
fn release_without_press_is_reported() {
    let mut h = active_handler();
    assert_eq!(h.on_deactivated("play"), SessionAction::ReportAnomaly);
    assert!(!h.is_active("play"));
    assert_eq!(h.phase(), SessionPhase::Active);
}

#[test]
fn display_marks_held_shortcuts_in_order() {
    let mut h = active_handler();
    assert_eq!(h.display_activations(), vec!["play: Ctrl+P".to_string(), "stop: Ctrl+S".to_string()]);
    h.handle_event(ShortcutEvent::Activated("stop".to_string()));
    assert_eq!(h.display_activations(), vec!["play: Ctrl+P".to_string(), "<b>stop: Ctrl+S</b>".to_string()]);
}

#[test]
fn bindings_changed_replaces_triggers_and_keeps_held_ids() {
    let mut h = active_handler();
    h.on_activated("play");
    let action = h.handle_event(ShortcutEvent::ShortcutsChanged(vec![shortcut("next", "Ctrl+N")]));
    assert_eq!(action, SessionAction::Nothing);
    assert_eq!(h.triggers().len(), 1);
    assert_eq!(h.triggers()[0].id, "next");
    assert!(h.is_active("play"));
    assert_eq!(h.display_activations(), vec!["next: Ctrl+N".to_string()]);
}

#[test]
fn stop_while_registering_goes_idle_without_calls() {
    let mut h = ShortcutHandler::new();
    assert_eq!(h.start_session(&vec![request("play")]), SessionAction::Register);
    assert_eq!(h.stop(), SessionAction::Nothing);
    assert_eq!(h.phase(), SessionPhase::Idle);
    assert_eq!(h.on_registered(Ok(vec![shortcut("play", "Ctrl+P")])), SessionAction::CloseSession);
    assert_eq!(h.phase(), SessionPhase::Idle);
    assert_eq!(h.on_activated("play"), SessionAction::Nothing);
    assert_eq!(h.start_session(&vec![request("play")]), SessionAction::Nothing);
    assert!(h.triggers().is_empty());
    assert!(!h.is_active("play"));
}

#[test]
fn registration_failures_are_reported_and_idle() {
    for failure in [RegistrationFailure::Cancelled, RegistrationFailure::Other, RegistrationFailure::Failed] {
        let mut h = ShortcutHandler::new();
        h.start_session(&vec![request("play")]);
        assert_eq!(h.on_registered(Err(failure)), SessionAction::ReportFailure(failure));
        assert_eq!(h.phase(), SessionPhase::Idle);
        assert!(h.triggers().is_empty());
    }
}

#[test]
fn stop_while_active_closes_then_clears() {
    let mut h = active_handler();
    h.on_activated("play");
    assert_eq!(h.stop(), SessionAction::CloseSession);
    assert_eq!(h.phase(), SessionPhase::Closing);
    assert_eq!(h.on_activated("stop"), SessionAction::Nothing);
    assert_eq!(h.stop(), SessionAction::Nothing);
    assert_eq!(h.session_closed(), SessionAction::Nothing);
    assert_eq!(h.phase(), SessionPhase::Idle);
    assert!(h.triggers().is_empty());
    assert!(!h.is_active("play"));
    assert!(h.is_cancelled());
}

#[test]
fn end_of_events_closes_the_session() {
    let mut h = active_handler();
    assert_eq!(h.events_ended(), SessionAction::CloseSession);
    assert_eq!(h.phase(), SessionPhase::Closing);
    assert_eq!(h.session_closed(), SessionAction::Nothing);
    assert_eq!(h.phase(), SessionPhase::Idle);
    assert!(!h.is_cancelled());
    assert_eq!(h.events_ended(), SessionAction::Nothing);
}

#[test]
fn events_outside_a_live_session_are_ignored() {
    let mut h = ShortcutHandler::new();
    assert_eq!(h.on_activated("play"), SessionAction::Nothing);
    assert_eq!(h.on_deactivated("play"), SessionAction::Nothing);
    assert_eq!(h.on_changed(vec![shortcut("a", "b")]), SessionAction::Nothing);
    assert!(h.triggers().is_empty());
    assert_eq!(h.on_registered(Err(RegistrationFailure::Other)), SessionAction::Nothing);
}
