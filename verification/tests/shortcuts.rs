use global_hotkey::hotkey::HotKey;
use orochi::shortcuts::{on_shortcut, Action, PasteBinding, Reapply};
use orochi::state::AppState;
use std::collections::HashMap;

fn id(accelerator: &str) -> u32 {
    accelerator.parse::<HotKey>().unwrap().id()
}

fn binding(accelerator: &str, text: &str) -> PasteBinding {
    PasteBinding { accelerator: accelerator.to_string(), text: text.to_string() }
}

/// Registers everything with a platform that refuses the accelerators in `refused`; returns the
/// accelerators that were asked for and the actions.
fn register(
    gif: &str,
    bindings: Vec<PasteBinding>,
    refused: &[&str],
) -> (Vec<String>, HashMap<u32, Action>) {
    let mut run = Reapply::start(gif.to_string(), bindings);
    let mut asked = Vec::new();
    while let Some(accelerator) = run.next() {
        run.report(!refused.contains(&accelerator.as_str()));
        asked.push(accelerator);
    }
    (asked, run.finish())
}

fn text_at(actions: &HashMap<u32, Action>, accelerator: &str) -> Option<String> {
    match actions.get(&id(accelerator)) {
        Some(Action::Paste(text)) => Some(text.clone()),
        _ => None,
    }
}

#[test]
fn every_shortcut_is_registered_in_order() {
    let (asked, actions) = register(
        "F8",
        vec![binding("Ctrl+Shift+1", "one"), binding("  Alt+KeyQ ", "two")],
        &[],
    );
    assert_eq!(asked, vec!["F8", "Ctrl+Shift+1", "Alt+KeyQ"]);
    assert_eq!(actions.len(), 3);
    assert!(matches!(actions.get(&id("F8")), Some(Action::GifCapture)));
    assert_eq!(text_at(&actions, "Ctrl+Shift+1"), Some("one".to_string()));
    assert_eq!(text_at(&actions, "Alt+KeyQ"), Some("two".to_string()));
}

#[test]
fn gif_hotkey_wins_a_collision() {
    let (asked, actions) = register("Ctrl+G", vec![binding("CONTROL+KeyG", "lost")], &[]);
    assert_eq!(asked, vec!["Ctrl+G"]);
    assert_eq!(actions.len(), 1);
    assert!(matches!(actions.get(&id("Ctrl+G")), Some(Action::GifCapture)));
}

#[test]
fn first_binding_wins_a_collision() {
    let (asked, actions) = register(
        "F8",
        vec![binding("F9", "first"), binding("f9", "second"), binding("F10", "third")],
        &[],
    );
    assert_eq!(asked, vec!["F8", "F9", "F10"]);
    assert_eq!(text_at(&actions, "F9"), Some("first".to_string()));
}

#[test]
fn unusable_accelerators_are_passed_over() {
    let (asked, actions) = register(
        "not a key",
        vec![binding("", "a"), binding("  \t ", "b"), binding("Ctrl+", "c"), binding("F9", "d")],
        &[],
    );
    assert_eq!(asked, vec!["F9"]);
    assert_eq!(actions.len(), 1);
    assert_eq!(text_at(&actions, "F9"), Some("d".to_string()));
}

#[test]
fn refused_shortcut_is_left_to_a_later_binding() {
    let (asked, actions) =
        register("F8", vec![binding("F8", "takes over"), binding("F9", "x")], &["F9"]);
    assert_eq!(asked, vec!["F8", "F9"]);
    assert!(matches!(actions.get(&id("F8")), Some(Action::GifCapture)));
    assert_eq!(actions.len(), 1);

    let mut run = Reapply::start("F8".to_string(), vec![binding("F8", "takes over")]);
    assert_eq!(run.next(), Some("F8".to_string()));
    run.report(false);
    assert_eq!(run.next(), Some("F8".to_string()));
    run.report(true);
    assert_eq!(run.next(), None);
    assert_eq!(text_at(&run.finish(), "F8"), Some("takes over".to_string()));
}

#[test]
fn only_a_press_acts() {
    let (_, actions) = register("F8", vec![binding("F9", "text")], &[]);
    assert!(matches!(on_shortcut(&actions, id("F8"), true), Some(Action::GifCapture)));
    assert!(on_shortcut(&actions, id("F8"), false).is_none());
    assert!(on_shortcut(&actions, id("F10"), true).is_none());
    match on_shortcut(&actions, id("F9"), true) {
        Some(Action::Paste(text)) => assert_eq!(text, "text"),
        _ => panic!("a paste was expected"),
    }
}

#[test]
fn bad_accelerator_does_not_wipe_the_hotkey() {
    let mut state = AppState::default();
    state.setup();
    assert_eq!(state.hotkey, "F8");
    let error = state.set_hotkey("Ctrl+Nonsense".to_string()).unwrap_err();
    assert_eq!(error, "Ctrl+Nonsense".parse::<HotKey>().unwrap_err().to_string());
    assert_eq!(state.hotkey, "F8");
    assert_eq!(state.set_hotkey(" f9".to_string()).is_err(), " f9".parse::<HotKey>().is_err());
    assert_eq!(state.set_hotkey("Shift+F9".to_string()), Ok(()));
    assert_eq!(state.hotkey, "Shift+F9");
}

#[test]
fn state_registers_its_own_shortcuts() {
    let mut state = AppState::default();
    state.setup();
    state.set_paste_bindings(vec![binding("F9", "hello"), binding("F8", "lost")]);
    let mut run = state.reapply_shortcuts();
    let mut asked = Vec::new();
    while let Some(accelerator) = run.next() {
        asked.push(accelerator);
        run.report(true);
    }
    state.shortcuts_registered(run);
    assert_eq!(asked, vec!["F8", "F9"]);
    assert_eq!(state.paste_bindings.len(), 2);
    assert!(matches!(on_shortcut(&state.actions, id("F8"), true), Some(Action::GifCapture)));
    assert_eq!(text_at(&state.actions, "F9"), Some("hello".to_string()));

    state.set_paste_bindings(vec![]);
    let mut run = state.reapply_shortcuts();
    while run.next().is_some() {
        run.report(true);
    }
    state.shortcuts_registered(run);
    assert_eq!(state.actions.len(), 1);
}
