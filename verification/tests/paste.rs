use orochi::paste::{PasteAction, PasteEvent, PasteRun};

/// Runs a paste against a clipboard that holds `before` and can be set `sets` times; returns the
/// clipboard afterwards and a log of what happened.
fn run(text: &str, before: Option<&str>, sets: usize) -> (Option<String>, Vec<String>) {
    let mut clipboard = before.map(|t| t.to_string());
    let mut left = sets;
    let mut log = Vec::new();
    let (mut paste, mut action) = PasteRun::run_paste(text.to_string());
    loop {
        let event = match action {
            PasteAction::ReadClipboard => {
                log.push("read".to_string());
                PasteEvent::Read(clipboard.clone())
            }
            PasteAction::SetClipboard(t) => {
                log.push(format!("set {}", t));
                if left > 0 {
                    left -= 1;
                    clipboard = Some(t);
                    PasteEvent::Placed(true)
                } else {
                    PasteEvent::Placed(false)
                }
            }
            PasteAction::Sleep(ms) => {
                log.push(format!("sleep {}", ms));
                PasteEvent::Passed
            }
            PasteAction::SendPaste => {
                log.push(format!("paste {}", clipboard.clone().unwrap()));
                PasteEvent::Passed
            }
            PasteAction::Done => return (clipboard, log),
        };
        action = paste.next(event);
    }
}

#[test]
fn paste_puts_the_clipboard_back() {
    let (clipboard, log) = run("new", Some("old"), 9);
    assert_eq!(clipboard, Some("old".to_string()));
    assert_eq!(log, vec!["read", "set new", "sleep 40", "paste new", "sleep 140", "set old"]);
}

#[test]
fn paste_over_an_empty_clipboard_restores_nothing() {
    let (clipboard, log) = run("new", None, 9);
    assert_eq!(clipboard, Some("new".to_string()));
    assert_eq!(log, vec!["read", "set new", "sleep 40", "paste new", "sleep 140"]);
}

#[test]
fn text_that_cannot_be_placed_is_not_pasted() {
    let (clipboard, log) = run("new", Some("old"), 0);
    assert_eq!(clipboard, Some("old".to_string()));
    assert_eq!(log, vec!["read", "set new"]);
}

#[test]
fn failed_restore_ends_the_paste() {
    let (clipboard, log) = run("new", Some("old"), 1);
    assert_eq!(clipboard, Some("new".to_string()));
    assert_eq!(log.last().unwrap(), "set old");
}

#[test]
fn stray_event_ends_the_paste() {
    let (mut paste, _) = PasteRun::run_paste("x".to_string());
    assert!(matches!(paste.next(PasteEvent::Passed), PasteAction::Done));
    assert!(matches!(paste.next(PasteEvent::Read(None)), PasteAction::Done));
}
