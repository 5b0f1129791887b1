use voice_input::input::{paste_plan, PasteAction, PASTE_MS, SETTLE_MS};

fn describe(p: &[PasteAction]) -> Vec<String> {
    p.iter()
        .map(|a| match a {
            PasteAction::SetClipboard(t) => format!("set:{}", t),
            PasteAction::Wait(ms) => format!("wait:{}", ms),
            PasteAction::OpenKeyboard => "open".to_string(),
            PasteAction::PressControl => "ctrl-down".to_string(),
            PasteAction::ClickV => "v".to_string(),
            PasteAction::ReleaseControl => "ctrl-up".to_string(),
            PasteAction::RestoreClipboard(t) => format!("restore:{}", t),
        })
        .collect()
}

#[test]
fn plan_restores_clipboard() {
    let p = paste_plan("新しい".to_string(), Some("old".to_string()));
    assert_eq!(
        describe(&p),
        vec!["set:新しい", "wait:50", "open", "ctrl-down", "v", "ctrl-up", "wait:100", "restore:old"]
    );
}

#[test]
fn plan_without_earlier_text() {
    let p = paste_plan("x".to_string(), None);
    assert_eq!(describe(&p), vec!["set:x", "wait:50", "open", "ctrl-down", "v", "ctrl-up", "wait:100"]);
    assert_eq!((SETTLE_MS, PASTE_MS), (50, 100));
}
