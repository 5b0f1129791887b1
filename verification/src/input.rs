//! Typing text into the active window: the text goes through the
//! clipboard and is pasted with Ctrl+V, after which the clipboard gets its
//! earlier text back.

use vstd::prelude::*;

verus! {

/// Pause after the clipboard is filled, before pasting, in milliseconds.
pub const SETTLE_MS: u64 = 50;

/// Pause after pasting, before the clipboard is restored, in milliseconds.
pub const PASTE_MS: u64 = 100;

/// One step of typing text.
pub enum PasteAction {
    /// Put this text on the clipboard; a failure ends the input with an error.
    SetClipboard(String),
    /// Wait this many milliseconds.
    Wait(u64),
    /// Open the keyboard simulator; a failure ends the input with an error.
    OpenKeyboard,
    /// Press Control (a failure is ignored).
    PressControl,
    /// Press and release `v` (a failure is ignored).
    ClickV,
    /// Release Control (a failure is ignored).
    ReleaseControl,
    /// Put this earlier text back on the clipboard; a failure is ignored.
    RestoreClipboard(String),
}

/// The steps that type `text`, once the clipboard has been read
/// (`original` is its earlier text, if it held any).
pub fn paste_plan(text: String, original: Option<String>) -> (plan: Vec<PasteAction>)
    ensures
        plan@.len() == if original is Some { 8nat } else { 7nat },
        plan@[0] matches PasteAction::SetClipboard(t) && t@ == text@,
        plan@[1] == PasteAction::Wait(SETTLE_MS),
        plan@[2] == PasteAction::OpenKeyboard,
        plan@[3] == PasteAction::PressControl,
        plan@[4] == PasteAction::ClickV,
        plan@[5] == PasteAction::ReleaseControl,
        plan@[6] == PasteAction::Wait(PASTE_MS),
        original matches Some(o) ==> plan@[7] matches PasteAction::RestoreClipboard(t) && t@ == o@,
{
    let mut plan: Vec<PasteAction> = Vec::new();
    plan.push(PasteAction::SetClipboard(text));
    plan.push(PasteAction::Wait(SETTLE_MS));
    plan.push(PasteAction::OpenKeyboard);
    plan.push(PasteAction::PressControl);
    plan.push(PasteAction::ClickV);
    plan.push(PasteAction::ReleaseControl);
    plan.push(PasteAction::Wait(PASTE_MS));
    match original {
        Some(o) => plan.push(PasteAction::RestoreClipboard(o)),
        None => {},
    }
    plan
}

/// Text the clipboard holds after the steps, when all clipboard writes
/// succeed, starting from `before`.
pub open spec fn clipboard_after(plan: Seq<PasteAction>, before: Option<Seq<char>>) -> Option<Seq<char>>
    decreases plan.len(),
{
    if plan.len() == 0 {
        before
    } else {
        let prev = clipboard_after(plan.drop_last(), before);
        match plan.last() {
            PasteAction::SetClipboard(t) => Some(t@),
            PasteAction::RestoreClipboard(t) => Some(t@),
            _ => prev,
        }
    }
}

/// Typing text leaves the clipboard as it was: where it held text before,
/// it holds that text again afterwards; where it held none, it keeps the
/// typed text.  Control is released after it is pressed, with the paste in
/// between.
pub proof fn lemma_clipboard_restored(plan: Seq<PasteAction>, text: Seq<char>, original: Option<Seq<char>>)
    requires
        plan.len() == if original is Some { 8nat } else { 7nat },
        plan[0] matches PasteAction::SetClipboard(t) && t@ == text,
        plan[1] == PasteAction::Wait(SETTLE_MS),
        plan[2] == PasteAction::OpenKeyboard,
        plan[3] == PasteAction::PressControl,
        plan[4] == PasteAction::ClickV,
        plan[5] == PasteAction::ReleaseControl,
        plan[6] == PasteAction::Wait(PASTE_MS),
        original matches Some(o) ==> plan[7] matches PasteAction::RestoreClipboard(t) && t@ == o,
    ensures
        clipboard_after(plan, original) == (match original {
            Some(o) => Some(o),
            None => Some(text),
        }),
{
    let p1 = plan.take(1);
    let p2 = plan.take(2);
    let p3 = plan.take(3);
    let p4 = plan.take(4);
    let p5 = plan.take(5);
    let p6 = plan.take(6);
    let p7 = plan.take(7);
    assert(p1.drop_last() =~= plan.take(0));
    assert(p2.drop_last() =~= p1);
    assert(p3.drop_last() =~= p2);
    assert(p4.drop_last() =~= p3);
    assert(p5.drop_last() =~= p4);
    assert(p6.drop_last() =~= p5);
    assert(p7.drop_last() =~= p6);
    assert(clipboard_after(p1, original) == Some(text));
    assert(clipboard_after(p2, original) == Some(text));
    assert(clipboard_after(p3, original) == Some(text));
    assert(clipboard_after(p4, original) == Some(text));
    assert(clipboard_after(p5, original) == Some(text));
    assert(clipboard_after(p6, original) == Some(text));
    assert(clipboard_after(p7, original) == Some(text));
    if original is Some {
        assert(plan.drop_last() =~= p7);
    } else {
        assert(plan =~= p7);
    }
}

} // verus!
