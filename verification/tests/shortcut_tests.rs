use voice_input::shortcut::{
    is_ctrl_key, is_key_pressed, is_win_key, key_edge, shortcut_transition, teardown_global_shortcut,
    HookRegistry, KeyEdge, KeyStates, ShortcutEvent, VK_CONTROL, VK_LWIN, WM_KEYDOWN, WM_KEYUP,
    WM_SYSKEYDOWN, WM_SYSKEYUP,
};

fn up() -> KeyStates {
    KeyStates { control: 0, left_control: 0, right_control: 0, left_win: 0, right_win: 0 }
}

#[test]
fn key_classes() {
    assert!(is_ctrl_key(0x11) && is_ctrl_key(0xA2) && is_ctrl_key(0xA3));
    assert!(!is_ctrl_key(0x5B));
    assert!(is_win_key(0x5B) && is_win_key(0x5C));
    assert!(!is_win_key(0x41));
}

#[test]
fn pressed_is_high_bit() {
    assert!(is_key_pressed(-32768));
    assert!(is_key_pressed(0x8001u16 as i16));
    assert!(!is_key_pressed(1));
    assert!(!is_key_pressed(0));
    assert!(!is_key_pressed(0x7fff));
}

#[test]
fn edges() {
    assert!(key_edge(0, WM_KEYDOWN) == Some(KeyEdge::Down));
    assert!(key_edge(0, WM_SYSKEYDOWN) == Some(KeyEdge::Down));
    assert!(key_edge(3, WM_KEYUP) == Some(KeyEdge::Up));
    assert!(key_edge(0, WM_SYSKEYUP) == Some(KeyEdge::Up));
    assert!(key_edge(-1, WM_KEYDOWN).is_none());
    assert!(key_edge(0, 0x0200).is_none());
}

#[test]
fn press_and_release_sequence() {
    // Ctrl goes down: nothing yet
    let mut keys = up();
    let (active, ev) = shortcut_transition(false, KeyEdge::Down, VK_CONTROL as u32, &keys);
    assert!(!active && ev.is_none());
    // Win goes down while Ctrl is held: Down
    keys.control = -32768;
    let (active, ev) = shortcut_transition(active, KeyEdge::Down, VK_LWIN as u32, &keys);
    assert!(active && ev == Some(ShortcutEvent::Down));
    // repeat of the key down: no second Down
    keys.left_win = -32768;
    let (active, ev) = shortcut_transition(active, KeyEdge::Down, VK_LWIN as u32, &keys);
    assert!(active && ev.is_none());
    // Win goes up (async state still says down): Up
    let (active, ev) = shortcut_transition(active, KeyEdge::Up, VK_LWIN as u32, &keys);
    assert!(!active && ev == Some(ShortcutEvent::Up));
    // Ctrl goes up: nothing more
    keys.left_win = 0;
    let (active, ev) = shortcut_transition(active, KeyEdge::Up, VK_CONTROL as u32, &keys);
    assert!(!active && ev.is_none());
}

#[test]
fn vk_code_is_truncated_to_16_bits() {
    let keys = KeyStates { control: -1, left_control: 0, right_control: 0, left_win: 0, right_win: 0 };
    let (active, ev) = shortcut_transition(false, KeyEdge::Down, 0x1_005B, &keys);
    assert!(active && ev == Some(ShortcutEvent::Down));
}

#[test]
fn event_names() {
    assert_eq!(ShortcutEvent::Down.name(), "shortcut-down");
    assert_eq!(ShortcutEvent::Up.name(), "shortcut-up");
}

#[test]
fn teardown_unhooks_once() {
    let mut reg: HookRegistry<u64, &str> = HookRegistry::new();
    reg.register_app("app");
    reg.register_hook(42);
    assert_eq!(teardown_global_shortcut(&mut reg), Some(42));
    assert!(reg.app.is_none() && reg.hook.is_none());
    assert_eq!(teardown_global_shortcut(&mut reg), None);
}

#[test]
fn messages_numbers() {
    assert_eq!((WM_KEYDOWN, WM_KEYUP, WM_SYSKEYDOWN, WM_SYSKEYUP), (0x100, 0x101, 0x104, 0x105));
}
