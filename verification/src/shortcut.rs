//! The global push-to-talk shortcut (Ctrl + Win): decisions of the
//! low-level keyboard hook and the registry of the installed hook.
//!
//! Key codes and message numbers are those of the Win32 API; the hook
//! itself, the key-state queries and the event emission are the caller's.

use vstd::prelude::*;

verus! {

pub const VK_CONTROL: u16 = 0x11;
pub const VK_LCONTROL: u16 = 0xA2;
pub const VK_RCONTROL: u16 = 0xA3;
pub const VK_LWIN: u16 = 0x5B;
pub const VK_RWIN: u16 = 0x5C;

pub const WM_KEYDOWN: u32 = 0x0100;
pub const WM_KEYUP: u32 = 0x0101;
pub const WM_SYSKEYDOWN: u32 = 0x0104;
pub const WM_SYSKEYUP: u32 = 0x0105;

pub open spec fn spec_is_ctrl_key(vk: u16) -> bool {
    vk == VK_CONTROL || vk == VK_LCONTROL || vk == VK_RCONTROL
}

pub open spec fn spec_is_win_key(vk: u16) -> bool {
    vk == VK_LWIN || vk == VK_RWIN
}

/// Whether `vk` is one of the Control keys.
pub fn is_ctrl_key(vk: u16) -> (b: bool)
    ensures
        b == spec_is_ctrl_key(vk),
{
    vk == VK_CONTROL || vk == VK_LCONTROL || vk == VK_RCONTROL
}

/// Whether `vk` is one of the Windows keys.
pub fn is_win_key(vk: u16) -> (b: bool)
    ensures
        b == spec_is_win_key(vk),
{
    vk == VK_LWIN || vk == VK_RWIN
}

/// Whether a key state as returned by `GetAsyncKeyState` says "held down":
/// its most significant bit is set.
pub fn is_key_pressed(state: i16) -> (b: bool)
    ensures
        b == (state < 0),
{
    let r = (state & (0x8000u16 as i16)) != 0;
    assert(((state & (0x8000u16 as i16)) != 0) == (state < 0)) by (bit_vector);
    r
}

/// Direction of a keyboard message.
#[derive(PartialEq, Eq, Structural, Clone, Copy)]
pub enum KeyEdge {
    Down,
    Up,
}

pub open spec fn spec_key_edge(n_code: i32, msg: u32) -> Option<KeyEdge> {
    if n_code < 0 {
        None
    } else if msg == WM_KEYDOWN || msg == WM_SYSKEYDOWN {
        Some(KeyEdge::Down)
    } else if msg == WM_KEYUP || msg == WM_SYSKEYUP {
        Some(KeyEdge::Up)
    } else {
        None
    }
}

/// Which key messages the hook looks at: key downs and key ups, with or
/// without Alt, when the hook code allows processing.
pub fn key_edge(n_code: i32, msg: u32) -> (e: Option<KeyEdge>)
    ensures
        e == spec_key_edge(n_code, msg),
{
    if n_code < 0 {
        None
    } else if msg == WM_KEYDOWN || msg == WM_SYSKEYDOWN {
        Some(KeyEdge::Down)
    } else if msg == WM_KEYUP || msg == WM_SYSKEYUP {
        Some(KeyEdge::Up)
    } else {
        None
    }
}

/// States of the modifier keys as `GetAsyncKeyState` reports them.
pub struct KeyStates {
    pub control: i16,
    pub left_control: i16,
    pub right_control: i16,
    pub left_win: i16,
    pub right_win: i16,
}

/// What the frontend is told.
#[derive(PartialEq, Eq, Structural, Clone, Copy)]
pub enum ShortcutEvent {
    /// Ctrl + Win became held: start recording.
    Down,
    /// Ctrl + Win is no longer held: stop recording.
    Up,
}

impl ShortcutEvent {
    /// Name of the event emitted to the frontend.
    pub fn name(&self) -> (s: &'static str)
        ensures
            s@ == (match self {
                ShortcutEvent::Down => "shortcut-down"@,
                ShortcutEvent::Up => "shortcut-up"@,
            }),
    {
        match self {
            ShortcutEvent::Down => "shortcut-down",
            ShortcutEvent::Up => "shortcut-up",
        }
    }
}

/// Whether Control counts as held after the message: the queried states,
/// overridden by the message's own key.
pub open spec fn ctrl_held(edge: KeyEdge, vk: u16, keys: KeyStates) -> bool {
    if spec_is_ctrl_key(vk) {
        edge == KeyEdge::Down
    } else {
        keys.control < 0 || keys.left_control < 0 || keys.right_control < 0
    }
}

/// Whether a Windows key counts as held after the message.
pub open spec fn win_held(edge: KeyEdge, vk: u16, keys: KeyStates) -> bool {
    if spec_is_win_key(vk) {
        edge == KeyEdge::Down
    } else {
        keys.left_win < 0 || keys.right_win < 0
    }
}

/// New activity of the shortcut and the event to emit.
pub open spec fn spec_transition(active: bool, edge: KeyEdge, vk: u16, keys: KeyStates) -> (bool, Option<ShortcutEvent>) {
    let both = ctrl_held(edge, vk, keys) && win_held(edge, vk, keys);
    if both {
        if !active { (true, Some(ShortcutEvent::Down)) } else { (true, None) }
    } else {
        if active { (false, Some(ShortcutEvent::Up)) } else { (false, None) }
    }
}

/// The hook's decision on a key message for virtual key `vk_code`, given
/// whether the shortcut is active and the queried modifier states.
pub fn shortcut_transition(active: bool, edge: KeyEdge, vk_code: u32, keys: &KeyStates) -> (r: (bool, Option<ShortcutEvent>))
    ensures
        r == spec_transition(active, edge, vk_code as u16, *keys),
{
    let vk: u16 = vk_code as u16;
    let mut ctrl_pressed = is_key_pressed(keys.control) || is_key_pressed(keys.left_control)
        || is_key_pressed(keys.right_control);
    let mut win_pressed = is_key_pressed(keys.left_win) || is_key_pressed(keys.right_win);
    match edge {
        KeyEdge::Down => {
            if is_ctrl_key(vk) {
                ctrl_pressed = true;
            }
            if is_win_key(vk) {
                win_pressed = true;
            }
        }
        KeyEdge::Up => {
            if is_ctrl_key(vk) {
                ctrl_pressed = false;
            }
            if is_win_key(vk) {
                win_pressed = false;
            }
        }
    }
    if ctrl_pressed && win_pressed {
        if !active {
            (true, Some(ShortcutEvent::Down))
        } else {
            (true, None)
        }
    } else {
        if active {
            (false, Some(ShortcutEvent::Up))
        } else {
            (false, None)
        }
    }
}

/// Events alternate: the shortcut is active exactly while Ctrl and Win are
/// held; `Down` is emitted only on the change from inactive to active and
/// `Up` only on the change back, so every `Up` follows a `Down`.
pub proof fn lemma_events_alternate(active: bool, edge: KeyEdge, vk: u16, keys: KeyStates)
    ensures
        spec_transition(active, edge, vk, keys).0 == (ctrl_held(edge, vk, keys) && win_held(edge, vk, keys)),
        spec_transition(active, edge, vk, keys).1 == Some(ShortcutEvent::Down) <==> (!active
            && spec_transition(active, edge, vk, keys).0),
        spec_transition(active, edge, vk, keys).1 == Some(ShortcutEvent::Up) <==> (active
            && !spec_transition(active, edge, vk, keys).0),
        spec_transition(active, edge, vk, keys).1 is None <==> (active == spec_transition(active, edge, vk, keys).0),
{
}

/// Pressing the second key of the shortcut starts it, whichever comes
/// first: a key down of a Control key (0x11, 0xA2, 0xA3) while a Windows key
/// is reported held, or of a Windows key (0x5B, 0x5C) while a Control key is
/// reported held, makes the shortcut active, emitting `Down` unless it was
/// already active.  The key being pressed counts as held even where the
/// queried state does not show it yet.
pub proof fn lemma_second_key_starts_shortcut(active: bool, vk: u16, keys: KeyStates)
    requires
        ((vk == 0x11 || vk == 0xA2 || vk == 0xA3) && (keys.left_win < 0 || keys.right_win < 0)) || ((vk
            == 0x5B || vk == 0x5C) && (keys.control < 0 || keys.left_control < 0 || keys.right_control < 0)),
    ensures
        spec_transition(active, KeyEdge::Down, vk, keys) == (true, if active {
            None::<ShortcutEvent>
        } else {
            Some(ShortcutEvent::Down)
        }),
{
}

/// Messages of other keys follow the reported state: the shortcut is active
/// after them exactly when a Control key and a Windows key are both
/// reported held.
pub proof fn lemma_other_keys_follow_state(active: bool, edge: KeyEdge, vk: u16, keys: KeyStates)
    requires
        vk != 0x11 && vk != 0xA2 && vk != 0xA3 && vk != 0x5B && vk != 0x5C,
    ensures
        spec_transition(active, edge, vk, keys).0 == ((keys.control < 0 || keys.left_control < 0
            || keys.right_control < 0) && (keys.left_win < 0 || keys.right_win < 0)),
{
}

/// A shortcut key that goes down while the other key is not held does not
/// start the shortcut, and ends it if it was active.
pub proof fn lemma_one_key_does_not_start(active: bool, vk: u16, keys: KeyStates)
    requires
        ((vk == 0x11 || vk == 0xA2 || vk == 0xA3) && keys.left_win >= 0 && keys.right_win >= 0) || ((vk
            == 0x5B || vk == 0x5C) && keys.control >= 0 && keys.left_control >= 0 && keys.right_control >= 0),
    ensures
        spec_transition(active, KeyEdge::Down, vk, keys) == (false, if active {
            Some(ShortcutEvent::Up)
        } else {
            None::<ShortcutEvent>
        }),
{
}

/// Releasing either key of the shortcut ends it: a key up of a Control or
/// Windows key leaves the shortcut inactive, whatever the queried states.
pub proof fn lemma_release_ends_shortcut(active: bool, vk: u16, keys: KeyStates)
    requires
        spec_is_ctrl_key(vk) || spec_is_win_key(vk),
    ensures
        !spec_transition(active, KeyEdge::Up, vk, keys).0,
        active ==> spec_transition(active, KeyEdge::Up, vk, keys).1 == Some(ShortcutEvent::Up),
{
}

/// The installed keyboard hook and the application it reports to.
pub struct HookRegistry<H, A> {
    pub hook: Option<H>,
    pub app: Option<A>,
}

impl<H, A> HookRegistry<H, A> {
    /// Nothing installed.
    pub fn new() -> (r: Self)
        ensures
            r.hook is None,
            r.app is None,
    {
        HookRegistry { hook: None, app: None }
    }

    /// Records the application that hook events go to (before the hook is
    /// set, so that the first event finds it).
    pub fn register_app(&mut self, app: A)
        ensures
            final(self).app == Some(app),
            final(self).hook == old(self).hook,
    {
        self.app = Some(app);
    }

    /// Records the installed hook.
    pub fn register_hook(&mut self, hook: H)
        ensures
            final(self).hook == Some(hook),
            final(self).app == old(self).app,
    {
        self.hook = Some(hook);
    }
}

/// Forgets the installed hook and the application.  Returns the hook that
/// is to be uninstalled, if one was installed.
pub fn teardown_global_shortcut<H, A>(registry: &mut HookRegistry<H, A>) -> (hook: Option<H>)
    ensures
        hook == old(registry).hook,
        final(registry).hook is None,
        final(registry).app is None,
{
    let hook = registry.hook.take();
    registry.app = None;
    hook
}

} // verus!
