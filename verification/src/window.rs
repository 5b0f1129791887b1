//! Window behaviour: where the overlay goes, what closing the main window
//! does, and whether the main window shows at start.

use vstd::prelude::*;
use crate::config::AppConfig;
use crate::files::{has_prefix, starts_with};

verus! {

/// Label of the main window.
pub const MAIN_WINDOW: &'static str = "main";

/// Label of the status overlay window.
pub const OVERLAY_WINDOW: &'static str = "overlay";

/// Size assumed for the overlay when its real size cannot be read.
pub const OVERLAY_DEFAULT_SIZE: (u32, u32) = (300, 60);

/// Distance of the overlay from the bottom of the screen, in pixels.
pub const OVERLAY_BOTTOM_MARGIN: i32 = 100;

/// `a / b` rounded toward zero, for `b > 0`.
pub open spec fn div_toward_zero(a: int, b: int) -> int {
    if a >= 0 { a / b } else { -((-a) / b) }
}

/// Top-left corner of the overlay: centred horizontally, its bottom edge
/// `OVERLAY_BOTTOM_MARGIN` pixels above the bottom of the screen.
pub open spec fn spec_overlay_position(screen: (u32, u32), window: (u32, u32)) -> (int, int) {
    (div_toward_zero(screen.0 - window.0, 2), screen.1 - window.1 - OVERLAY_BOTTOM_MARGIN)
}

/// Where the overlay goes on a screen of `screen_width` x `screen_height`
/// pixels, given its size if it could be read.
pub fn overlay_position(screen_width: u32, screen_height: u32, window: Option<(u32, u32)>) -> (p: (i32, i32))
    requires
        screen_width <= i32::MAX,
        screen_height <= i32::MAX,
        window matches Some(w) ==> w.0 <= i32::MAX && w.1 <= i32::MAX && screen_height - w.1 - 100 >= i32::MIN,
    ensures
        (p.0 as int, p.1 as int) == spec_overlay_position(
            (screen_width, screen_height),
            match window {
                Some(w) => w,
                None => OVERLAY_DEFAULT_SIZE,
            },
        ),
{
    let (w, h) = match window {
        Some(size) => size,
        None => OVERLAY_DEFAULT_SIZE,
    };
    let dx: i64 = screen_width as i64 - w as i64;
    let x: i64 = if dx >= 0 { dx / 2 } else { -((-dx) / 2) };
    let y: i64 = screen_height as i64 - h as i64 - OVERLAY_BOTTOM_MARGIN as i64;
    (x as i32, y as i32)
}

/// Whether `a` and `b` are the same text.
pub fn same_text(a: &str, b: &str) -> (r: bool)
    ensures
        r == (a@ == b@),
{
    let r = a.unicode_len() == b.unicode_len() && starts_with(a, b);
    proof {
        if a@.len() == b@.len() && has_prefix(a@, b@) {
            assert(a@.take(b@.len() as int) =~= a@);
        }
        if a@ == b@ {
            assert(a@.take(b@.len() as int) =~= b@);
        }
    }
    r
}

/// Whether a close request on the window `label` only hides it (the main
/// window stays alive in the tray) instead of closing it.
pub fn hides_instead_of_closing(label: &str, close_requested: bool) -> (r: bool)
    ensures
        r == (close_requested && label@ == MAIN_WINDOW@),
{
    close_requested && same_text(label, MAIN_WINDOW)
}

/// Whether the main window is shown when the application starts.
pub fn shows_main_window_at_start(config: &AppConfig) -> (r: bool)
    ensures
        r == !config.start_minimized,
{
    !config.start_minimized
}

} // verus!
