use voice_input::config::AppConfig;
use voice_input::window::{
    hides_instead_of_closing, overlay_position, same_text, shows_main_window_at_start, MAIN_WINDOW,
    OVERLAY_WINDOW,
};

#[test]
fn overlay_centred_above_taskbar() {
    assert_eq!(overlay_position(1920, 1080, Some((300, 60))), (810, 920));
    assert_eq!(overlay_position(1920, 1080, None), (810, 920));
    assert_eq!(overlay_position(1921, 1080, Some((400, 80))), (760, 900));
}

#[test]
fn overlay_larger_than_screen() {
    // truncation toward zero, as integer division does
    assert_eq!(overlay_position(100, 50, Some((301, 60))), (-100, -110));
    assert_eq!(overlay_position(0, 0, Some((1, 0))), (0, -100));
}

#[test]
fn close_hides_main_only() {
    assert!(hides_instead_of_closing("main", true));
    assert!(!hides_instead_of_closing("main", false));
    assert!(!hides_instead_of_closing("overlay", true));
    assert!(!hides_instead_of_closing("mainx", true));
    assert!(same_text("日本", "日本"));
    assert!(!same_text("日本", "日"));
    assert_eq!((MAIN_WINDOW, OVERLAY_WINDOW), ("main", "overlay"));
}

#[test]
fn start_visibility() {
    let mut c = AppConfig::default();
    assert!(shows_main_window_at_start(&c));
    c.start_minimized = true;
    assert!(!shows_main_window_at_start(&c));
}
