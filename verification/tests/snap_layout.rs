use filespace::snap_layout::{
    init, initial_state, message_point, place_strip, set_caption_rects, set_hover, set_maximized,
    set_rect, set_strip_btn, snap_subclass_proc, strip_subclass_proc, strip_zone, sync_strip,
    windows_created, Effect, Reply, SnapState, StripAction, BUTTON_CLOSE, BUTTON_MIN, BUTTON_NONE,
    HTCAPTION, HTCLOSE, HTMAXBUTTON, HTMINBUTTON, SC_CLOSE, SC_MAXIMIZE, SC_MINIMIZE, SC_RESTORE,
    WM_NCHITTEST, WM_NCLBUTTONDBLCLK, WM_NCLBUTTONDOWN, WM_NCLBUTTONUP, WM_NCMOUSELEAVE,
    WM_SETCURSOR,
};

fn caption() -> SnapState {
    let mut s = initial_state();
    set_rect(&mut s, 150, 0, 50, 30);
    set_caption_rects(&mut s, 100, 50, 200, 50);
    s
}

#[test]
fn changes_are_told_once() {
    let mut s = initial_state();
    assert!(!set_hover(&mut s, false));
    assert!(set_hover(&mut s, true));
    assert!(!set_hover(&mut s, true));
    assert_eq!(set_strip_btn(&mut s, BUTTON_MIN), Some("min"));
    assert_eq!(set_strip_btn(&mut s, BUTTON_MIN), None);
    assert_eq!(set_strip_btn(&mut s, BUTTON_CLOSE), Some("close"));
    assert_eq!(set_strip_btn(&mut s, BUTTON_NONE), Some(""));
}

#[test]
fn zones_of_the_strip() {
    let s = caption();
    assert_eq!(strip_zone(&s, 99), HTCAPTION);
    assert_eq!(strip_zone(&s, 100), HTMINBUTTON);
    assert_eq!(strip_zone(&s, 150), HTMAXBUTTON);
    assert_eq!(strip_zone(&s, 200), HTCLOSE);
    assert_eq!(strip_zone(&s, 249), HTCLOSE);
    assert_eq!(strip_zone(&s, 250), HTCAPTION);
    let mut t = s;
    set_caption_rects(&mut t, 0, 500, 0, 0);
    assert_eq!(strip_zone(&t, 250), HTMINBUTTON);
    assert_eq!(strip_zone(&t, 160), HTMAXBUTTON);
    set_caption_rects(&mut t, i32::MAX, i32::MAX, 0, 0);
    assert_eq!(strip_zone(&t, i32::MAX), HTMINBUTTON);
}

#[test]
fn points_in_messages() {
    assert_eq!(message_point(0x0002_0001), (1, 2));
    assert_eq!(message_point(0xFFFE_FFFF), (-1, -2));
    assert_eq!(message_point(0xFFFF_FFFF_8000_7FFF), (32767, -32768));
}

#[test]
fn overlay_is_the_maximize_button() {
    let mut s = caption();
    let r = snap_subclass_proc(&s, WM_NCHITTEST, 0, false);
    assert!(r.effects == vec![Effect::Hover(true), Effect::TrackLeave]);
    assert!(r.reply == Reply::Value(HTMAXBUTTON));
    set_hover(&mut s, true);
    assert!(snap_subclass_proc(&s, WM_NCHITTEST, 0, false).effects.is_empty());
    let r = snap_subclass_proc(&s, WM_NCMOUSELEAVE, 0, false);
    assert!(r.effects == vec![Effect::Hover(false)] && r.reply == Reply::System);
    let r = snap_subclass_proc(&s, WM_NCLBUTTONDOWN, HTMAXBUTTON, false);
    assert!(r.effects.is_empty() && r.reply == Reply::Value(0));
    let r = snap_subclass_proc(&s, WM_NCLBUTTONDBLCLK, HTCLOSE, false);
    assert!(r.reply == Reply::System);
    let r = snap_subclass_proc(&s, WM_NCLBUTTONUP, HTMAXBUTTON, false);
    assert!(r.effects == vec![Effect::Command(SC_MAXIMIZE), Effect::Hover(false)]);
    let r = snap_subclass_proc(&s, WM_NCLBUTTONUP, HTMAXBUTTON, true);
    assert!(r.effects[0] == Effect::Command(SC_RESTORE));
    let r = snap_subclass_proc(&s, WM_SETCURSOR, 0, false);
    assert!(r.effects == vec![Effect::Arrow] && r.reply == Reply::Value(1));
    assert!(snap_subclass_proc(&s, 0x1234, 0, false).reply == Reply::System);
}

#[test]
fn strip_notes_the_button_under_the_pointer() {
    let s = caption();
    let r = strip_subclass_proc(&s, WM_NCHITTEST, 0, 160, false);
    assert!(r.effects == vec![Effect::Hover(true), Effect::Button(BUTTON_NONE), Effect::TrackLeave]);
    assert!(r.reply == Reply::Value(HTMAXBUTTON));
    let r = strip_subclass_proc(&s, WM_NCHITTEST, 0, 210, false);
    assert!(r.effects[1] == Effect::Button(BUTTON_CLOSE) && r.effects[0] == Effect::Hover(false));
    let r = strip_subclass_proc(&s, WM_NCMOUSELEAVE, 0, 0, false);
    assert!(r.effects == vec![Effect::Hover(false), Effect::Button(BUTTON_NONE)]);
    assert!(r.reply == Reply::System);
}

#[test]
fn strip_presses_and_releases() {
    let s = caption();
    let r = strip_subclass_proc(&s, WM_NCLBUTTONDOWN, HTCAPTION, 0, true);
    assert!(r.effects == vec![Effect::Post] && r.reply == Reply::Value(0));
    let r = strip_subclass_proc(&s, WM_NCLBUTTONDBLCLK, HTCLOSE, 0, true);
    assert!(r.effects.is_empty() && r.reply == Reply::Value(0));
    let expected = [(HTCLOSE, SC_CLOSE), (HTMINBUTTON, SC_MINIMIZE), (HTMAXBUTTON, SC_RESTORE)];
    for (zone, cmd) in expected {
        let r = strip_subclass_proc(&s, WM_NCLBUTTONUP, zone, 0, true);
        assert!(r.effects == vec![Effect::Hover(false), Effect::Button(BUTTON_NONE), Effect::Command(cmd)]);
    }
    let r = strip_subclass_proc(&s, WM_NCLBUTTONUP, HTMAXBUTTON, 0, false);
    assert!(r.effects[2] == Effect::Command(SC_MAXIMIZE));
    let r = strip_subclass_proc(&s, WM_NCLBUTTONUP, HTCAPTION, 0, true);
    assert!(r.effects.is_empty() && r.reply == Reply::System);
    let r = strip_subclass_proc(&s, WM_SETCURSOR, 0, 0, true);
    assert!(r.effects == vec![Effect::Arrow]);
}

#[test]
fn strip_is_shown_while_maximized() {
    let mut s = initial_state();
    assert!(sync_strip(&s) == StripAction::Nothing);
    assert!(set_maximized(&mut s, true) == StripAction::Nothing);
    assert!(init(&s, true));
    assert!(!init(&s, false));
    assert!(windows_created(&mut s, true, true) == StripAction::Show);
    assert!(!init(&s, true));
    assert!(set_maximized(&mut s, false) == StripAction::Hide);
    assert!(set_rect(&mut s, 1, 2, 3, 4));
    assert_eq!((s.max_x, s.max_y, s.max_w, s.max_h), (1, 2, 3, 4));
    assert_eq!(place_strip(4, 3), 7);
    assert_eq!(place_strip(0, 0), 1);
}
