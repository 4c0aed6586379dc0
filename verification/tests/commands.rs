use filespace::commands::{format_drive, get_start_path, IconReq};
use filespace::shell_thread::{
    forward, helper_wndproc, Forward, MessageFor, WM_DRAWITEM, WM_INITMENUPOPUP, WM_MEASUREITEM,
    WM_MENUCHAR, WM_MENUSELECT,
};
use filespace::shell_watch::{unwatch, watch, WatchState, WM_SHNOTIFY};

fn start(arg: &str) -> Option<String> {
    get_start_path(Some(arg.to_string()))
}

#[test]
fn start_paths() {
    assert_eq!(start("C:\\d").as_deref(), Some("C:\\d"));
    assert_eq!(start("\\\\srv\\share").as_deref(), Some("\\\\srv\\share"));
    assert_eq!(start("::{X}").as_deref(), Some("::{X}"));
    assert_eq!(start("z:").as_deref(), Some("z:"));
    assert_eq!(start("1:"), None);
    assert_eq!(start("-:x"), None);
    assert_eq!(start("C"), None);
    assert_eq!(start(":C:"), None);
    assert_eq!(start("--flag"), None);
    assert_eq!(start("é:"), None);
    assert_eq!(start(""), None);
    assert_eq!(get_start_path(None), None);
}

#[test]
fn drive_letters_out_of_texts() {
    assert_eq!(format_drive("d:"), Some(3));
    assert_eq!(format_drive(""), None);
    assert_eq!(format_drive("?"), None);
    let r = IconReq { path: "C:\\a".to_string(), is_folder: true, ext: String::new() };
    assert!(r.is_folder);
}

#[test]
fn messages_of_the_helper_window() {
    assert_eq!(WM_SHNOTIFY, 0x400 + 0x77);
    assert!(helper_wndproc(WM_SHNOTIFY) == MessageFor::Watch);
    for msg in [WM_INITMENUPOPUP, WM_DRAWITEM, WM_MEASUREITEM, WM_MENUCHAR, WM_MENUSELECT] {
        assert!(helper_wndproc(msg) == MessageFor::Menu);
    }
    assert!(helper_wndproc(0x0F) == MessageFor::System);
}

#[test]
fn newer_interface_answers_first() {
    assert!(forward(Forward::AskNewer, Some(5)) == Forward::Answer(5));
    let s = forward(Forward::AskNewer, None);
    assert!(s == Forward::AskOlder);
    assert!(forward(s, Some(5)) == Forward::Answer(0));
    assert!(forward(s, None) == Forward::System);
    assert!(forward(Forward::System, Some(1)) == Forward::System);
}

#[test]
fn one_watch_at_a_time() {
    let mut s = WatchState { id: 0 };
    assert_eq!(unwatch(&mut s), None);
    watch(&mut s, Some(7));
    assert_eq!(s.id, 7);
    assert_eq!(unwatch(&mut s), Some(7));
    assert_eq!(s.id, 0);
    watch(&mut s, None);
    assert_eq!(unwatch(&mut s), None);
}
