use filespace::shell_items::{SFGAO_FOLDER, SFGAO_STREAM};
use filespace::shell_menu::{
    clear_pending_new, clipboard_has_files, close_ctx, custom_result, delete_items, enum_menu_tree,
    find_new_menu, format_drive, get_ctx_menu, get_new_menu, get_verb, has_started,
    inject_view_items, invoke_ctx, invoke_new, invoke_verb_direct, is_own_bitmap, menu_item_text,
    native_text, open_step, quick_access_verb, show_menu, start_menu, state_or_default, system_action,
    verb_offset, CtxNode, Menu, MenuAction, MenuEvent, MenuOp, MenuResult, MenuSource, NewItem,
    OpenPhase, PendingCtx, PendingNew, QuickStep, RawItem, RawSub, SystemAction, TopItem, Turn,
    ViewState, ID_REFRESH, ID_SORT_ASC, ID_SORT_DATE, ID_SORT_DESC, ID_SORT_NAME, ID_SORT_SIZE,
    ID_SORT_TYPE, ID_VIEW_BASE,
};

fn names(v: &[&str]) -> Vec<String> {
    v.iter().map(|s| s.to_string()).collect()
}

fn pair(r: Option<MenuResult>) -> Option<(String, String)> {
    r.map(|r| (r.action, r.verb))
}

fn both(a: &str, b: &str) -> Option<(String, String)> {
    Some((a.to_string(), b.to_string()))
}

#[test]
fn own_items_have_results() {
    assert_eq!(pair(custom_result(ID_VIEW_BASE)), both("set-view", "xl-icons"));
    assert_eq!(pair(custom_result(ID_VIEW_BASE + 5)), both("set-view", "details"));
    assert_eq!(pair(custom_result(ID_VIEW_BASE + 7)), both("set-view", "content"));
    assert_eq!(pair(custom_result(ID_VIEW_BASE + 8)), None);
    assert_eq!(pair(custom_result(ID_SORT_NAME)), both("set-sort", "name"));
    assert_eq!(pair(custom_result(ID_SORT_DATE)), both("set-sort", "date"));
    assert_eq!(pair(custom_result(ID_SORT_TYPE)), both("set-sort", "type"));
    assert_eq!(pair(custom_result(ID_SORT_SIZE)), both("set-sort", "size"));
    assert_eq!(pair(custom_result(ID_SORT_ASC)), both("set-sort-dir", "asc"));
    assert_eq!(pair(custom_result(ID_SORT_DESC)), both("set-sort-dir", "desc"));
    assert_eq!(pair(custom_result(ID_REFRESH)), both("refresh", ""));
    assert_eq!(pair(custom_result(1)), None);
}

#[test]
fn injected_items_and_marks() {
    let state = ViewState { view: "tiles".to_string(), sort_key: "size".to_string(), sort_asc: false };
    let ops = inject_view_items(&state);
    assert_eq!(ops.len(), 22);
    let mut checked = Vec::new();
    let mut labels = Vec::new();
    for op in &ops {
        match op {
            MenuOp::Item { id, label, .. } => {
                assert!(custom_result(*id).is_some());
                labels.push(*label);
            }
            MenuOp::Radio { checked: c, .. } => checked.push(*c),
            _ => {}
        }
    }
    assert_eq!(checked, vec![ID_VIEW_BASE + 6, ID_SORT_SIZE, ID_SORT_DESC]);
    assert_eq!(labels[0], "超大图标");
    assert_eq!(labels[8], "名称(N)");
    assert_eq!(labels[14], "刷新(E)");
    match ops[18] {
        MenuOp::Popup { menu, opens, label } => {
            assert!(menu == Menu::Top && opens == Menu::ViewModes);
            assert_eq!(label, "查看(V)");
        }
        _ => panic!("no popup"),
    }
    assert!(matches!(ops[21], MenuOp::Separator { menu: Menu::Top }));
}

#[test]
fn unknown_states_have_default_marks() {
    let st = state_or_default(None);
    assert_eq!((st.view.as_str(), st.sort_key.as_str(), st.sort_asc), ("details", "name", true));
    let st = state_or_default(Some(ViewState {
        view: "mosaic".to_string(),
        sort_key: "colour".to_string(),
        sort_asc: true,
    }));
    let mut checked = Vec::new();
    for op in inject_view_items(&st) {
        if let MenuOp::Radio { checked: c, .. } = op {
            checked.push(c);
        }
    }
    assert_eq!(checked, vec![ID_VIEW_BASE + 5, ID_SORT_NAME, ID_SORT_ASC]);
}

struct World {
    bound: bool,
    created: bool,
    filled: bool,
    chosen: u32,
    verb: &'static str,
    attributes: Option<u32>,
    invoked: bool,
}

fn world(chosen: u32, verb: &'static str) -> World {
    World { bound: true, created: true, filled: true, chosen, verb, attributes: None, invoked: true }
}

fn play(first: Turn, w: &World, trace: &mut Vec<&'static str>) -> MenuResult {
    let mut turn = first;
    loop {
        if turn.destroy {
            trace.push("destroy");
        }
        let event = match turn.action {
            MenuAction::Bind(s) => {
                trace.push(if s == MenuSource::Items { "items" } else { "background" });
                MenuEvent::Done(w.bound)
            }
            MenuAction::Create => {
                trace.push("create");
                MenuEvent::Done(w.created)
            }
            MenuAction::Fill { inject } => {
                trace.push(if inject { "inject" } else { "fill" });
                MenuEvent::Done(w.filled)
            }
            MenuAction::Track => {
                trace.push("track");
                MenuEvent::Chosen(w.chosen)
            }
            MenuAction::AskVerb(_) => {
                trace.push("verb");
                MenuEvent::Verb(w.verb.to_string())
            }
            MenuAction::AskAttributes => {
                trace.push("attributes");
                MenuEvent::Attributes(w.attributes)
            }
            MenuAction::Invoke(_) => {
                trace.push("invoke");
                MenuEvent::Done(w.invoked)
            }
            MenuAction::Finish(r) => return r,
        };
        turn = show_menu(turn.run, event);
    }
}

fn run(selection: &[&str], background: Option<&str>, w: &World) -> (String, String, Vec<&'static str>) {
    let mut trace = Vec::new();
    let first = start_menu(&names(selection), &background.map(|s| s.to_string()));
    let r = play(first, w, &mut trace);
    (r.action, r.verb, trace)
}

#[test]
fn commands_are_invoked() {
    let (action, verb, trace) = run(&["C:\\a", "C:\\b"], None, &world(17, "copy"));
    assert_eq!((action.as_str(), verb.as_str()), ("invoked", "copy"));
    assert_eq!(trace, vec!["items", "create", "fill", "track", "destroy", "verb", "invoke"]);
    let mut w = world(17, "copy");
    w.invoked = false;
    let (action, verb, _) = run(&["C:\\a"], None, &w);
    assert_eq!((action.as_str(), verb.as_str()), ("none", "copy"));
}

#[test]
fn folder_menus_get_own_items() {
    let (action, verb, trace) = run(&[], Some("C:\\d"), &world(ID_REFRESH, ""));
    assert_eq!((action.as_str(), verb.as_str()), ("refresh", ""));
    assert_eq!(trace, vec!["background", "create", "inject", "track", "destroy"]);
}

#[test]
fn rename_is_left_to_the_front_end() {
    let (action, verb, trace) = run(&["C:\\a"], None, &world(3, "rename"));
    assert_eq!((action.as_str(), verb.as_str()), ("rename", "rename"));
    assert!(!trace.contains(&"invoke"));
}

#[test]
fn folders_are_opened_in_place() {
    let mut w = world(1, "open");
    w.attributes = Some(SFGAO_FOLDER);
    assert_eq!(run(&["C:\\d"], None, &w).0, "navigate");
    w.attributes = Some(SFGAO_FOLDER | SFGAO_STREAM);
    assert_eq!(run(&["C:\\a.zip"], None, &w).0, "invoked");
    w.attributes = None;
    assert_eq!(run(&["C:\\a"], None, &w).0, "invoked");
    w.attributes = Some(SFGAO_FOLDER);
    assert_eq!(run(&["C:\\a", "C:\\b"], None, &w).0, "invoked");
}

#[test]
fn failures_end_with_nothing() {
    let mut w = world(1, "open");
    w.filled = false;
    let (action, _, trace) = run(&["C:\\a"], None, &w);
    assert_eq!(action, "none");
    assert_eq!(trace, vec!["items", "create", "fill", "destroy"]);
    w = world(1, "open");
    w.created = false;
    assert_eq!(run(&["C:\\a"], None, &w).2, vec!["items", "create"]);
    w = world(1, "open");
    w.bound = false;
    assert_eq!(run(&["C:\\a"], None, &w).2, vec!["items"]);
    let (action, verb, trace) = run(&[], None, &world(1, "open"));
    assert_eq!((action.as_str(), verb.as_str()), ("none", ""));
    assert!(trace.is_empty());
    assert_eq!(run(&["C:\\a"], None, &world(0, "open")).0, "none");
}

#[test]
fn opening_a_menu_step_by_step() {
    assert!(open_step(OpenPhase::Binding, true) == (OpenPhase::Creating, false));
    assert!(open_step(OpenPhase::Creating, true) == (OpenPhase::Filling, false));
    assert!(open_step(OpenPhase::Filling, true) == (OpenPhase::Ready, false));
    assert!(open_step(OpenPhase::Filling, false) == (OpenPhase::Failed, true));
    assert!(open_step(OpenPhase::Creating, false) == (OpenPhase::Failed, false));
}

#[test]
fn verbs_in_buffers() {
    assert_eq!(get_verb(true, &[0x61, 0, 0x62]), "a");
    assert_eq!(get_verb(true, &[0x61, 0x62]), "");
    assert_eq!(get_verb(false, &[0x61, 0]), "");
    assert_eq!(verb_offset(1), Some(0));
    assert_eq!(verb_offset(0x7FFF), Some(0x7FFE));
    assert_eq!(verb_offset(0), None);
    assert_eq!(verb_offset(0x8000), None);
}

#[test]
fn verbs_are_spelled_twice() {
    let p = invoke_verb_direct(&names(&["C:\\a"]), &None, "é").unwrap();
    assert!(p.source == MenuSource::Items);
    assert_eq!(p.wide, vec![0xE9, 0]);
    assert_eq!(p.narrow, vec![0xC3, 0xA9, 0]);
    let p = invoke_verb_direct(&[], &Some("C:\\d".to_string()), "a\0b").unwrap();
    assert!(p.source == MenuSource::Background);
    assert_eq!(p.wide, vec![0x61, 0, 0x62, 0]);
    assert_eq!(p.narrow, vec![0]);
    assert!(invoke_verb_direct(&[], &None, "paste").is_none());
}

#[test]
fn quick_access_items_are_searched() {
    let v = names(&["C:\\a", "C:\\b", "C:\\b"]);
    assert!(quick_access_verb(3, &v, "C:\\b") == QuickStep::Invoke(1));
    assert!(quick_access_verb(3, &v, "c:\\b") == QuickStep::More);
    assert!(quick_access_verb(0, &[], "C:\\b") == QuickStep::Missing);
    assert!(quick_access_verb(1, &[], "C:\\b") == QuickStep::More);
}

fn started(action: &str) -> Option<(String, Option<String>)> {
    match system_action(action) {
        SystemAction::Run { file, params } => Some((file.to_string(), params)),
        _ => None,
    }
}

#[test]
fn system_actions_start_programs() {
    let some = |f: &str, p: Option<&str>| Some((f.to_string(), p.map(|s| s.to_string())));
    assert_eq!(started("clean-drive:C"), some("cleanmgr.exe", Some("/d C:")));
    assert_eq!(started("clean-drive"), some("cleanmgr.exe", None));
    assert_eq!(started("clean-drive:d"), some("cleanmgr.exe", Some("/d d:")));
    assert_eq!(started("optimize-drives"), some("dfrgui.exe", None));
    assert_eq!(started("map-drive"), some("rundll32.exe", Some("shell32.dll,SHHelpShortcuts_RunDLL Connect")));
    assert_eq!(started("disconnect-drive"), some("rundll32.exe", Some("shell32.dll,SHHelpShortcuts_RunDLL Disconnect")));
    assert_eq!(started("add-network-place"), some("rundll32.exe", Some("shwebsvc.dll,AddNetPlaceRunDll")));
    assert_eq!(started("folder-options"), some("rundll32.exe", Some("shell32.dll,Options_RunDLL 0")));
    assert!(matches!(system_action("add-media-server"), SystemAction::AddMediaServer));
    for other in [
        "format", "clean-drives", "clean-drive-all", "clean-drive:", "clean-drive:CD",
        "clean-drive:1", "clean-drive:C /x", "clean-drive:é", "",
    ] {
        assert!(matches!(system_action(other), SystemAction::Unknown), "{other}");
    }
    assert!(has_started(33));
    assert!(!has_started(32));
}

#[test]
fn drives_to_format() {
    assert_eq!(format_drive('A'), Some(0));
    assert_eq!(format_drive('c'), Some(2));
    assert_eq!(format_drive('Z'), Some(25));
    assert_eq!(format_drive('['), None);
    assert_eq!(format_drive('1'), None);
    assert_eq!(format_drive('\u{0142}'), Some(1));
}

#[test]
fn small_decisions() {
    assert_eq!(delete_items(true), 0);
    assert_eq!(delete_items(false), 0x40);
    assert!(clipboard_has_files(true, 0, false));
    assert!(clipboard_has_files(false, 9, true));
    assert!(!clipboard_has_files(false, 0, true));
    assert!(is_own_bitmap(17));
    assert!(!is_own_bitmap(16));
    assert_eq!(native_text(5, &[0x26, 0x4F, 0x70, 0x26, 0x6E, 0]), "&Op&n");
    assert_eq!(native_text(0, &[0x4F]), "");
    assert_eq!(native_text(-1, &[0x4F]), "");
    assert_eq!(menu_item_text("&Op&n"), "Opn");
    assert_eq!(menu_item_text(""), "");
}

#[test]
fn new_menu_is_found() {
    let top = |has_sub: bool, text: &str| TopItem { has_sub, text: text.to_string() };
    let v = vec![top(false, "New"), top(true, "查看"), top(true, "新&建(W)"), top(true, "&New")];
    assert_eq!(find_new_menu(&v), Some(2));
    assert_eq!(find_new_menu(&v[0..2]), None);
    assert_eq!(find_new_menu(&v[3..]), Some(0));
}

fn new_item(id: u32, text: &str) -> NewItem {
    NewItem { id, text: text.to_string(), icon: None }
}

#[test]
fn new_menu_keeps_groups() {
    let mut p = PendingNew { menu: None };
    let mut first = new_item(30, "文件夹(&F)");
    first.icon = Some("i".to_string());
    let v = get_new_menu(&mut p, Some(9), &[
        new_item(0, ""),
        first,
        new_item(u32::MAX, ""),
        new_item(0, ""),
        new_item(31, "&"),
        new_item(32, "文本文档"),
        new_item(0, ""),
    ]);
    let got: Vec<(u32, &str, bool)> = v.iter().map(|e| (e.id, e.label.as_str(), e.separator)).collect();
    assert_eq!(got, vec![(30, "文件夹(F)", false), (0, "", true), (32, "文本文档", false)]);
    assert_eq!(v[0].icon.as_deref(), Some("i"));
    assert_eq!(p.menu, Some(9));
    assert_eq!(clear_pending_new(&mut p), Some(9));
    assert!(get_new_menu(&mut p, Some(9), &[new_item(0, ""), new_item(0, "")]).is_empty());
    assert_eq!(p.menu, Some(9));
}

fn raw(id: u32, text: &str) -> RawItem {
    RawItem { id, text: text.to_string(), verb: "v".to_string(), icon: None, sub: None }
}

fn sub(text: &str, items: Vec<RawItem>, refilled: Vec<RawItem>) -> RawItem {
    RawItem { id: u32::MAX, text: text.to_string(), verb: "v".to_string(), icon: None, sub: Some(RawSub { items, refilled }) }
}

fn shape(v: &Vec<CtxNode>) -> String {
    let mut s = String::new();
    for n in v {
        if n.separator {
            s.push('|');
        } else {
            s.push_str(&n.label);
            if !n.children.is_empty() {
                s.push('(');
                s.push_str(&shape(&n.children));
                s.push(')');
            }
        }
        s.push(' ');
    }
    s.trim().to_string()
}

#[test]
fn menu_trees_are_tidy() {
    let items = vec![
        raw(0, ""),
        raw(1, "&open\tEnter\t&x"),
        raw(0, ""),
        raw(u32::MAX, ""),
        raw(2, "&"),
        sub("s&end", vec![raw(0, ""), raw(3, "mail")], vec![raw(4, "never")]),
        sub("late", vec![raw(0, "")], vec![raw(5, "found")]),
        raw(0x8000, "own"),
        raw(0, ""),
    ];
    let v = enum_menu_tree(&items, 0);
    assert_eq!(shape(&v), "open | send(mail) late(found) own");
    assert_eq!(v[0].accel, "Enter\tx");
    assert_eq!((v[1].id, v[1].label.as_str(), v[1].accel.as_str()), (0, "", ""));
    assert!(v[1].verb.is_empty() && v[1].icon.is_none() && v[1].children.is_empty());
    assert!(enum_menu_tree(&items, 3).iter().all(|n| n.children.is_empty()));
    assert!(enum_menu_tree(&items, 9).iter().all(|n| n.children.is_empty()));
    assert_eq!(v[0].verb, "v");
    assert_eq!(v[2].verb, "");
    assert_eq!(v[4].verb, "");
    assert_eq!(v[4].id, 0x8000);
}

#[test]
fn menu_trees_have_four_levels() {
    let deep = sub("a", vec![sub("b", vec![sub("c", vec![sub("d", vec![raw(1, "e")], vec![])], vec![])], vec![])], vec![]);
    assert_eq!(shape(&enum_menu_tree(&vec![deep], 0)), "a(b(c(d)))");
}

#[test]
fn pending_menus_are_used_once() {
    let mut p = PendingCtx { menu: None };
    assert_eq!(close_ctx(&mut p), None);
    let v = get_ctx_menu(&mut p, 77, names(&["C:\\a"]), &vec![raw(5, "copy")]);
    assert_eq!(v.len(), 1);
    let (turn, menu) = invoke_ctx(&mut p, 5);
    assert_eq!(menu.unwrap().popup, 77);
    assert!(matches!(turn.action, MenuAction::AskVerb(4)));
    let mut trace = Vec::new();
    let r = play(turn, &world(0, "copy"), &mut trace);
    assert_eq!((r.action.as_str(), r.verb.as_str()), ("invoked", "copy"));
    assert_eq!(trace, vec!["verb", "invoke", "destroy"]);
    let (turn, menu) = invoke_ctx(&mut p, 5);
    assert!(menu.is_none());
    let mut trace = Vec::new();
    assert_eq!(play(turn, &world(0, "copy"), &mut trace).action, "none");
    assert!(trace.is_empty());
    get_ctx_menu(&mut p, 78, vec![], &vec![]);
    assert_eq!(close_ctx(&mut p), Some(78));
    assert!(p.menu.is_none());
    let (turn, menu) = invoke_ctx(&mut p, 0);
    assert!(menu.is_none());
    let mut trace = Vec::new();
    assert_eq!(play(turn, &world(0, "copy"), &mut trace).action, "none");
    assert!(trace.is_empty());
}

#[test]
fn pending_new_menus_are_used_once() {
    let mut p = PendingNew { menu: None };
    assert_eq!(invoke_new(&mut p, 0), None);
    assert_eq!(get_new_menu(&mut p, Some(9), &[new_item(4, "x")]).len(), 1);
    assert_eq!(invoke_new(&mut p, 4), Some((9, 3)));
    assert_eq!(invoke_new(&mut p, 4), None);
    assert!(get_new_menu(&mut p, None, &[new_item(4, "x")]).is_empty());
    assert_eq!(invoke_new(&mut p, 0), None);
    assert_eq!(invoke_new(&mut p, 4), None);
    p.menu = Some(8);
    assert_eq!(clear_pending_new(&mut p), Some(8));
    assert_eq!(clear_pending_new(&mut p), None);
}
