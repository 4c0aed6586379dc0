use filespace::drag_drop::{
    abort_drag, array_suffices, begin_drag, compute_effect, desc_for, drag_enter, drag_leave,
    drag_over, drop_on, emit_due, extract_sources, finish_drag, forward_accepted,
    has_file_component, is_descendant, is_drive_root, parent_eq, pick, prepare_drag, same_volume,
    sources_from_array, update_drop_target, wstr260, DragState, DropAction, DroppedFile,
    PathProbe, RawSource, SourceInfo, DROPEFFECT_COPY, DROPEFFECT_LINK, DROPEFFECT_MOVE,
    DROPEFFECT_NONE, DROPIMAGE_COPY, DROPIMAGE_INVALID, DROPIMAGE_LINK, DROPIMAGE_MOVE, MK_ALT,
    MK_CONTROL, MK_SHIFT,
};
use filespace::wide::buffer_text;

const ALL: u32 = 7;

fn source(path: &str, is_dir: bool) -> SourceInfo {
    SourceInfo { parse_path: path.to_string(), fs_path: Some(path.to_string()), is_dir }
}

fn state(kind: &str, target: &str, sources: Vec<SourceInfo>, probes: &[PathProbe]) -> DragState {
    let mut st = DragState::default();
    drag_enter(&mut st, ALL, sources, 0);
    update_drop_target(
        &mut st,
        kind.to_string(),
        target.to_string(),
        Some(target.to_string()),
        "目标".to_string(),
        probes,
    );
    st
}

#[test]
fn no_target_means_no_effect() {
    let mut st = DragState::default();
    assert_eq!(drag_enter(&mut st, ALL, vec![source("C:\\a", false)], 0), DROPEFFECT_NONE);
    update_drop_target(&mut st, "none".to_string(), "x".to_string(), None, String::new(), &[]);
    assert!(st.target.is_none());
    assert_eq!(compute_effect(0, &st), DROPEFFECT_NONE);
}

#[test]
fn same_volume_moves_and_other_volume_copies() {
    let st = state("item", "C:\\dst", vec![source("c:\\src\\a.txt", false)], &[]);
    assert_eq!(compute_effect(0, &st), DROPEFFECT_MOVE);
    let st = state("item", "D:\\dst", vec![source("c:\\src\\a.txt", false)], &[]);
    assert_eq!(compute_effect(0, &st), DROPEFFECT_COPY);
}

#[test]
fn keys_choose_the_effect() {
    let st = state("item", "D:\\dst", vec![source("C:\\a.txt", false)], &[]);
    assert_eq!(compute_effect(MK_CONTROL, &st), DROPEFFECT_COPY);
    assert_eq!(compute_effect(MK_SHIFT, &st), DROPEFFECT_MOVE);
    assert_eq!(compute_effect(MK_ALT, &st), DROPEFFECT_LINK);
    assert_eq!(compute_effect(MK_CONTROL | MK_SHIFT, &st), DROPEFFECT_LINK);
}

#[test]
fn nothing_drops_onto_itself_or_inside() {
    let st = state("item", "c:\\SRC", vec![source("C:\\src", true)], &[]);
    assert_eq!(compute_effect(MK_CONTROL, &st), DROPEFFECT_NONE);
    let st = state("item", "C:\\src\\sub", vec![source("C:\\src\\", true)], &[]);
    assert_eq!(compute_effect(MK_CONTROL, &st), DROPEFFECT_NONE);
    let st = state("item", "C:\\src2", vec![source("C:\\src", true)], &[]);
    assert_eq!(compute_effect(MK_CONTROL, &st), DROPEFFECT_COPY);
}

#[test]
fn moving_in_place_has_no_effect() {
    let st = state("background", "C:\\dir\\", vec![source("C:\\dir\\a.txt", false)], &[]);
    assert_eq!(compute_effect(0, &st), DROPEFFECT_NONE);
    assert_eq!(compute_effect(MK_CONTROL, &st), DROPEFFECT_COPY);
    let st = state("background", "C:\\", vec![source("C:\\a.txt", false)], &[]);
    assert_eq!(compute_effect(MK_SHIFT, &st), DROPEFFECT_NONE);
}

#[test]
fn containers_are_copied_into() {
    let probes = [PathProbe { is_file: false, exists: false }, PathProbe { is_file: true, exists: true }];
    let st = state("item", "C:\\a.zip\\in", vec![source("C:\\b.txt", false)], &probes);
    assert!(st.target.as_ref().unwrap().is_container_file);
    assert_eq!(compute_effect(0, &st), DROPEFFECT_COPY);
    assert_eq!(compute_effect(MK_SHIFT, &st), DROPEFFECT_COPY);
    assert_eq!(compute_effect(MK_CONTROL, &st), DROPEFFECT_COPY);
    assert_eq!(compute_effect(MK_ALT, &st), DROPEFFECT_COPY);
    assert_eq!(compute_effect(MK_CONTROL | MK_SHIFT, &st), DROPEFFECT_COPY);
    let st = state("item", "C:\\a.zip\\in", vec![source("D:\\", true)], &probes);
    assert_eq!(compute_effect(0, &st), DROPEFFECT_COPY);
}

#[test]
fn drives_become_links() {
    let st = state("item", "C:\\dst", vec![source("D:\\", true)], &[]);
    assert_eq!(compute_effect(0, &st), DROPEFFECT_LINK);
}

#[test]
fn virtual_and_unknown_sources_are_copied() {
    let item = SourceInfo { parse_path: "::{X}".to_string(), fs_path: None, is_dir: false };
    let st = state("item", "C:\\dst", vec![item], &[]);
    assert_eq!(compute_effect(0, &st), DROPEFFECT_COPY);
    let st = state("item", "C:\\dst", vec![], &[]);
    assert_eq!(compute_effect(0, &st), DROPEFFECT_COPY);
}

#[test]
fn only_folders_are_pinned() {
    let st = state("pin", "", vec![source("C:\\a", true), source("C:\\b", true)], &[]);
    assert_eq!(compute_effect(0, &st), DROPEFFECT_LINK);
    let st = state("pin", "", vec![source("C:\\a", true), source("C:\\b.txt", false)], &[]);
    assert_eq!(compute_effect(0, &st), DROPEFFECT_NONE);
    let st = state("pin", "", vec![], &[]);
    assert_eq!(compute_effect(0, &st), DROPEFFECT_NONE);
}

#[test]
fn pick_falls_back_to_what_is_allowed() {
    assert_eq!(pick(DROPEFFECT_MOVE, DROPEFFECT_MOVE), DROPEFFECT_MOVE);
    assert_eq!(pick(DROPEFFECT_LINK, DROPEFFECT_MOVE | DROPEFFECT_COPY), DROPEFFECT_COPY);
    assert_eq!(pick(DROPEFFECT_COPY, DROPEFFECT_LINK), DROPEFFECT_LINK);
    assert_eq!(pick(DROPEFFECT_COPY, 0), DROPEFFECT_NONE);
}

#[test]
fn unknown_allowance_allows_everything() {
    let mut st = state("item", "C:\\dst", vec![source("C:\\src\\a", false)], &[]);
    st.allowed = 0;
    assert_eq!(compute_effect(0, &st), DROPEFFECT_MOVE);
    st.allowed = DROPEFFECT_COPY;
    assert_eq!(compute_effect(0, &st), DROPEFFECT_COPY);
}

#[test]
fn paths_of_folders() {
    assert!(is_descendant("C:\\目录\\b", "c:\\目录\\"));
    assert!(!is_descendant("C:\\a", "C:\\a"));
    assert!(!is_descendant("C:\\ab", "C:\\a"));
    assert!(!is_descendant("x", ""));
    assert!(parent_eq("C:\\dir\\a", "c:\\DIR"));
    assert!(parent_eq("C:\\a", "C:\\"));
    assert!(!parent_eq("C:\\a", "C:"));
    assert!(!parent_eq("a", "C:\\"));
    assert!(same_volume("C:\\a", "c:\\b"));
    assert!(!same_volume("\\\\srv\\a", "\\\\srv\\b"));
    assert!(is_drive_root(&source("E:\\", true)));
    assert!(!is_drive_root(&source("E:\\a", true)));
}

#[test]
fn first_existing_ancestor_decides() {
    let gone = PathProbe { is_file: false, exists: false };
    let file = PathProbe { is_file: true, exists: true };
    let dir = PathProbe { is_file: false, exists: true };
    assert!(has_file_component(&[gone, file, dir]));
    assert!(!has_file_component(&[gone, dir, file]));
    assert!(!has_file_component(&[gone, gone]));
    assert!(!has_file_component(&[]));
}

#[test]
fn descriptions_name_effect_and_target() {
    let st = state("item", "C:\\dst", vec![], &[]);
    let d = desc_for(DROPEFFECT_MOVE, &st);
    assert_eq!((d.image, d.message.as_str(), d.insert.as_str()), (DROPIMAGE_MOVE, "移动到 %1", "目标"));
    let d = desc_for(DROPEFFECT_COPY, &st);
    assert_eq!((d.image, d.message.as_str()), (DROPIMAGE_COPY, "复制到 %1"));
    let d = desc_for(DROPEFFECT_LINK, &st);
    assert_eq!((d.image, d.message.as_str()), (DROPIMAGE_LINK, "在 %1 中创建链接"));
    let d = desc_for(DROPEFFECT_NONE, &st);
    assert_eq!((d.image, d.message.as_str(), d.insert.as_str()), (DROPIMAGE_INVALID, "", ""));
    let st = state("pin", "", vec![source("C:\\a", true)], &[]);
    let d = desc_for(DROPEFFECT_LINK, &st);
    assert_eq!((d.image, d.message.as_str()), (DROPIMAGE_LINK, "固定到 %1"));
}

#[test]
fn descriptions_are_set_once() {
    let mut st = state("item", "D:\\dst", vec![source("C:\\a.txt", false)], &[]);
    let first = drag_over(&mut st, 0, true);
    assert_eq!(first.effect, DROPEFFECT_COPY);
    assert_eq!(first.describe.unwrap().message, "复制到 %1");
    assert!(drag_over(&mut st, 0, true).describe.is_none());
    assert_eq!(drag_over(&mut st, MK_SHIFT, true).describe.unwrap().image, DROPIMAGE_MOVE);
    assert!(drag_over(&mut st, 0, false).describe.is_none());
    assert_eq!(drag_leave(&mut st, true).unwrap().image, DROPIMAGE_INVALID);
    assert!(st.sources.is_empty());
    assert!(st.target.is_none());
}

#[test]
fn fixed_text_fields() {
    let f = wstr260("移动到 %1");
    assert_eq!(buffer_text(&f), "移动到 %1");
    let long = "x".repeat(400);
    let f = wstr260(&long);
    assert_eq!(f[258], 'x' as u16);
    assert_eq!(f[259], 0);
}

#[test]
fn names_make_sources() {
    let v = sources_from_array(vec![
        RawSource { fs_name: Some("C:\\a".to_string()), parse_name: Some("C:\\a".to_string()), fs_is_dir: true },
        RawSource { fs_name: Some(String::new()), parse_name: None, fs_is_dir: true },
    ]);
    assert_eq!(v[0].fs_path.as_deref(), Some("C:\\a"));
    assert!(v[0].is_dir);
    assert_eq!(v[1].fs_path, None);
    assert_eq!(v[1].parse_path, "");
    assert!(!v[1].is_dir);
}

#[test]
fn file_list_is_the_fallback() {
    let files = || {
        vec![
            DroppedFile { path: "C:\\f.txt".to_string(), is_dir: false },
            DroppedFile { path: String::new(), is_dir: true },
        ]
    };
    assert!(!array_suffices(&None));
    assert!(!array_suffices(&Some(vec![])));
    let v = extract_sources(Some(vec![]), files());
    assert_eq!(v.len(), 1);
    assert_eq!(v[0].parse_path, "C:\\f.txt");
    assert_eq!(v[0].fs_path.as_deref(), Some("C:\\f.txt"));
    let v = extract_sources(Some(vec![source("D:\\x", true)]), files());
    assert_eq!(v[0].parse_path, "D:\\x");
}

#[test]
fn own_drag_keeps_its_sources() {
    let mut st = DragState::default();
    assert!(!begin_drag(&mut st, &vec![]));
    assert!(begin_drag(&mut st, &vec!["C:\\a".to_string()]));
    assert!(!begin_drag(&mut st, &vec!["C:\\b".to_string()]));
    prepare_drag(&mut st, vec![source("C:\\a", true)]);
    drag_enter(&mut st, ALL, vec![source("other", false)], 0);
    assert_eq!(st.sources[0].parse_path, "C:\\a");
    drag_leave(&mut st, false);
    assert_eq!(st.sources.len(), 1);
    assert_eq!(st.allowed, ALL);
    finish_drag(&mut st);
    assert!(st.sources.is_empty());
    assert!(!st.in_progress);
    assert!(begin_drag(&mut st, &vec!["C:\\b".to_string()]));
    abort_drag(&mut st);
    assert!(!st.in_progress);
}

#[test]
fn drops_are_forwarded_or_pinned() {
    let mut st = state("item", "D:\\dst", vec![source("C:\\a.txt", false)], &[]);
    let step = drop_on(&mut st, 0, true);
    assert_eq!(step.effect, DROPEFFECT_COPY);
    match step.action {
        Some(DropAction::Forward(p)) => assert_eq!(p, "D:\\dst"),
        _ => panic!("not forwarded"),
    }
    assert!(st.target.is_none());
    let mut st = state("pin", "", vec![source("C:\\a", true), source("", true)], &[]);
    match drop_on(&mut st, 0, true).action {
        Some(DropAction::Pin(v)) => assert_eq!(v, vec!["C:\\a"]),
        _ => panic!("not pinned"),
    }
    let mut st = state("item", "C:\\a.txt", vec![source("C:\\a.txt", false)], &[]);
    assert!(drop_on(&mut st, 0, true).action.is_none());
    let mut st = state("item", "D:\\dst", vec![source("C:\\a.txt", false)], &[]);
    assert!(drop_on(&mut st, 0, false).action.is_none());
}

#[test]
fn forwarding_and_throttling() {
    assert!(forward_accepted(true, DROPEFFECT_COPY));
    assert!(!forward_accepted(true, DROPEFFECT_NONE));
    assert!(!forward_accepted(false, DROPEFFECT_COPY));
    assert!(emit_due(None));
    assert!(emit_due(Some(16)));
    assert!(!emit_due(Some(15)));
}
