use filespace::guid::{guid_eq, parse_guid};
use filespace::shell_modern::{
    class_key, clear, get_modern_menu, has_subcommands, invoke_modern, is_hidden, location_buffer,
    modern_clsids, package_key, title_is_blank, IconLookup, LocationCache, PendingModern,
    RawCommand,
};

fn cmd(handle: u64, title: &str) -> RawCommand {
    RawCommand {
        handle,
        state: Some(0),
        title: Some(title.to_string()),
        icon: None,
        flags: Some(0),
        subs: None,
    }
}

fn parent(handle: u64, title: &str, subs: Vec<RawCommand>) -> RawCommand {
    let mut c = cmd(handle, title);
    c.flags = Some(1);
    c.subs = Some(subs);
    c
}

#[test]
fn registry_keys_of_packages() {
    let base = "Software\\Classes\\Extensions\\ContractId\\Windows.FileExplorerContextMenus\\PackageId";
    assert_eq!(package_key("P"), format!("{}\\P\\ActivatableClassId", base));
    assert_eq!(class_key("P", "C"), format!("{}\\P\\ActivatableClassId\\C\\CustomProperties", base));
}

#[test]
fn identifiers_are_kept_once() {
    let a = parse_guid("{00000000-0000-0000-0000-00000000000A}").unwrap();
    let b = parse_guid("{00000000-0000-0000-0000-00000000000B}").unwrap();
    let v = modern_clsids(&[b, a, b, a]);
    assert_eq!(v.len(), 2);
    assert!(guid_eq(&v[0], &b) && guid_eq(&v[1], &a));
}

#[test]
fn buffers_for_icon_locations() {
    let v = location_buffer("ab");
    assert_eq!(v.len(), 264);
    assert_eq!(v[0..3].to_vec(), vec![0x61, 0x62, 0]);
    assert_eq!(location_buffer("abcdef").len(), 266);
}

#[test]
fn icon_locations_are_remembered() {
    let mut c = LocationCache::new();
    assert!(matches!(c.icon_from_location(""), IconLookup::Known(None)));
    assert!(matches!(c.icon_from_location("@{pkg}"), IconLookup::Known(None)));
    assert!(matches!(c.icon_from_location("a.dll,-1"), IconLookup::Extract));
    c.learn("a.dll,-1", &Some("url".to_string()));
    c.learn("b.dll,-1", &None);
    match c.icon_from_location("a.dll,-1") {
        IconLookup::Known(Some(s)) => assert_eq!(s, "url"),
        _ => panic!("not known"),
    }
    assert!(matches!(c.icon_from_location("b.dll,-1"), IconLookup::Known(None)));
}

#[test]
fn visibility_of_commands() {
    assert!(is_hidden(Some(3)));
    assert!(!is_hidden(Some(1)));
    assert!(!is_hidden(None));
    assert!(title_is_blank(&None));
    assert!(title_is_blank(&Some(" \t".to_string())));
    assert!(!title_is_blank(&Some(" a".to_string())));
    assert!(has_subcommands(Some(1), 1));
    assert!(!has_subcommands(Some(1), 2));
    assert!(!has_subcommands(Some(2), 0));
    assert!(!has_subcommands(None, 0));
}

#[test]
fn commands_are_numbered_after_what_they_open() {
    let mut p = PendingModern { store: None };
    let v = get_modern_menu(&mut p, &vec![parent(10, "P", vec![cmd(11, "a"), cmd(12, "b")]), cmd(13, "Q")]);
    assert_eq!(v.len(), 2);
    assert_eq!((v[0].mid, v[0].label.as_str()), (3, "P"));
    assert_eq!((v[0].children[0].mid, v[0].children[1].mid), (1, 2));
    assert_eq!(v[1].mid, 4);
    assert_eq!(p.store, Some(vec![(1, 11), (2, 12), (3, 10), (4, 13)]));
    assert_eq!(invoke_modern(&mut p, 3), Some(10));
    assert_eq!(invoke_modern(&mut p, 3), None);
}

#[test]
fn hidden_commands_are_skipped() {
    let mut hidden = parent(10, "H", vec![cmd(11, "a")]);
    hidden.state = Some(2);
    let mut silent = cmd(14, "S");
    silent.state = None;
    silent.icon = Some("i".to_string());
    let mut p = PendingModern { store: None };
    let v = get_modern_menu(&mut p, &vec![hidden, cmd(12, "  "), silent]);
    assert_eq!(v.len(), 1);
    assert_eq!((v[0].mid, v[0].icon.as_deref()), (1, Some("i")));
    assert_eq!(p.store, Some(vec![(1, 14)]));
}

#[test]
fn three_levels_are_shown() {
    let deep = parent(1, "a", vec![parent(2, "b", vec![parent(3, "c", vec![cmd(4, "d")])])]);
    let mut p = PendingModern { store: None };
    let v = get_modern_menu(&mut p, &vec![deep]);
    assert_eq!(v[0].children[0].children[0].label, "c");
    assert!(v[0].children[0].children[0].children.is_empty());
    assert_eq!(p.store.as_ref().map(|s| s.len()), Some(3));
}

#[test]
fn unknown_numbers_lead_nowhere() {
    let mut p = PendingModern { store: None };
    get_modern_menu(&mut p, &vec![cmd(5, "x")]);
    assert_eq!(invoke_modern(&mut p, 2), None);
    assert!(p.store.is_none());
    get_modern_menu(&mut p, &vec![cmd(5, "x")]);
    clear(&mut p);
    assert_eq!(invoke_modern(&mut p, 1), None);
}
