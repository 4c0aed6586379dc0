use filespace::guid::{guid_eq, guid_to_string};
use filespace::shell_bags::{
    array_len, bag_is_recorded, bag_name, binary_kind, build_sort_bytes, candidate_templates,
    default_dir_for, default_name_sort, desktop_ini_folder_type, desktop_ini_path,
    effective_sort_group, mode_to_view, parse_prop_name, parse_sort_bytes, parse_sortbylist,
    pick_target_template, primary_template, read_bag, read_group, reg_read_dword, reg_read_sz,
    save_group, save_sort, save_view_mode, sortby_names, stream_value, sz_buffer_len, take_chunk,
    template_default_sort, top_view_key, variant_i32, variant_u32, view_mode_for, view_to_bag,
    write_group, BagReading, BagValue, BagView, BinaryKind, GroupRecord, KnownFolders, Template,
    VT_BSTR, VT_BYTES, VT_I4, VT_UI4, VT_UNKNOWN,
};
use filespace::shell_items::{fmtid_storage, frontend_key_to_pkey, GroupCols, SortColumn};

fn col(pid: u32, ascending: bool) -> SortColumn {
    SortColumn { fmtid: fmtid_storage(), pid, ascending }
}

fn no_folders() -> KnownFolders {
    KnownFolders { downloads: None, documents: None, pictures: None, music: None, videos: None }
}

#[test]
fn view_modes_have_names() {
    assert_eq!(mode_to_view(4, 16), "details");
    assert_eq!(mode_to_view(3, 16), "list");
    assert_eq!(mode_to_view(6, 48), "tiles");
    assert_eq!(mode_to_view(8, 32), "content");
    assert_eq!(mode_to_view(2, 256), "s-icons");
    assert_eq!(mode_to_view(1, 176), "xl-icons");
    assert_eq!(mode_to_view(1, 175), "l-icons");
    assert_eq!(mode_to_view(1, 150), "l-icons");
    assert_eq!(mode_to_view(1, 72), "l-icons");
    assert_eq!(mode_to_view(1, 71), "m-icons");
    assert_eq!(mode_to_view(1, 32), "m-icons");
    assert_eq!(mode_to_view(1, 31), "s-icons");
    assert_eq!(view_to_bag("tiles"), Some((6, 2, 48)));
    assert_eq!(view_to_bag("mosaic"), None);
}

#[test]
fn saved_views_read_back() {
    for view in ["xl-icons", "l-icons", "m-icons", "s-icons", "list", "details", "tiles", "content"] {
        let (mode, _, icon) = view_to_bag(view).unwrap();
        assert_eq!(mode_to_view(mode, icon), view);
    }
}

#[test]
fn templates_of_known_folders() {
    let mut known = no_folders();
    known.music = Some("C:\\Users\\x\\Music\\".to_string());
    assert!(primary_template("c:\\users\\X\\music", &known, &None) == Template::Music);
    assert!(primary_template("C:\\other", &known, &None) == Template::Generic);
    assert!(primary_template("C:\\other", &known, &Some("Pictures".to_string())) == Template::Pictures);
    assert!(primary_template("C:\\other", &known, &Some("Nonsense".to_string())) == Template::Generic);
    assert_eq!(Template::Downloads.id(), "{885A186E-A440-4ADA-812B-DB871B942259}");
    assert_eq!(bag_name(Template::Generic), "Shell\\{5C4F28B5-F869-4E84-8E60-F11DB97C5CC7}");
    assert_eq!(desktop_ini_path("C:\\d\\").as_deref(), Some("C:\\d\\desktop.ini"));
    assert_eq!(desktop_ini_path("::{X}"), None);
    assert_eq!(desktop_ini_folder_type(&[0x61, 0x62, 0], 2).as_deref(), Some("ab"));
    assert_eq!(desktop_ini_folder_type(&[0x61], 0), None);
}

#[test]
fn candidates_begin_with_the_primary_template() {
    let v = candidate_templates(Template::Pictures);
    assert_eq!(v.len(), 6);
    assert!(v[0] == Template::Pictures);
    assert!(v[1] == Template::Generic);
    assert!(v[1..].iter().all(|t| *t != Template::Pictures));
}

#[test]
fn targets_are_recorded_templates() {
    let list = candidate_templates(Template::Music);
    assert!(pick_target_template(Template::Music, &[false, false, true, true]) == list[2]);
    assert!(pick_target_template(Template::Music, &[false; 6]) == Template::Music);
    assert!(bag_is_recorded(None, true));
    assert!(bag_is_recorded(Some(4), false));
    assert!(!bag_is_recorded(None, false));
}

#[test]
fn first_recorded_view_holds() {
    let none = BagView { mode: None, icon: Some(96) };
    assert_eq!(view_mode_for(&[none, BagView { mode: Some(1), icon: Some(96) }]).as_deref(), Some("l-icons"));
    assert_eq!(view_mode_for(&[BagView { mode: Some(1), icon: None }]).as_deref(), Some("s-icons"));
    assert_eq!(view_mode_for(&[none]), None);
}

#[test]
fn saving_a_view_writes_three_numbers() {
    let plan = save_view_mode("content", Template::Generic, &[false, true]).unwrap();
    assert!(plan.template == Template::Downloads);
    let names: Vec<&str> = plan.writes.iter().map(|w| w.name).collect();
    assert_eq!(names, vec!["Mode", "LogicalViewMode", "IconSize"]);
    let values: Vec<u32> = plan.writes.iter().map(|w| match w.value { BagValue::U32(x) => x, _ => 0 }).collect();
    assert_eq!(values, vec![8, 5, 32]);
    assert!(save_view_mode("mosaic", Template::Generic, &[]).is_none());
}

#[test]
fn variants_hold_numbers_and_bytes() {
    assert_eq!(variant_u32(VT_UI4, 7), Some(7));
    assert_eq!(variant_u32(VT_I4, 7), Some(7));
    assert_eq!(variant_u32(VT_BSTR, 7), None);
    assert_eq!(variant_i32(VT_I4, -7), Some(-7));
    assert_eq!(variant_i32(VT_UNKNOWN, -7), None);
    assert!(binary_kind(VT_UNKNOWN) == BinaryKind::Stream);
    assert!(binary_kind(VT_BYTES) == BinaryKind::Array);
    assert!(binary_kind(VT_I4) == BinaryKind::Other);
    let mut data = vec![1u8];
    assert!(take_chunk(&mut data, &[2, 3, 4], true, 2));
    assert_eq!(data, vec![1, 2, 3]);
    assert!(!take_chunk(&mut data, &[2], true, 0));
    assert!(!take_chunk(&mut data, &[2], false, 1));
    assert_eq!(stream_value(vec![]), None);
    assert_eq!(stream_value(data), Some(vec![1, 2, 3]));
    assert_eq!(array_len(0, 9), 10);
    assert_eq!(array_len(5, 4), 0);
    assert_eq!(array_len(i32::MIN, i32::MAX), 0x1_0000_0000);
}

#[test]
fn sort_columns_round_trip() {
    let b = build_sort_bytes(&[col(12, false), col(10, true)]);
    assert_eq!(b.len(), 4 + 48);
    assert_eq!(b[0..4].to_vec(), vec![2, 0, 0, 0]);
    assert_eq!(b[20..28].to_vec(), vec![12, 0, 0, 0, 255, 255, 255, 255]);
    let v = parse_sort_bytes(&b).unwrap();
    assert_eq!(v.len(), 2);
    assert!(guid_eq(&v[0].fmtid, &fmtid_storage()));
    assert_eq!((v[0].pid, v[0].ascending), (12, false));
    assert_eq!((v[1].pid, v[1].ascending), (10, true));
    let mut reg = vec![0u8; 16];
    reg.extend_from_slice(&b);
    let v = parse_sort_bytes(&reg).unwrap();
    assert_eq!((v[0].pid, v[1].pid), (12, 10));
}

#[test]
fn malformed_sort_bytes_are_refused() {
    assert!(parse_sort_bytes(&[]).is_none());
    assert!(parse_sort_bytes(&[0, 0, 0, 0]).is_none());
    assert!(parse_sort_bytes(&[1, 0, 0, 0, 5]).is_none());
    assert!(parse_sort_bytes(&build_sort_bytes(&[])).is_none());
    let mut b = build_sort_bytes(&[col(12, true)]);
    b.pop();
    assert!(parse_sort_bytes(&b).is_none());
    assert!(parse_sort_bytes(&[255; 28]).is_none());
}

fn record(view: Option<u32>, fmtid: Option<&str>, pid: Option<u32>, direction: Option<i32>) -> GroupRecord {
    GroupRecord { view, fmtid: fmtid.map(|s| s.to_string()), pid, direction }
}

#[test]
fn grouping_has_three_states() {
    let id = guid_to_string(&fmtid_storage());
    assert!(read_group(&record(None, Some(&id), Some(4), None)).is_none());
    assert!(read_group(&record(Some(0), Some(&id), Some(4), None)).unwrap().is_none());
    let g = read_group(&record(Some(1), Some(&id), Some(4), None)).unwrap().unwrap();
    assert!(guid_eq(&g.fmtid, &fmtid_storage()));
    assert_eq!((g.pid, g.ascending), (4, true));
    let g = read_group(&record(Some(1), Some(&id), Some(4), Some(-1))).unwrap().unwrap();
    assert!(!g.ascending);
    assert!(read_group(&record(Some(1), Some("?"), Some(4), None)).unwrap().is_none());
    assert!(read_group(&record(Some(1), Some(&id), None, None)).unwrap().is_none());
}

#[test]
fn written_groups_read_back() {
    let g = GroupCols { fmtid: fmtid_storage(), pid: 14, ascending: false };
    let mut rec = record(Some(0), None, Some(99), Some(1));
    for w in write_group(Some(g)) {
        match (w.name, w.value) {
            ("GroupView", BagValue::U32(x)) => rec.view = Some(x),
            ("GroupByKey:FMTID", BagValue::Text(s)) => rec.fmtid = Some(s),
            ("GroupByKey:PID", BagValue::U32(x)) => rec.pid = Some(x),
            ("GroupByDirection", BagValue::I32(x)) => rec.direction = Some(x),
            _ => panic!("unknown value"),
        }
    }
    let back = read_group(&rec).unwrap().unwrap();
    assert_eq!((back.pid, back.ascending), (14, false));
    let w = write_group(None);
    assert_eq!(w.len(), 1);
    assert!(matches!(w[0].value, BagValue::U32(0)));
}

#[test]
fn default_directions() {
    assert!(default_dir_for(&frontend_key_to_pkey("name").unwrap()));
    assert!(default_dir_for(&frontend_key_to_pkey("type").unwrap()));
    assert!(!default_dir_for(&frontend_key_to_pkey("date").unwrap()));
    assert!(!default_dir_for(&frontend_key_to_pkey("created").unwrap()));
    assert!(!default_dir_for(&frontend_key_to_pkey("size").unwrap()));
    let v = default_name_sort();
    assert_eq!((v.len(), v[0].pid, v[0].ascending), (1, 10, true));
}

#[test]
fn property_names_in_lists() {
    let p = parse_prop_name(" prop:-System.Size ").unwrap();
    assert_eq!((p.name.as_str(), p.descending), ("System.Size", true));
    let p = parse_prop_name("--- System.Kind").unwrap();
    assert_eq!((p.name.as_str(), p.descending), ("System.Kind", true));
    assert!(parse_prop_name("prop:system.NULL").is_none());
    assert!(parse_prop_name("prop:-").is_none());
    let v = sortby_names("prop:System.Kind;;-System.Size;System.Null");
    let names: Vec<(&str, bool)> = v.iter().map(|p| (p.name.as_str(), p.descending)).collect();
    assert_eq!(names, vec![("System.Kind", false), ("System.Size", true)]);
}

#[test]
fn listed_columns_take_directions() {
    let names = sortby_names("System.ItemNameDisplay;-System.ItemTypeText;System.Size;Unknown");
    let keys = [
        frontend_key_to_pkey("name"),
        frontend_key_to_pkey("type"),
        frontend_key_to_pkey("size"),
        None,
    ];
    let v = parse_sortbylist(&names, &keys).unwrap();
    let got: Vec<(u32, bool)> = v.iter().map(|c| (c.pid, c.ascending)).collect();
    assert_eq!(got, vec![(10, true), (4, false), (12, false)]);
    assert!(parse_sortbylist(&names[3..], &keys[3..]).is_none());
}

#[test]
fn registry_values() {
    assert_eq!(
        top_view_key(Template::Generic),
        "SOFTWARE\\Microsoft\\Windows\\CurrentVersion\\Explorer\\FolderTypes\\{5C4F28B5-F869-4E84-8E60-F11DB97C5CC7}\\TopViews\\{00000000-0000-0000-0000-000000000000}"
    );
    assert_eq!(sz_buffer_len(0, 10), Some(6));
    assert_eq!(sz_buffer_len(0, 0), None);
    assert_eq!(sz_buffer_len(2, 10), None);
    assert_eq!(reg_read_sz(0, &[0x61, 0, 0x62]).as_deref(), Some("a"));
    assert_eq!(reg_read_sz(5, &[0x61, 0]), None);
    assert_eq!(reg_read_dword(0, 3), Some(3));
    assert_eq!(reg_read_dword(2, 3), None);
}

#[test]
fn template_defaults() {
    let (s, g) = template_default_sort(None, None, None);
    assert_eq!(s[0].pid, 10);
    assert!(g.is_none());
    let size = frontend_key_to_pkey("size").unwrap();
    let name = frontend_key_to_pkey("name").unwrap();
    let (s, g) = template_default_sort(Some(vec![col(14, false)]), Some((size, false)), None);
    assert_eq!(s[0].pid, 14);
    assert!(!g.unwrap().ascending);
    let (_, g) = template_default_sort(None, Some((size, false)), Some(1));
    assert!(g.unwrap().ascending);
    let (_, g) = template_default_sort(None, Some((name, true)), None);
    assert!(!g.unwrap().ascending);
    let (_, g) = template_default_sort(None, Some((name, false)), Some(0));
    assert!(!g.unwrap().ascending);
}

#[test]
fn first_recorded_bag_holds() {
    let none = || BagReading { sort: None, group: None };
    let by_type = GroupCols { fmtid: fmtid_storage(), pid: 4, ascending: true };
    let (s, g) = effective_sort_group(&[none()], vec![col(10, true)], Some(by_type));
    assert_eq!((s[0].pid, g.unwrap().pid), (10, 4));
    let bag = BagReading { sort: Some(vec![col(12, false)]), group: None };
    let (s, g) = effective_sort_group(&[none(), bag], vec![col(10, true)], Some(by_type));
    assert_eq!((s[0].pid, g.unwrap().pid), (12, 4));
    let bag = BagReading { sort: None, group: Some(None) };
    let (s, g) = effective_sort_group(&[bag], vec![col(10, true)], Some(by_type));
    assert_eq!(s[0].pid, 10);
    assert!(g.is_none());
}

#[test]
fn saved_sort_is_effective() {
    let plan = save_sort("date", false, Template::Generic, &[false; 6]).unwrap();
    assert!(plan.template == Template::Generic);
    assert_eq!(plan.writes[0].name, "Sort");
    let bytes = match &plan.writes[0].value {
        BagValue::Bytes(b) => b.clone(),
        _ => panic!("not bytes"),
    };
    let bag = read_bag(&Some(bytes), &record(None, None, None, None));
    let (s, _) = effective_sort_group(&[bag], default_name_sort(), None);
    assert_eq!((s.len(), s[0].pid, s[0].ascending), (1, 14, false));
    assert!(save_sort("colour", true, Template::Generic, &[]).is_none());
    assert!(read_bag(&None, &record(Some(0), None, None, None)).sort.is_none());
}

#[test]
fn saved_group_takes_default_direction() {
    let plan = save_group(&Some("size".to_string()), Template::Videos, &[true]).unwrap();
    assert!(plan.template == Template::Videos);
    assert!(matches!(plan.writes[3].value, BagValue::I32(-1)));
    let plan = save_group(&Some("type".to_string()), Template::Videos, &[]).unwrap();
    assert!(matches!(plan.writes[3].value, BagValue::I32(1)));
    let plan = save_group(&None, Template::Videos, &[]).unwrap();
    assert_eq!(plan.writes.len(), 1);
    assert!(save_group(&Some("colour".to_string()), Template::Videos, &[]).is_none());
}
