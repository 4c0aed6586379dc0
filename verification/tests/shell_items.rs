use filespace::shell_items::{
    breadcrumb_for, breadcrumb_names, column_to_frontend_key, crumb_of, desktop_entries,
    drive_info, drive_root_path, entry_from_item, enumerate_folder, filetime_to_unix_ms,
    fmtid_storage, folder_listing, format_byte_size, format_date, format_size_kb,
    frontend_key_to_pkey, image_size, item_details, may_ask_space, quick_access_entries,
    sidebar_data, to_wide, Crumb, DetailProp, DriveInfo, DriveSpace, FileTime, GroupCols, ItemDate,
    ItemProps, QuickItem, SFGAO_FOLDER, SFGAO_HIDDEN, SFGAO_STREAM, THIS_PC,
};

fn some(s: &str) -> Option<String> {
    Some(s.to_string())
}

fn item(name: &str, path: &str, attributes: u32) -> ItemProps {
    ItemProps {
        display_name: some(name),
        parse_name: some(path),
        fs_name: some(path),
        attributes,
        size: None,
        size_text: String::new(),
        modified: None,
        created: None,
        kind_name: None,
        drive: None,
    }
}

#[test]
fn wide_text_ends_with_zero() {
    assert_eq!(to_wide("ab"), vec![0x61, 0x62, 0]);
    assert_eq!(to_wide(""), vec![0]);
}

#[test]
fn columns_have_names() {
    let size = frontend_key_to_pkey("size").unwrap();
    assert_eq!(size.pid, 12);
    assert_eq!(column_to_frontend_key(&size.fmtid, size.pid), Some("size"));
    assert_eq!(frontend_key_to_pkey("date").unwrap().pid, 14);
    assert_eq!(frontend_key_to_pkey("created").unwrap().pid, 15);
    assert_eq!(frontend_key_to_pkey("type").unwrap().pid, 4);
    assert_eq!(frontend_key_to_pkey("name").unwrap().pid, 10);
    assert!(frontend_key_to_pkey("colour").is_none());
    assert_eq!(column_to_frontend_key(&fmtid_storage(), 99), None);
    let mut other = fmtid_storage();
    other.data1 = 1;
    assert_eq!(column_to_frontend_key(&other, 12), None);
    let g = GroupCols { fmtid: fmtid_storage(), pid: 4, ascending: true };
    assert_eq!(g.pkey().pid, 4);
}

#[test]
fn file_times_in_milliseconds() {
    let epoch: u64 = 116_444_736_000_000_000;
    let ft = |t: u64| FileTime { low: t as u32, high: (t >> 32) as u32 };
    assert_eq!(filetime_to_unix_ms(&ft(epoch)), 0);
    assert_eq!(filetime_to_unix_ms(&ft(epoch + 12_345_678)), 1_234);
    assert_eq!(filetime_to_unix_ms(&ft(0)), -11_644_473_600_000);
    assert!(filetime_to_unix_ms(&ft(epoch)) <= filetime_to_unix_ms(&ft(epoch + 1)));
}

#[test]
fn dates_and_sizes_as_text() {
    assert_eq!(format_date(&[0x31, 0x32, 0, 9], 3), "12");
    assert_eq!(format_date(&[0x31, 0x32], 0), "");
    assert_eq!(format_date(&[0x31], 9), "1");
    assert_eq!(format_size_kb(1, None), "1 KB");
    assert_eq!(format_size_kb(0, None), "0 KB");
    assert_eq!(format_size_kb(u64::MAX, None), "18014398509481984 KB");
    assert_eq!(format_size_kb(1, Some(&[0x33, 0x20, 0x4B, 0, 7])), "3 K");
    assert_eq!(format_byte_size(42, None), "42 B");
    assert_eq!(format_byte_size(42, Some(&[0x34])), "4");
}

#[test]
fn drives_tell_their_capacity() {
    assert!(may_ask_space(3));
    assert!(!may_ask_space(4));
    let space = Some(DriveSpace { free: 5, total: 9 });
    let d = drive_info(3, space, "5 B", "9 B").unwrap();
    assert_eq!((d.total, d.free, d.text.as_str()), (9, 5, "5 B 可用, 共 9 B"));
    assert!(drive_info(4, space, "5 B", "9 B").is_none());
    assert!(drive_info(3, Some(DriveSpace { free: 0, total: 0 }), "", "").is_none());
    assert!(drive_info(3, None, "", "").is_none());
    assert!(drive_root_path("C:\\"));
    assert!(!drive_root_path("C:"));
    assert!(!drive_root_path("é:\\"));
}

#[test]
fn entries_of_files_and_folders() {
    let mut p = item("a", "C:\\d\\a.TXT", 0);
    p.size = Some(10);
    p.size_text = "1 KB".to_string();
    p.kind_name = some("文本文档");
    p.modified = Some(ItemDate { time: FileTime { low: 0, high: 0 }, text: "1601".to_string() });
    let e = entry_from_item(p).unwrap();
    assert_eq!(e.name, "a");
    assert_eq!(e.full_name, "a.TXT");
    assert_eq!(e.ext, "txt");
    assert_eq!(e.size, Some(10));
    assert_eq!(e.size_text, "1 KB");
    assert_eq!(e.type_text, "文本文档");
    assert_eq!(e.date_modified, -11_644_473_600_000);
    assert_eq!(e.date_text, "1601");
    assert_eq!(e.date_created, 0);
    assert!(!e.is_folder && !e.is_hidden && !e.pinned);

    let mut p = item("d", "C:\\d", SFGAO_FOLDER | SFGAO_HIDDEN);
    p.size = Some(1);
    p.size_text = "1 KB".to_string();
    let e = entry_from_item(p).unwrap();
    assert!(e.is_folder && e.sort_as_folder && e.is_hidden);
    assert_eq!(e.size_text, "");
}

#[test]
fn archives_are_files() {
    let mut p = item("z", "C:\\z.zip", SFGAO_FOLDER | SFGAO_STREAM);
    p.size = Some(7);
    p.size_text = "1 KB".to_string();
    let e = entry_from_item(p).unwrap();
    assert!(!e.is_folder && !e.sort_as_folder);
    assert_eq!(e.size_text, "1 KB");
}

#[test]
fn items_without_names_are_not_shown() {
    let mut p = item("", "C:\\a", 0);
    assert!(entry_from_item(p).is_none());
    p = item("a", "C:\\a", 0);
    p.parse_name = None;
    assert!(entry_from_item(p).is_none());
    p = item("a", "::{X}", 0);
    p.fs_name = None;
    let e = entry_from_item(p).unwrap();
    assert_eq!(e.fs_path, None);
    assert_eq!(e.ext, "");
    assert_eq!(e.full_name, "a");
}

#[test]
fn drive_entries_carry_capacity() {
    let info = || Some(DriveInfo { total: 9, free: 5, text: "t".to_string() });
    let mut p = item("C", "C:\\", SFGAO_FOLDER);
    p.drive = info();
    let e = entry_from_item(p).unwrap();
    assert_eq!((e.drive_total, e.drive_free, e.drive_text.as_str()), (Some(9), Some(5), "t"));
    assert_eq!(e.full_name, "C");
    let mut p = item("x", "C:\\x", SFGAO_FOLDER);
    p.drive = info();
    assert_eq!(entry_from_item(p).unwrap().drive_total, None);
}

#[test]
fn folders_list_their_items() {
    let v = enumerate_folder(Ok(vec![item("a", "C:\\a", 0), item("", "C:\\b", 0), item("c", "C:\\c", SFGAO_HIDDEN)]));
    let names: Vec<String> = v.unwrap().into_iter().map(|e| e.name).collect();
    assert_eq!(names, vec!["a", "c"]);
    assert_eq!(enumerate_folder(Err("拒绝访问".to_string())).err(), some("拒绝访问"));
    assert!(desktop_entries(Err("x".to_string())).is_empty());
    assert_eq!(desktop_entries(Ok(vec![item("a", "C:\\a", 0)])).len(), 1);
}

fn crumb(name: &str) -> Crumb {
    crumb_of(some(name), some(name))
}

#[test]
fn address_bar_runs_from_the_top_down() {
    let names = |v: Vec<Crumb>| v.into_iter().map(|c| c.name).collect::<Vec<String>>();
    let v = breadcrumb_for(vec![crumb("dir"), crumb("C"), crumb("此电脑"), crumb("桌面")]);
    assert_eq!(names(v), vec!["此电脑", "C", "dir"]);
    assert_eq!(names(breadcrumb_for(vec![crumb("桌面")])), vec!["桌面"]);
    assert!(breadcrumb_for(vec![]).is_empty());
    assert_eq!(crumb_of(None, some("p")).name, "");
    assert_eq!(breadcrumb_names("D:\\x"), vec![format!("{}\\D:\\x", THIS_PC), "D:\\x".to_string()]);
    assert_eq!(breadcrumb_names("\\\\srv"), vec!["\\\\srv"]);
}

#[test]
fn listings_hold_names_and_entries() {
    let l = folder_listing("C:\\d", some("d"), None, Ok(vec![item("a", "C:\\d\\a", 0)]), vec![crumb("d"), crumb("桌面")]);
    let l = l.ok().unwrap();
    assert_eq!(l.folder_name, "d");
    assert_eq!(l.parse_path, "C:\\d");
    assert_eq!(l.breadcrumb.len(), 1);
    assert_eq!(l.entries[0].name, "a");
    let e = folder_listing("C:\\d", None, None, Err("错误".to_string()), vec![]);
    assert_eq!(e.err(), some("错误"));
}

#[test]
fn pinned_folders_come_first() {
    let q = |name: &str, attributes: u32, pinned: Option<bool>| QuickItem {
        props: item(name, &format!("C:\\{}", name), attributes),
        pinned,
    };
    let items = || {
        vec![
            q("often", SFGAO_FOLDER, Some(false)),
            q("pin1", SFGAO_FOLDER, Some(true)),
            q("file", 0, Some(true)),
            q("unknown", SFGAO_FOLDER, None),
            q("pin2", SFGAO_FOLDER, Some(true)),
        ]
    };
    let v = quick_access_entries(items(), true);
    let names: Vec<&str> = v.iter().map(|e| e.name.as_str()).collect();
    assert_eq!(names, vec!["pin1", "pin2", "often", "unknown"]);
    assert!(v[0].pinned && !v[2].pinned);
    let v = quick_access_entries(items(), false);
    let names: Vec<&str> = v.iter().map(|e| e.name.as_str()).collect();
    assert_eq!(names, vec!["often", "pin1", "unknown", "pin2"]);
    assert!(v.iter().all(|e| e.pinned));
}

#[test]
fn sidebar_lists_drives_of_this_pc() {
    let s = sidebar_data(
        vec![],
        true,
        Ok(vec![item("下载", "C:\\Users\\x\\Downloads", SFGAO_FOLDER), item("C", "C:\\", SFGAO_FOLDER)]),
        Some(item("网络", "::{N}", SFGAO_FOLDER)),
        None,
    );
    assert_eq!(s.this_pc.len(), 2);
    assert_eq!(s.drives.len(), 1);
    assert_eq!(s.drives[0].parse_path, "C:\\");
    assert_eq!(s.network.unwrap().name, "网络");
    assert!(s.linux.is_none());
    let s = sidebar_data(vec![], true, Err("x".to_string()), None, None);
    assert!(s.this_pc.is_empty() && s.drives.is_empty());
}

#[test]
fn details_need_label_and_value() {
    let d = |l: Option<&str>, v: Option<&str>| DetailProp {
        label: l.map(|s| s.to_string()),
        value: v.map(|s| s.to_string()),
    };
    let v = item_details(vec![d(Some("大小"), Some("1 KB")), d(None, Some("x")), d(Some("a"), Some(" \t")), d(Some("b"), None)]);
    assert_eq!(v, vec![("大小".to_string(), "1 KB".to_string())]);
    assert_eq!(image_size(Some(3), Some(4)), Some((3, 4)));
    assert_eq!(image_size(Some(3), None), None);
}
