use filespace::shell_group::{
    compute, date_bucket, fallback_names, local_day_index, name_bucket, order_by, size_bucket,
    unix_to_filetime, CategoryNames, ItemValue, NameStep, Probe,
};
use filespace::shell_items::{filetime_to_unix_ms, FileTime};

fn names(v: &[&str]) -> Vec<String> {
    v.iter().map(|s| s.to_string()).collect()
}

fn value() -> ItemValue {
    ItemValue { time: None, size: None, kind: None, name: None }
}

#[test]
fn order_is_stable_in_both_directions() {
    let keys = [3, 1, 2, 1, 3];
    let compare = |a: usize, b: usize| keys[a] - keys[b];
    assert_eq!(order_by(5, compare, true), vec![1, 3, 2, 0, 4]);
    assert_eq!(order_by(5, compare, false), vec![0, 4, 2, 1, 3]);
    assert_eq!(order_by(0, compare, true), Vec::<usize>::new());
    let mut big: Vec<usize> = (0..200).collect();
    let scattered = |a: usize, b: usize| ((a * 37) % 101) as i32 - ((b * 37) % 101) as i32;
    big.sort_by(|a, b| scattered(*a, *b).cmp(&0));
    assert_eq!(order_by(200, scattered, true), big);
}

#[test]
fn ranks_follow_first_appearance() {
    let v = compute(4, Some(names(&["b", "a", "b", "c"])), &[3, 0, 1, 2]).unwrap();
    assert_eq!(
        v,
        vec![(1, "b".to_string()), (2, "a".to_string()), (1, "b".to_string()), (0, "c".to_string())]
    );
    assert_eq!(compute(0, None, &[]), Some(vec![]));
    assert_eq!(compute(1, None, &[0]), None);
}

#[test]
fn categories_are_asked_once() {
    let mut c = CategoryNames::new();
    assert!(c.probe(Probe::Category(7)) == NameStep::AskName(7));
    c.learn(7, Some(&[0x41, 0, 0x42]));
    assert!(c.probe(Probe::Uncategorized) == NameStep::Next);
    assert!(c.probe(Probe::Category(7)) == NameStep::Next);
    assert!(c.probe(Probe::Category(8)) == NameStep::AskName(8));
    c.learn(8, None);
    assert_eq!(c.categorizer_names(), vec!["A", "", "A", ""]);
    let mut c = CategoryNames::new();
    assert!(c.probe(Probe::Unsupported) == NameStep::GiveUp);
}

#[test]
fn date_buckets() {
    let expected = [
        (-1, "以后"),
        (0, "今天"),
        (1, "昨天"),
        (2, "本周早些时候"),
        (6, "本周早些时候"),
        (7, "上周"),
        (13, "上周"),
        (14, "本月早些时候"),
        (30, "本月早些时候"),
        (31, "今年早些时候"),
        (365, "今年早些时候"),
        (366, "很久以前"),
    ];
    for (days, name) in expected {
        assert_eq!(date_bucket(days), name);
    }
}

#[test]
fn size_buckets() {
    let expected = [
        (0, "0 字节"),
        (1, "微小 (0 - 10 KB)"),
        (10 * 1024 - 1, "微小 (0 - 10 KB)"),
        (10 * 1024, "小 (10 - 100 KB)"),
        (100 * 1024, "中 (100 KB - 1 MB)"),
        (1024 * 1024, "大 (1 - 16 MB)"),
        (16 * 1024 * 1024, "很大 (16 - 128 MB)"),
        (128 * 1024 * 1024, "巨大 (> 128 MB)"),
    ];
    for (bytes, name) in expected {
        assert_eq!(size_bucket(bytes), name);
    }
}

#[test]
fn name_buckets() {
    assert_eq!(name_bucket('q'), "Q");
    assert_eq!(name_bucket('Q'), "Q");
    assert_eq!(name_bucket('5'), "0 - 9");
    assert_eq!(name_bucket('文'), "其他");
}

#[test]
fn days_of_times() {
    let ft = unix_to_filetime(0);
    assert_eq!(filetime_to_unix_ms(&ft), 0);
    assert_eq!(local_day_index(&ft), 134_774);
    assert_eq!(local_day_index(&FileTime { low: u32::MAX, high: u32::MAX }), 21_350_398);
    let later = unix_to_filetime(86_400_000);
    assert_eq!(local_day_index(&later), 134_775);
}

#[test]
fn fallback_by_date() {
    let now = unix_to_filetime(40 * 86_400_000);
    let day = |d: i64| {
        let mut v = value();
        v.time = Some(unix_to_filetime(d * 86_400_000));
        v
    };
    let v = fallback_names(&[day(40), day(39), day(41), day(3), value()], Some("date"), Some(now)).unwrap();
    assert_eq!(v, vec!["今天", "昨天", "以后", "今年早些时候", "未指定"]);
    let v = fallback_names(&[day(40)], Some("created"), None).unwrap();
    assert_eq!(v, vec!["以后"]);
}

#[test]
fn fallback_by_other_columns() {
    let mut a = value();
    a.size = Some(5);
    a.kind = Some("文本".to_string());
    a.name = Some("zoo".to_string());
    let mut b = value();
    b.kind = Some(String::new());
    b.name = Some(String::new());
    let items = [a, b];
    assert_eq!(fallback_names(&items, Some("size"), None).unwrap(), vec!["微小 (0 - 10 KB)", "未指定"]);
    assert_eq!(fallback_names(&items, Some("type"), None).unwrap(), vec!["文本", "未指定"]);
    assert_eq!(fallback_names(&items, Some("name"), None).unwrap(), vec!["Z", "其他"]);
    assert!(fallback_names(&items, Some("colour"), None).is_none());
    assert!(fallback_names(&items, None, None).is_none());
    assert_eq!(fallback_names(&[], Some("colour"), None), Some(vec![]));
}
