use filespace::shell_icons::{
    bgra_to_rgba, cache_file_name, data_url_bytes, disk_load, disk_store, get_icon_cached,
    get_thumbnail_cached, hbitmap_to_data_url, icon_key, may_encode, pixel_buffer_len,
    png_data_url, png_url, take_extracted, thumbnail_disk_key, thumbnail_key, IconCache, IconStep,
};

#[test]
fn pixel_buffers() {
    assert_eq!(pixel_buffer_len(3, 2), Some(24));
    assert_eq!(pixel_buffer_len(0, 2), None);
    assert_eq!(pixel_buffer_len(3, -1), None);
}

#[test]
fn colours_are_exchanged() {
    assert_eq!(bgra_to_rgba(&[1, 2, 3, 4, 5, 6, 7, 0]), vec![3, 2, 1, 4, 7, 6, 5, 0]);
    assert_eq!(bgra_to_rgba(&[1, 2, 3, 0, 5, 6, 7, 0]), vec![3, 2, 1, 255, 7, 6, 5, 255]);
    assert_eq!(bgra_to_rgba(&[1, 2, 3, 4, 9]), vec![3, 2, 1, 4, 9]);
    assert_eq!(bgra_to_rgba(&[]), Vec::<u8>::new());
}

#[test]
fn data_urls_of_bytes() {
    assert_eq!(png_data_url(b"hello world~"), "data:image/png;base64,aGVsbG8gd29ybGR+");
    assert_eq!(png_data_url(b""), "data:image/png;base64,");
    assert_eq!(png_data_url(b"\xff"), "data:image/png;base64,/w==");
    assert_eq!(png_data_url(b"\xff\xee"), "data:image/png;base64,/+4=");
    assert!(may_encode(1_000_000));
    assert!(!may_encode(usize::MAX));
}

#[test]
fn data_urls_give_their_bytes_back() {
    for n in 0..40u8 {
        let b: Vec<u8> = (0..n).map(|i| i.wrapping_mul(97)).collect();
        assert_eq!(data_url_bytes(&png_data_url(&b)), Some(b));
    }
}

#[test]
fn damaged_data_urls_are_refused() {
    assert_eq!(data_url_bytes("data:image/jpeg;base64,/w=="), None);
    assert_eq!(data_url_bytes("data:image/png;base64,/w="), None);
    assert_eq!(data_url_bytes("data:image/png;base64,/w"), None);
    assert_eq!(data_url_bytes("data:image/png;base64,/x=="), None);
    assert_eq!(data_url_bytes("data:image/png;base64,/w==AAAA"), None);
    assert_eq!(data_url_bytes("data:image/png;base64,????"), None);
}

fn decoded(url: &str) -> (u32, u32, Vec<u8>) {
    let bytes = data_url_bytes(url).unwrap();
    let mut reader = png::Decoder::new(&bytes[..]).read_info().unwrap();
    let mut pixels = vec![0; reader.output_buffer_size()];
    let info = reader.next_frame(&mut pixels).unwrap();
    assert_eq!(info.color_type, png::ColorType::Rgba);
    assert_eq!(info.bit_depth, png::BitDepth::Eight);
    (info.width, info.height, pixels)
}

#[test]
fn bitmaps_become_images() {
    let url = hbitmap_to_data_url(2, 1, &[1, 2, 3, 4, 5, 6, 7, 8]).unwrap();
    assert_eq!(decoded(&url), (2, 1, vec![3, 2, 1, 4, 7, 6, 5, 8]));
    let url = hbitmap_to_data_url(1, 2, &[1, 2, 3, 0, 5, 6, 7, 0]).unwrap();
    assert_eq!(decoded(&url), (1, 2, vec![3, 2, 1, 255, 7, 6, 5, 255]));
}

#[test]
fn no_image_no_url() {
    assert_eq!(png_url(None), None);
    assert_eq!(png_url(Some(vec![255])).as_deref(), Some("data:image/png;base64,/w=="));
}

#[test]
fn keys_of_icons() {
    assert_eq!(icon_key("C:\\d", true, "txt", 16), "p:16:C:\\d");
    assert_eq!(icon_key("C:\\a.exe", false, "exe", 16), "p:16:C:\\a.exe");
    assert_eq!(icon_key("C:\\a", false, "", -1), "p:-1:C:\\a");
    assert_eq!(icon_key("C:\\a.txt", false, "txt", 32), "e:32:txt");
    assert_eq!(icon_key("C:\\a.txt", false, "txt", 32), icon_key("D:\\b.txt", false, "txt", 32));
    for ext in ["lnk", "ico", "url", "cur"] {
        assert_eq!(icon_key("x", false, ext, 1), "p:1:x");
    }
    assert_eq!(thumbnail_key("C:\\a", 96), "t:96:C:\\a");
    assert_eq!(thumbnail_disk_key("t:96:x", Some(17)).as_deref(), Some("t:96:x:17"));
    assert_eq!(thumbnail_disk_key("t:96:x", None), None);
    assert_eq!(cache_file_name("a"), "af63dc4c8601ec8c.png");
    assert_eq!(cache_file_name(""), "cbf29ce484222325.png");
}

#[test]
fn cache_holds_images() {
    let mut c = IconCache::new();
    assert_eq!(c.get("k"), None);
    c.insert("k".to_string(), "v".to_string());
    c.insert("l".to_string(), "w".to_string());
    c.insert("k".to_string(), "x".to_string());
    assert_eq!(c.get("k").as_deref(), Some("x"));
    assert_eq!(c.get("l").as_deref(), Some("w"));
}

#[test]
fn icons_are_found_in_memory_then_on_disk() {
    let mut c = IconCache::new();
    let (key, step) = get_icon_cached(&c, "C:\\a.txt", false, "txt", 32);
    assert_eq!(key, "e:32:txt");
    let file = match step {
        IconStep::Load(f) => f,
        _ => panic!("not loaded"),
    };
    assert_eq!(file, cache_file_name("e:32:txt"));
    assert_eq!(disk_load(&mut c, key.clone(), None), None);
    assert_eq!(c.get(&key), None);
    let url = disk_load(&mut c, key.clone(), Some(vec![255])).unwrap();
    assert_eq!(url, "data:image/png;base64,/w==");
    match get_icon_cached(&c, "D:\\b.txt", false, "txt", 32).1 {
        IconStep::Found(u) => assert_eq!(u, url),
        _ => panic!("not found"),
    }
}

#[test]
fn extracted_images_are_stored() {
    let mut c = IconCache::new();
    let url = png_data_url(&[1, 2, 3]);
    let w = take_extracted(&mut c, "k".to_string(), &Some("k".to_string()), &Some(url.clone())).unwrap();
    assert_eq!(w.file, cache_file_name("k"));
    assert_eq!(w.bytes, vec![1, 2, 3]);
    assert_eq!(png_data_url(&w.bytes), url);
    assert_eq!(c.get("k"), Some(url.clone()));
    assert!(take_extracted(&mut c, "m".to_string(), &None, &Some(url.clone())).is_none());
    assert_eq!(c.get("m"), Some(url));
    assert!(take_extracted(&mut c, "n".to_string(), &None, &None).is_none());
    assert_eq!(c.get("n"), None);
    assert!(disk_store(&Some("k".to_string()), "no url").is_none());
}

#[test]
fn thumbnails_expire_with_their_file() {
    let mut c = IconCache::new();
    let (key, disk_key, step) = get_thumbnail_cached(&c, "C:\\a.png", 256, Some(5));
    assert_eq!(key, "t:256:C:\\a.png");
    assert_eq!(disk_key.as_deref(), Some("t:256:C:\\a.png:5"));
    match step {
        IconStep::Load(f) => assert_eq!(f, cache_file_name("t:256:C:\\a.png:5")),
        _ => panic!("not loaded"),
    }
    let later = get_thumbnail_cached(&c, "C:\\a.png", 256, Some(6));
    assert_eq!(later.0, key);
    assert_ne!(later.1, disk_key);
    let (_, disk_key, step) = get_thumbnail_cached(&c, "C:\\a.png", 256, None);
    assert_eq!(disk_key, None);
    assert!(matches!(step, IconStep::Extract));
    c.insert(key, "u".to_string());
    assert!(matches!(
        get_thumbnail_cached(&c, "C:\\a.png", 256, None).2,
        IconStep::Found(_)
    ));
}
