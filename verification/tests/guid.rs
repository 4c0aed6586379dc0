use filespace::guid::{
    bytes_to_guid, guid_eq, guid_to_bytes, guid_to_string, parse_guid, push_le32, read_le32, Guid,
};

fn storage() -> Guid {
    Guid {
        data1: 0xB725F130,
        data2: 0x47EF,
        data3: 0x101A,
        data4: [0xA5, 0xF1, 0x02, 0x60, 0x8C, 0x9E, 0xEB, 0xAC],
    }
}

#[test]
fn guid_bytes_are_little_endian() {
    let b = guid_to_bytes(&storage());
    assert_eq!(
        b,
        [
            0x30, 0xF1, 0x25, 0xB7, 0xEF, 0x47, 0x1A, 0x10, 0xA5, 0xF1, 0x02, 0x60, 0x8C, 0x9E,
            0xEB, 0xAC
        ]
    );
    assert!(guid_eq(&bytes_to_guid(&b, 0), &storage()));
}

#[test]
fn guid_is_read_anywhere_in_bytes() {
    let mut b = vec![1u8, 2, 3];
    b.extend_from_slice(&guid_to_bytes(&storage()));
    let g = bytes_to_guid(&b, 3);
    assert!(guid_eq(&g, &storage()));
    assert_eq!(guid_to_bytes(&g).to_vec(), b[3..].to_vec());
}

#[test]
fn guid_text_has_braces_and_capitals() {
    assert_eq!(guid_to_string(&storage()), "{B725F130-47EF-101A-A5F1-02608C9EEBAC}");
}

#[test]
fn guid_text_is_read_back() {
    let text = guid_to_string(&storage());
    assert!(guid_eq(&parse_guid(&text).unwrap(), &storage()));
    let bare = parse_guid("b725f130-47ef-101a-a5f1-02608c9eebac").unwrap();
    assert!(guid_eq(&bare, &storage()));
    assert_eq!(bare.data1, 0xB725F130);
    assert_eq!(bare.data4[7], 0xAC);
}

#[test]
fn malformed_guid_texts_are_refused() {
    assert!(parse_guid("").is_none());
    assert!(parse_guid("{}").is_none());
    assert!(parse_guid("B725F130-47EF-101A-A5F1-02608C9EEBA").is_none());
    assert!(parse_guid("B725F130+47EF-101A-A5F1-02608C9EEBAC").is_none());
    assert!(parse_guid("G725F130-47EF-101A-A5F1-02608C9EEBAC").is_none());
    assert!(parse_guid("{{B725F130-47EF-101A-A5F1-02608C9EEBAC}}").is_none());
}

#[test]
fn different_guids_differ() {
    let mut other = storage();
    other.data4[3] = 0x61;
    assert!(!guid_eq(&storage(), &other));
}

#[test]
fn numbers_in_bytes() {
    let mut v = Vec::new();
    push_le32(&mut v, 0x0102_0304);
    assert_eq!(v, vec![4, 3, 2, 1]);
    assert_eq!(read_le32(&v, 0), 0x0102_0304);
}
