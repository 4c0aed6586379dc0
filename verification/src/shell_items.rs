//! Items of the shell's namespace: what is shown of each, and how folders, the address bar and the
//! navigation pane are put together from them.

use vstd::prelude::*;

use crate::guid::{guid_eq, Guid, GuidView};
use crate::numerals::{self, decimal_text};
use crate::text::{
    self, chars_of, copy_opt, last_segment, lower_text, non_empty, str_eq, text_or_empty, trim,
};
use crate::wide::{self, buffer_text, counted_text, encode};

verus! {

/// The parsing name of This PC.
pub const THIS_PC: &'static str = "::{20D04FE0-3AEA-1069-A2D8-08002B30309D}";

/// The parsing name of quick access.
pub const QUICK_ACCESS: &'static str = "shell:::{679f85cb-0220-4080-b29b-5540cc05aab6}";

/// The parsing name of the network.
pub const NETWORK: &'static str = "::{F02C1A0D-BE21-4350-88B0-7367FC96EF3C}";

/// The parsing name of the Linux (WSL) node.
pub const LINUX_WSL: &'static str = "::{B2B4A4D1-2754-4140-A2EB-9A76D9D7CDC6}";

pub const SFGAO_FOLDER: u32 = 0x2000_0000;

pub const SFGAO_STREAM: u32 = 0x0040_0000;

pub const SFGAO_HIDDEN: u32 = 0x0008_0000;

pub const DRIVE_REMOTE: u32 = 4;

/// A text as the zero-terminated code units that Windows calls take.
pub fn to_wide(s: &str) -> (r: Vec<u16>)
    ensures
        r@ == wide::utf16(s@).push(0),
{
    let mut v = encode(s);
    v.push(0);
    v
}

// ----- columns -----

/// What names a property: the identifier of its format and a number in it.
#[derive(Clone, Copy)]
pub struct PropertyKey {
    pub fmtid: Guid,
    pub pid: u32,
}

#[verifier::ext_equal]
pub struct KeyView {
    pub fmtid: GuidView,
    pub pid: u32,
}

impl View for PropertyKey {
    type V = KeyView;

    open spec fn view(&self) -> KeyView {
        KeyView { fmtid: self.fmtid@, pid: self.pid }
    }
}

/// A column to sort by, and the direction.
#[derive(Clone, Copy)]
pub struct SortColumn {
    pub fmtid: Guid,
    pub pid: u32,
    pub ascending: bool,
}

#[verifier::ext_equal]
pub struct ColumnView {
    pub fmtid: GuidView,
    pub pid: u32,
    pub ascending: bool,
}

impl View for SortColumn {
    type V = ColumnView;

    open spec fn view(&self) -> ColumnView {
        ColumnView { fmtid: self.fmtid@, pid: self.pid, ascending: self.ascending }
    }
}

pub open spec fn column_views(v: Seq<SortColumn>) -> Seq<ColumnView> {
    v.map_values(|c: SortColumn| c@)
}

/// The column to group by, and the direction.
#[derive(Clone, Copy)]
pub struct GroupCols {
    pub fmtid: Guid,
    pub pid: u32,
    pub ascending: bool,
}

impl View for GroupCols {
    type V = ColumnView;

    open spec fn view(&self) -> ColumnView {
        ColumnView { fmtid: self.fmtid@, pid: self.pid, ascending: self.ascending }
    }
}

pub open spec fn opt_group(g: Option<GroupCols>) -> Option<ColumnView> {
    match g {
        Some(g) => Some(g@),
        None => None,
    }
}

impl GroupCols {
    /// The property that the column shows.
    pub fn pkey(&self) -> (r: PropertyKey)
        ensures
            r@ == (KeyView { fmtid: self@.fmtid, pid: self@.pid }),
    {
        PropertyKey { fmtid: self.fmtid, pid: self.pid }
    }
}

/// The storage property format, which holds name, type, size and dates.
pub open spec fn storage_format() -> GuidView {
    GuidView {
        data1: 0xB725_F130,
        data2: 0x47EF,
        data3: 0x101A,
        data4: seq![0xA5u8, 0xF1u8, 0x02u8, 0x60u8, 0x8Cu8, 0x9Eu8, 0xEBu8, 0xACu8],
    }
}

/// The storage property format, which holds name, type, size and dates.
pub fn fmtid_storage() -> (r: Guid)
    ensures
        r@ == storage_format(),
{
    let r = Guid {
        data1: 0xB725_F130,
        data2: 0x47EF,
        data3: 0x101A,
        data4: [0xA5, 0xF1, 0x02, 0x60, 0x8C, 0x9E, 0xEB, 0xAC],
    };
    assert(r@ =~= storage_format());
    r
}

pub const PID_NAME: u32 = 10;

pub const PID_TYPE: u32 = 4;

pub const PID_SIZE: u32 = 12;

pub const PID_DATE_MODIFIED: u32 = 14;

pub const PID_DATE_CREATED: u32 = 15;

/// The number, in the storage format, of the column that the front end calls `key`.
pub open spec fn key_pid(key: Seq<char>) -> Option<u32> {
    if key == "name"@ {
        Some(PID_NAME)
    } else if key == "date"@ {
        Some(PID_DATE_MODIFIED)
    } else if key == "type"@ {
        Some(PID_TYPE)
    } else if key == "size"@ {
        Some(PID_SIZE)
    } else if key == "created"@ {
        Some(PID_DATE_CREATED)
    } else {
        None
    }
}

/// The property of the column that the front end calls `key`.
pub open spec fn key_property(key: Seq<char>) -> Option<KeyView> {
    match key_pid(key) {
        Some(pid) => Some(KeyView { fmtid: storage_format(), pid }),
        None => None,
    }
}

/// What the front end calls the column that shows a property, if it has that column.
pub open spec fn property_key(k: KeyView) -> Option<Seq<char>> {
    if k.fmtid != storage_format() {
        None
    } else if k.pid == PID_NAME {
        Some("name"@)
    } else if k.pid == PID_DATE_MODIFIED {
        Some("date"@)
    } else if k.pid == PID_TYPE {
        Some("type"@)
    } else if k.pid == PID_SIZE {
        Some("size"@)
    } else if k.pid == PID_DATE_CREATED {
        Some("created"@)
    } else {
        None
    }
}

pub open spec fn opt_key(k: Option<PropertyKey>) -> Option<KeyView> {
    match k {
        Some(k) => Some(k@),
        None => None,
    }
}

/// The property of the column that the front end calls `key`.
pub fn frontend_key_to_pkey(key: &str) -> (r: Option<PropertyKey>)
    ensures
        opt_key(r) == key_property(key@),
{
    let pid: u32 = if str_eq(key, "name") {
        PID_NAME
    } else if str_eq(key, "date") {
        PID_DATE_MODIFIED
    } else if str_eq(key, "type") {
        PID_TYPE
    } else if str_eq(key, "size") {
        PID_SIZE
    } else if str_eq(key, "created") {
        PID_DATE_CREATED
    } else {
        return None;
    };
    Some(PropertyKey { fmtid: fmtid_storage(), pid })
}

pub open spec fn opt_str(s: Option<&str>) -> Option<Seq<char>> {
    match s {
        Some(s) => Some(s@),
        None => None,
    }
}

/// What the front end calls the column that shows a property, if it has that column.
pub fn column_to_frontend_key(fmtid: &Guid, pid: u32) -> (r: Option<&'static str>)
    ensures
        opt_str(r) == property_key(KeyView { fmtid: fmtid@, pid }),
{
    if !guid_eq(fmtid, &fmtid_storage()) {
        None
    } else if pid == PID_NAME {
        Some("name")
    } else if pid == PID_DATE_MODIFIED {
        Some("date")
    } else if pid == PID_TYPE {
        Some("type")
    } else if pid == PID_SIZE {
        Some("size")
    } else if pid == PID_DATE_CREATED {
        Some("created")
    } else {
        None
    }
}

/// The front end's names and the properties belong to each other one to one.
pub proof fn law_columns_have_one_name(key: Seq<char>, k: KeyView)
    ensures
        key_property(key) == Some(k) <==> property_key(k) == Some(key),
{
    reveal_strlit("name");
    reveal_strlit("date");
    reveal_strlit("type");
    reveal_strlit("size");
    reveal_strlit("created");
    assert("name"@[0] != "date"@[0]);
    assert("name"@[0] != "type"@[0]);
    assert("name"@[0] != "size"@[0]);
    assert("date"@[0] != "type"@[0]);
    assert("date"@[0] != "size"@[0]);
    assert("type"@[0] != "size"@[0]);
    assert("created"@.len() != "name"@.len());
    assert("created"@.len() != "date"@.len());
    assert("created"@.len() != "type"@.len());
    assert("created"@.len() != "size"@.len());
    if property_key(k) == Some(key) {
        assert(k =~= (KeyView { fmtid: storage_format(), pid: k.pid }));
    }
}

// ----- values -----

/// A point in time: the number of 100-nanosecond steps since 1601, in two halves.
#[derive(Clone, Copy)]
pub struct FileTime {
    pub low: u32,
    pub high: u32,
}

/// The steps of a point in time.
pub open spec fn ticks(ft: FileTime) -> nat {
    (ft.high as nat) * 0x1_0000_0000 + ft.low as nat
}

/// The steps of a point in time.
pub fn filetime_ticks(ft: &FileTime) -> (r: u64)
    ensures
        r == ticks(*ft),
{
    ft.high as u64 * 0x1_0000_0000 + ft.low as u64
}

/// The milliseconds since 1970 of a point in time.
pub open spec fn unix_ms(ft: FileTime) -> int {
    ticks(ft) as int / 10_000 - 11_644_473_600_000
}

/// The milliseconds since 1970 of a point in time.
pub fn filetime_to_unix_ms(ft: &FileTime) -> (r: i64)
    ensures
        r == unix_ms(*ft),
{
    (filetime_ticks(ft) / 10_000) as i64 - 11_644_473_600_000
}

/// A later point in time never has fewer milliseconds.
pub proof fn law_time_keeps_order(a: FileTime, b: FileTime)
    requires
        ticks(a) <= ticks(b),
    ensures
        unix_ms(a) <= unix_ms(b),
{
}

/// The text of a date that the shell has put in a buffer; `len` counts its units with the zero at
/// the end, and is 0 where the shell failed.
pub fn format_date(buf: &[u16], len: i32) -> (r: String)
    ensures
        r@ == (if len <= 0 {
            Seq::empty()
        } else if len - 1 <= buf@.len() {
            wide::decoded(buf@.take(len - 1))
        } else {
            wide::decoded(buf@)
        }),
{
    if len > 0 {
        assert(buf@.take(buf@.len() as int) =~= buf@);
        counted_text(buf, (len - 1) as usize)
    } else {
        String::new()
    }
}

/// `bytes` in kilobytes, rounded up.
pub open spec fn kilobytes(bytes: u64) -> nat {
    ((bytes + 1023) / 1024) as nat
}

pub open spec fn opt_buffer(b: Option<&[u16]>) -> Option<Seq<u16>> {
    match b {
        Some(b) => Some(b@),
        None => None,
    }
}

/// The size of a file in kilobytes: the text that the shell has put in a buffer, or the number
/// itself where it did not.
pub fn format_size_kb(bytes: u64, buf: Option<&[u16]>) -> (r: String)
    ensures
        r@ == (match opt_buffer(buf) {
            Some(b) => wide::decoded(wide::before_nul(b)),
            None => numerals::decimal(kilobytes(bytes)) + " KB"@,
        }),
{
    match buf {
        Some(b) => buffer_text(b),
        None => {
            let kb: u64 = if bytes % 1024 == 0 {
                bytes / 1024
            } else {
                bytes / 1024 + 1
            };
            let mut s = decimal_text(kb);
            s.append(" KB");
            s
        },
    }
}

/// A number of bytes: the text that the shell has put in a buffer, or the number itself where it
/// did not.
pub fn format_byte_size(bytes: u64, buf: Option<&[u16]>) -> (r: String)
    ensures
        r@ == (match opt_buffer(buf) {
            Some(b) => wide::decoded(wide::before_nul(b)),
            None => numerals::decimal(bytes as nat) + " B"@,
        }),
{
    match buf {
        Some(b) => buffer_text(b),
        None => {
            let mut s = decimal_text(bytes);
            s.append(" B");
            s
        },
    }
}

/// The capacity of a drive.
pub struct DriveInfo {
    pub total: u64,
    pub free: u64,
    pub text: String,
}

#[verifier::ext_equal]
pub struct DriveView {
    pub total: u64,
    pub free: u64,
    pub text: Seq<char>,
}

impl View for DriveInfo {
    type V = DriveView;

    open spec fn view(&self) -> DriveView {
        DriveView { total: self.total, free: self.free, text: self.text@ }
    }
}

pub open spec fn opt_drive(d: Option<DriveInfo>) -> Option<DriveView> {
    match d {
        Some(d) => Some(d@),
        None => None,
    }
}

/// Whether a drive may be asked for its capacity: a network drive that is not connected would
/// block for seconds.
pub fn may_ask_space(drive_type: u32) -> (r: bool)
    ensures
        r == (drive_type != DRIVE_REMOTE),
{
    drive_type != DRIVE_REMOTE
}

/// The free and total bytes that a drive reports.
#[derive(Clone, Copy)]
pub struct DriveSpace {
    pub free: u64,
    pub total: u64,
}

/// What is shown of the capacity of a drive.
pub open spec fn drive_shown(
    drive_type: u32,
    space: Option<DriveSpace>,
    free_text: Seq<char>,
    total_text: Seq<char>,
) -> Option<DriveView> {
    match space {
        Some(s) if drive_type != DRIVE_REMOTE && s.total != 0 => Some(
            DriveView {
                total: s.total,
                free: s.free,
                text: free_text + " 可用, 共 "@ + total_text,
            },
        ),
        _ => None,
    }
}

/// What is shown of the capacity of a drive, given the texts of its two sizes.
pub fn drive_info(
    drive_type: u32,
    space: Option<DriveSpace>,
    free_text: &str,
    total_text: &str,
) -> (r: Option<DriveInfo>)
    ensures
        opt_drive(r) == drive_shown(drive_type, space, free_text@, total_text@),
{
    if !may_ask_space(drive_type) {
        return None;
    }
    match space {
        Some(s) => {
            if s.total == 0 {
                return None;
            }
            let mut t = String::new();
            t.append(free_text);
            t.append(" 可用, 共 ");
            t.append(total_text);
            assert(t@ =~= free_text@ + " 可用, 共 "@ + total_text@);
            Some(DriveInfo { total: s.total, free: s.free, text: t })
        },
        None => None,
    }
}

/// Whether a parsing name is the root of a drive, such as `C:\`.
pub open spec fn is_drive_root(p: Seq<char>) -> bool {
    p.len() == 3 && (p[0] as u32) < 0x80 && p[1] == ':' && p[2] == '\\'
}

/// Whether a parsing name is the root of a drive, such as `C:\`.
pub fn drive_root_path(p: &str) -> (r: bool)
    ensures
        r == is_drive_root(p@),
{
    p.unicode_len() == 3 && (p.get_char(0) as u32) < 0x80 && p.get_char(1) == ':' && p.get_char(2)
        == '\\'
}

// ----- entries -----

/// One item as the front end shows it.
pub struct ShellEntry {
    pub name: String,
    pub full_name: String,
    pub parse_path: String,
    pub fs_path: Option<String>,
    pub is_folder: bool,
    pub sort_as_folder: bool,
    pub is_hidden: bool,
    pub size: Option<u64>,
    pub size_text: String,
    pub date_modified: i64,
    pub date_text: String,
    pub date_created: i64,
    pub date_created_text: String,
    pub type_text: String,
    pub ext: String,
    /// Of a drive only: its capacity, the free part of it, and both as text.
    pub drive_total: Option<u64>,
    pub drive_free: Option<u64>,
    pub drive_text: String,
    /// In quick access only: pinned by the user, not merely visited often.
    pub pinned: bool,
}

#[verifier::ext_equal]
pub struct EntryView {
    pub name: Seq<char>,
    pub full_name: Seq<char>,
    pub parse_path: Seq<char>,
    pub fs_path: Option<Seq<char>>,
    pub is_folder: bool,
    pub sort_as_folder: bool,
    pub is_hidden: bool,
    pub size: Option<u64>,
    pub size_text: Seq<char>,
    pub date_modified: i64,
    pub date_text: Seq<char>,
    pub date_created: i64,
    pub date_created_text: Seq<char>,
    pub type_text: Seq<char>,
    pub ext: Seq<char>,
    pub drive_total: Option<u64>,
    pub drive_free: Option<u64>,
    pub drive_text: Seq<char>,
    pub pinned: bool,
}

impl View for ShellEntry {
    type V = EntryView;

    open spec fn view(&self) -> EntryView {
        EntryView {
            name: self.name@,
            full_name: self.full_name@,
            parse_path: self.parse_path@,
            fs_path: text::opt_view(self.fs_path),
            is_folder: self.is_folder,
            sort_as_folder: self.sort_as_folder,
            is_hidden: self.is_hidden,
            size: self.size,
            size_text: self.size_text@,
            date_modified: self.date_modified,
            date_text: self.date_text@,
            date_created: self.date_created,
            date_created_text: self.date_created_text@,
            type_text: self.type_text@,
            ext: self.ext@,
            drive_total: self.drive_total,
            drive_free: self.drive_free,
            drive_text: self.drive_text@,
            pinned: self.pinned,
        }
    }
}

pub open spec fn entry_views(v: Seq<ShellEntry>) -> Seq<EntryView> {
    v.map_values(|e: ShellEntry| e@)
}

pub open spec fn opt_entry(e: Option<ShellEntry>) -> Option<EntryView> {
    match e {
        Some(e) => Some(e@),
        None => None,
    }
}

/// A copy of an entry.
pub fn copy_entry(e: &ShellEntry) -> (r: ShellEntry)
    ensures
        r@ == e@,
{
    ShellEntry {
        name: e.name.clone(),
        full_name: e.full_name.clone(),
        parse_path: e.parse_path.clone(),
        fs_path: copy_opt(&e.fs_path),
        is_folder: e.is_folder,
        sort_as_folder: e.sort_as_folder,
        is_hidden: e.is_hidden,
        size: e.size,
        size_text: e.size_text.clone(),
        date_modified: e.date_modified,
        date_text: e.date_text.clone(),
        date_created: e.date_created,
        date_created_text: e.date_created_text.clone(),
        type_text: e.type_text.clone(),
        ext: e.ext.clone(),
        drive_total: e.drive_total,
        drive_free: e.drive_free,
        drive_text: e.drive_text.clone(),
        pinned: e.pinned,
    }
}

/// A date of an item, with the text that the shell gives it.
pub struct ItemDate {
    pub time: FileTime,
    pub text: String,
}

/// What the shell tells of one item.
pub struct ItemProps {
    pub display_name: Option<String>,
    pub parse_name: Option<String>,
    pub fs_name: Option<String>,
    /// The attribute bits; 0 where they cannot be read.
    pub attributes: u32,
    pub size: Option<u64>,
    /// The text of the size, where the item has one.
    pub size_text: String,
    pub modified: Option<ItemDate>,
    pub created: Option<ItemDate>,
    pub kind_name: Option<String>,
    /// The capacity, where the item is the root of a drive that tells it.
    pub drive: Option<DriveInfo>,
}

/// Whether the attributes are those of a real folder: a zip is folder and stream at once, and
/// counts as a file.
pub open spec fn is_real_folder(attributes: u32) -> bool {
    attributes & SFGAO_FOLDER != 0 && attributes & SFGAO_STREAM == 0
}

/// Whether the attributes are those of a real folder, not of a file that acts as one.
pub fn real_folder(attributes: u32) -> (r: bool)
    ensures
        r == is_real_folder(attributes),
{
    attributes & SFGAO_FOLDER != 0 && attributes & SFGAO_STREAM == 0
}

pub open spec fn date_ms(d: Option<ItemDate>) -> i64 {
    match d {
        Some(d) => unix_ms(d.time) as i64,
        None => 0,
    }
}

pub open spec fn date_text(d: Option<ItemDate>) -> Seq<char> {
    match d {
        Some(d) => d.text@,
        None => Seq::empty(),
    }
}

/// What follows the last dot of the path, in small letters; the whole path where it has no dot.
pub open spec fn extension(fs_path: Option<Seq<char>>) -> Seq<char> {
    match fs_path {
        Some(p) => text::lowered(text::last_part(p, '.')),
        None => Seq::empty(),
    }
}

/// The file's own name: what follows the last backslash of its path, or its display name where
/// nothing does.
pub open spec fn file_name(fs_path: Option<Seq<char>>, display: Seq<char>) -> Seq<char> {
    match fs_path {
        Some(p) => if text::last_part(p, '\\').len() > 0 {
            text::last_part(p, '\\')
        } else {
            display
        },
        None => display,
    }
}

/// What is shown of an item; nothing where it lacks a display name or a parsing name.
pub open spec fn entry_of(p: ItemProps) -> Option<EntryView> {
    let name = text::filled(text::opt_view(p.display_name));
    let parse = text::filled(text::opt_view(p.parse_name));
    let fs = text::filled(text::opt_view(p.fs_name));
    let folder = is_real_folder(p.attributes);
    if name is None || parse is None {
        None
    } else {
        let drive = if is_drive_root(parse->0) {
            opt_drive(p.drive)
        } else {
            None
        };
        Some(
            EntryView {
                name: name->0,
                full_name: file_name(fs, name->0),
                parse_path: parse->0,
                fs_path: fs,
                is_folder: folder,
                sort_as_folder: folder,
                is_hidden: p.attributes & SFGAO_HIDDEN != 0,
                size: p.size,
                size_text: if p.size is Some && !folder {
                    p.size_text@
                } else {
                    Seq::empty()
                },
                date_modified: date_ms(p.modified),
                date_text: date_text(p.modified),
                date_created: date_ms(p.created),
                date_created_text: date_text(p.created),
                type_text: text::or_empty(text::opt_view(p.kind_name)),
                ext: extension(fs),
                drive_total: match drive {
                    Some(d) => Some(d.total),
                    None => None,
                },
                drive_free: match drive {
                    Some(d) => Some(d.free),
                    None => None,
                },
                drive_text: match drive {
                    Some(d) => d.text,
                    None => Seq::empty(),
                },
                pinned: false,
            },
        )
    }
}

fn split_date(d: Option<ItemDate>) -> (r: (i64, String))
    ensures
        r.0 == date_ms(d),
        r.1@ == date_text(d),
{
    match d {
        Some(d) => (filetime_to_unix_ms(&d.time), d.text),
        None => (0, String::new()),
    }
}

/// What is shown of an item; nothing where it lacks a display name or a parsing name.
pub fn entry_from_item(p: ItemProps) -> (r: Option<ShellEntry>)
    ensures
        opt_entry(r) == entry_of(p),
{
    let name = match non_empty(p.display_name) {
        Some(s) => s,
        None => return None,
    };
    let parse_path = match non_empty(p.parse_name) {
        Some(s) => s,
        None => return None,
    };
    let fs_path = non_empty(p.fs_name);
    let sort_as_folder = real_folder(p.attributes);
    let is_hidden = p.attributes & SFGAO_HIDDEN != 0;
    let size_text = if p.size.is_some() && !sort_as_folder {
        p.size_text
    } else {
        String::new()
    };
    let (date_modified, date_text) = split_date(p.modified);
    let (date_created, date_created_text) = split_date(p.created);
    let type_text = text_or_empty(p.kind_name);
    let ext = match &fs_path {
        Some(f) => lower_text(last_segment(f.as_str(), '.')),
        None => String::new(),
    };
    let full_name = match &fs_path {
        Some(f) => {
            let last = last_segment(f.as_str(), '\\');
            if last.is_empty() {
                name.clone()
            } else {
                last.to_owned()
            }
        },
        None => name.clone(),
    };
    let drive = if drive_root_path(parse_path.as_str()) {
        p.drive
    } else {
        None
    };
    let (drive_total, drive_free, drive_text) = match drive {
        Some(d) => (Some(d.total), Some(d.free), d.text),
        None => (None, None, String::new()),
    };
    let r = ShellEntry {
        name,
        full_name,
        parse_path,
        fs_path,
        is_folder: sort_as_folder,
        sort_as_folder,
        is_hidden,
        size: p.size,
        size_text,
        date_modified,
        date_text,
        date_created,
        date_created_text,
        type_text,
        ext,
        drive_total,
        drive_free,
        drive_text,
        pinned: false,
    };
    assert(r@ =~= entry_of(p)->0);
    Some(r)
}

/// An item that is folder and stream at once, such as a zip, is shown as a file.
pub proof fn law_zip_is_shown_as_file(p: ItemProps)
    requires
        p.attributes & SFGAO_STREAM != 0,
        entry_of(p) is Some,
    ensures
        !entry_of(p)->0.is_folder,
        !entry_of(p)->0.sort_as_folder,
        p.size is Some ==> entry_of(p)->0.size_text == p.size_text@,
{
}

// ----- folders -----

/// What is shown of each item, in order, without those of which nothing is.
pub open spec fn entries_of(items: Seq<ItemProps>) -> Seq<EntryView>
    decreases items.len(),
{
    if items.len() == 0 {
        Seq::empty()
    } else {
        match entry_of(items.last()) {
            Some(e) => entries_of(items.drop_last()).push(e),
            None => entries_of(items.drop_last()),
        }
    }
}

fn collect_entries(items: Vec<ItemProps>) -> (r: Vec<ShellEntry>)
    ensures
        entry_views(r@) == entries_of(items@),
{
    let mut out: Vec<ShellEntry> = Vec::new();
    let ghost all = items@;
    assert(entry_views(out@) =~= entries_of(all.take(0)));
    for p in it: items
        invariant
            it.seq() == all,
            entry_views(out@) == entries_of(all.take(it.index())),
    {
        let ghost before = out@;
        let ghost x = p;
        assert(all.take(it.index() + 1).drop_last() =~= all.take(it.index()));
        if let Some(e) = entry_from_item(p) {
            out.push(e);
            assert(entry_views(out@) =~= entry_views(before).push(e@));
        }
    }
    assert(all.take(all.len() as int) =~= all);
    out
}

pub open spec fn listing_result(items: Result<Seq<ItemProps>, Seq<char>>) -> Result<
    Seq<EntryView>,
    Seq<char>,
> {
    match items {
        Ok(v) => Ok(entries_of(v)),
        Err(e) => Err(e),
    }
}

pub open spec fn props_view(r: Result<Vec<ItemProps>, String>) -> Result<
    Seq<ItemProps>,
    Seq<char>,
> {
    match r {
        Ok(v) => Ok(v@),
        Err(e) => Err(e@),
    }
}

pub open spec fn entries_view(r: Result<Vec<ShellEntry>, String>) -> Result<
    Seq<EntryView>,
    Seq<char>,
> {
    match r {
        Ok(v) => Ok(entry_views(v@)),
        Err(e) => Err(e@),
    }
}

/// The entries of a folder, given what the shell tells of its items or why it cannot. Hidden items
/// are among them: the front end decides whether it shows those.
pub fn enumerate_folder(items: Result<Vec<ItemProps>, String>) -> (r: Result<
    Vec<ShellEntry>,
    String,
>)
    ensures
        entries_view(r) == listing_result(props_view(items)),
{
    match items {
        Ok(v) => Ok(collect_entries(v)),
        Err(e) => Err(e),
    }
}

/// The entries, or none where the items cannot be read.
pub open spec fn entries_or_none(items: Result<Seq<ItemProps>, Seq<char>>) -> Seq<EntryView> {
    match items {
        Ok(v) => entries_of(v),
        Err(_) => Seq::empty(),
    }
}

fn collect_or_none(items: Result<Vec<ItemProps>, String>) -> (r: Vec<ShellEntry>)
    ensures
        entry_views(r@) == entries_or_none(props_view(items)),
{
    match items {
        Ok(v) => collect_entries(v),
        Err(_) => {
            let none: Vec<ShellEntry> = Vec::new();
            assert(entry_views(none@) =~= Seq::empty());
            none
        },
    }
}

/// The entries of the desktop, the root of the namespace.
pub fn desktop_entries(items: Result<Vec<ItemProps>, String>) -> (r: Vec<ShellEntry>)
    ensures
        entry_views(r@) == entries_or_none(props_view(items)),
{
    collect_or_none(items)
}

/// One step of the address bar.
pub struct Crumb {
    pub name: String,
    pub parse_path: String,
}

#[verifier::ext_equal]
pub struct CrumbView {
    pub name: Seq<char>,
    pub parse_path: Seq<char>,
}

impl View for Crumb {
    type V = CrumbView;

    open spec fn view(&self) -> CrumbView {
        CrumbView { name: self.name@, parse_path: self.parse_path@ }
    }
}

pub open spec fn crumb_views(v: Seq<Crumb>) -> Seq<CrumbView> {
    v.map_values(|c: Crumb| c@)
}

/// The crumb that the names of an item make; a name that is missing is empty.
pub fn crumb_of(display_name: Option<String>, parse_name: Option<String>) -> (r: Crumb)
    ensures
        r@ == (CrumbView {
            name: text::or_empty(text::opt_view(display_name)),
            parse_path: text::or_empty(text::opt_view(parse_name)),
        }),
{
    Crumb { name: text_or_empty(display_name), parse_path: text_or_empty(parse_name) }
}

/// Whether a path begins with a drive letter.
pub open spec fn is_drive_path(p: Seq<char>) -> bool {
    p.len() >= 2 && ('A' <= p[0] <= 'Z' || 'a' <= p[0] <= 'z') && p[1] == ':'
}

/// The names under which a path is looked up for the address bar, the first that resolves
/// counting: a path with a drive letter is looked up under This PC first, so that its chain of
/// parents is the same for every drive.
pub fn breadcrumb_names(path: &str) -> (r: Vec<String>)
    ensures
        text::texts(r@) == (if is_drive_path(path@) {
            seq![THIS_PC@ + "\\"@ + path@, path@]
        } else {
            seq![path@]
        }),
{
    let mut out: Vec<String> = Vec::new();
    let v = chars_of(path);
    if v.len() >= 2 && (('A' <= v[0] && v[0] <= 'Z') || ('a' <= v[0] && v[0] <= 'z')) && v[1]
        == ':' {
        let mut s = String::new();
        s.append(THIS_PC);
        s.append("\\");
        s.append(path);
        assert(s@ =~= THIS_PC@ + "\\"@ + path@);
        out.push(s);
    }
    out.push(path.to_owned());
    assert(text::texts(out@) =~= (if is_drive_path(path@) {
        seq![THIS_PC@ + "\\"@ + path@, path@]
    } else {
        seq![path@]
    }));
    out
}

/// The address bar of an item, given the item and its ancestors from the item upwards: from the
/// top down, and without the desktop at the top, unless it is all there is.
pub open spec fn crumbs_of(chain: Seq<CrumbView>) -> Seq<CrumbView> {
    if chain.len() > 1 {
        chain.reverse().skip(1)
    } else {
        chain
    }
}

/// The address bar of an item, given the item and its ancestors from the item upwards.
pub fn breadcrumb_for(chain: Vec<Crumb>) -> (r: Vec<Crumb>)
    ensures
        crumb_views(r@) == crumbs_of(crumb_views(chain@)),
{
    let n = chain.len();
    if n <= 1 {
        return chain;
    }
    let ghost all = crumb_views(chain@);
    let mut rest = chain;
    let mut out: Vec<Crumb> = Vec::new();
    let top = rest.pop();
    while rest.len() > 0
        invariant
            rest.len() + out.len() == n - 1,
            all.len() == n,
            n > 1,
            crumb_views(rest@) == all.take(rest.len() as int),
            crumb_views(out@) =~= all.reverse().subrange(1, 1 + out.len()),
        decreases rest.len(),
    {
        let ghost before = out@;
        let ghost held = crumb_views(rest@);
        if let Some(c) = rest.pop() {
            proof {
                assert(held.last() == c@);
                assert(crumb_views(rest@) =~= held.drop_last());
            }
            out.push(c);
            assert(crumb_views(out@) =~= crumb_views(before).push(c@));
        }
    }
    assert(crumb_views(out@) =~= all.reverse().skip(1));
    out
}

/// The address bar ends with the item itself, and only the desktop at the top is left out.
pub proof fn law_breadcrumb_ends_with_item(chain: Seq<CrumbView>)
    requires
        chain.len() > 0,
    ensures
        crumbs_of(chain).len() > 0,
        crumbs_of(chain).last() == chain[0],
        crumbs_of(chain).len() == (if chain.len() > 1 {
            chain.len() - 1
        } else {
            1
        }),
{
}

/// A folder as the front end shows it.
pub struct FolderListing {
    pub folder_name: String,
    pub parse_path: String,
    pub breadcrumb: Vec<Crumb>,
    pub entries: Vec<ShellEntry>,
}

#[verifier::ext_equal]
pub struct ListingView {
    pub folder_name: Seq<char>,
    pub parse_path: Seq<char>,
    pub breadcrumb: Seq<CrumbView>,
    pub entries: Seq<EntryView>,
}

impl View for FolderListing {
    type V = ListingView;

    open spec fn view(&self) -> ListingView {
        ListingView {
            folder_name: self.folder_name@,
            parse_path: self.parse_path@,
            breadcrumb: crumb_views(self.breadcrumb@),
            entries: entry_views(self.entries@),
        }
    }
}

pub open spec fn listing_view(r: Result<FolderListing, String>) -> Result<ListingView, Seq<char>> {
    match r {
        Ok(l) => Ok(l@),
        Err(e) => Err(e@),
    }
}

/// The listing of the folder at `path`, given its names, its items and its chain of ancestors.
pub fn folder_listing(
    path: &str,
    display_name: Option<String>,
    parse_name: Option<String>,
    items: Result<Vec<ItemProps>, String>,
    chain: Vec<Crumb>,
) -> (r: Result<FolderListing, String>)
    ensures
        listing_view(r) == (match listing_result(props_view(items)) {
            Ok(entries) => Ok(
                ListingView {
                    folder_name: text::or_empty(text::opt_view(display_name)),
                    parse_path: match text::filled(text::opt_view(parse_name)) {
                        Some(p) => p,
                        None => path@,
                    },
                    breadcrumb: crumbs_of(crumb_views(chain@)),
                    entries,
                },
            ),
            Err(e) => Err(e),
        }),
{
    let folder_name = text_or_empty(display_name);
    let parse_path = match non_empty(parse_name) {
        Some(p) => p,
        None => path.to_owned(),
    };
    let entries = match enumerate_folder(items) {
        Ok(v) => v,
        Err(e) => return Err(e),
    };
    let breadcrumb = breadcrumb_for(chain);
    Ok(FolderListing { folder_name, parse_path, breadcrumb, entries })
}

// ----- navigation pane -----

/// One item of quick access, and what its pinned property says where it can be read.
pub struct QuickItem {
    pub props: ItemProps,
    pub pinned: Option<bool>,
}

/// What is shown of one item of quick access: folders only, and all of them as pinned where the
/// system does not know the property.
pub open spec fn quick_entry(q: QuickItem, has_pin_key: bool) -> Option<EntryView> {
    match entry_of(q.props) {
        Some(e) if e.is_folder => Some(
            EntryView {
                pinned: if has_pin_key {
                    q.pinned == Some(true)
                } else {
                    true
                },
                ..e
            },
        ),
        _ => None,
    }
}

/// The entries that are pinned, or those that are not, in order.
pub open spec fn quick_part(items: Seq<QuickItem>, has_pin_key: bool, pinned: bool) -> Seq<
    EntryView,
>
    decreases items.len(),
{
    if items.len() == 0 {
        Seq::empty()
    } else {
        let head = quick_part(items.drop_last(), has_pin_key, pinned);
        match quick_entry(items.last(), has_pin_key) {
            Some(e) if e.pinned == pinned => head.push(e),
            _ => head,
        }
    }
}

/// Quick access: the pinned folders first, then the others, each in the order of the system.
pub fn quick_access_entries(items: Vec<QuickItem>, has_pin_key: bool) -> (r: Vec<ShellEntry>)
    ensures
        entry_views(r@) == quick_part(items@, has_pin_key, true) + quick_part(
            items@,
            has_pin_key,
            false,
        ),
{
    let mut first: Vec<ShellEntry> = Vec::new();
    let mut second: Vec<ShellEntry> = Vec::new();
    let ghost all = items@;
    assert(entry_views(first@) =~= quick_part(all.take(0), has_pin_key, true));
    assert(entry_views(second@) =~= quick_part(all.take(0), has_pin_key, false));
    for q in it: items
        invariant
            it.seq() == all,
            entry_views(first@) == quick_part(all.take(it.index()), has_pin_key, true),
            entry_views(second@) == quick_part(all.take(it.index()), has_pin_key, false),
    {
        let ghost first0 = first@;
        let ghost second0 = second@;
        let ghost x = q;
        assert(all.take(it.index() + 1).drop_last() =~= all.take(it.index()));
        if let Some(e) = entry_from_item(q.props) {
            if e.is_folder {
                let pinned = if has_pin_key {
                    match q.pinned {
                        Some(b) => b,
                        None => false,
                    }
                } else {
                    true
                };
                let mut entry = e;
                entry.pinned = pinned;
                assert(Some(entry@) =~= quick_entry(x, has_pin_key));
                if pinned {
                    first.push(entry);
                    assert(entry_views(first@) =~= entry_views(first0).push(entry@));
                } else {
                    second.push(entry);
                    assert(entry_views(second@) =~= entry_views(second0).push(entry@));
                }
            }
        }
    }
    assert(all.take(all.len() as int) =~= all);
    let ghost f = first@;
    let ghost s = second@;
    first.append(&mut second);
    assert(entry_views(first@) =~= entry_views(f) + entry_views(s));
    first
}

proof fn lemma_quick_part(items: Seq<QuickItem>, has_pin_key: bool, pinned: bool, i: int)
    requires
        0 <= i < quick_part(items, has_pin_key, pinned).len(),
    ensures
        quick_part(items, has_pin_key, pinned)[i].is_folder,
        quick_part(items, has_pin_key, pinned)[i].pinned == pinned,
    decreases items.len(),
{
    let head = quick_part(items.drop_last(), has_pin_key, pinned);
    if i < head.len() {
        lemma_quick_part(items.drop_last(), has_pin_key, pinned, i);
    }
}

/// Quick access shows folders only, and no pinned folder behind one that is not pinned.
pub proof fn law_pinned_folders_come_first(items: Seq<QuickItem>, has_pin_key: bool, i: int, j: int)
    requires
        0 <= i <= j < quick_part(items, has_pin_key, true).len() + quick_part(
            items,
            has_pin_key,
            false,
        ).len(),
    ensures
        ({
            let all = quick_part(items, has_pin_key, true) + quick_part(items, has_pin_key, false);
            all[i].is_folder && (all[j].pinned ==> all[i].pinned)
        }),
{
    let a = quick_part(items, has_pin_key, true);
    let b = quick_part(items, has_pin_key, false);
    if i < a.len() {
        lemma_quick_part(items, has_pin_key, true, i);
    } else {
        lemma_quick_part(items, has_pin_key, false, i - a.len());
        lemma_quick_part(items, has_pin_key, false, j - a.len());
    }
}

/// The navigation pane.
pub struct SidebarData {
    pub quick_access: Vec<ShellEntry>,
    pub this_pc: Vec<ShellEntry>,
    pub drives: Vec<ShellEntry>,
    /// The network, and Linux where WSL is installed.
    pub network: Option<ShellEntry>,
    pub linux: Option<ShellEntry>,
}

#[verifier::ext_equal]
pub struct SidebarView {
    pub quick_access: Seq<EntryView>,
    pub this_pc: Seq<EntryView>,
    pub drives: Seq<EntryView>,
    pub network: Option<EntryView>,
    pub linux: Option<EntryView>,
}

impl View for SidebarData {
    type V = SidebarView;

    open spec fn view(&self) -> SidebarView {
        SidebarView {
            quick_access: entry_views(self.quick_access@),
            this_pc: entry_views(self.this_pc@),
            drives: entry_views(self.drives@),
            network: opt_entry(self.network),
            linux: opt_entry(self.linux),
        }
    }
}

/// The entries that are roots of drives.
pub open spec fn drives_of(entries: Seq<EntryView>) -> Seq<EntryView> {
    entries.filter(|e: EntryView| is_drive_root(e.parse_path))
}

fn collect_drives(v: &Vec<ShellEntry>) -> (r: Vec<ShellEntry>)
    ensures
        entry_views(r@) == drives_of(entry_views(v@)),
{
    let ghost views = entry_views(v@);
    let mut out: Vec<ShellEntry> = Vec::new();
    let mut i: usize = 0;
    assert(entry_views(out@) =~= drives_of(views.take(0))) by {
        reveal(Seq::filter);
    }
    while i < v.len()
        invariant
            i <= v.len(),
            views == entry_views(v@),
            entry_views(out@) == drives_of(views.take(i as int)),
        decreases v.len() - i,
    {
        let ghost before = out@;
        proof {
            reveal(Seq::filter);
            assert(views[i as int] == v@[i as int]@);
            assert(views.take(i + 1).drop_last() =~= views.take(i as int));
        }
        if drive_root_path(v[i].parse_path.as_str()) {
            out.push(copy_entry(&v[i]));
            assert(entry_views(out@) =~= entry_views(before).push(views[i as int]));
        }
        i += 1;
    }
    assert(views.take(views.len() as int) =~= views);
    out
}

/// The drives are entries of This PC, and every entry of This PC that is the root of a drive is
/// among them.
pub proof fn law_drives_come_from_this_pc(entries: Seq<EntryView>, e: EntryView)
    ensures
        drives_of(entries).contains(e) <==> entries.contains(e) && is_drive_root(e.parse_path),
{
    let keep = |x: EntryView| is_drive_root(x.parse_path);
    let kept = entries.filter(keep);
    if kept.contains(e) {
        let i = choose|i: int| 0 <= i < kept.len() && kept[i] == e;
        entries.lemma_filter_pred(keep, i);
        entries.lemma_filter_contains_rev(keep, e);
    }
    if entries.contains(e) && is_drive_root(e.parse_path) {
        let i = choose|i: int| 0 <= i < entries.len() && entries[i] == e;
        entries.lemma_filter_contains(keep, i);
    }
}

/// The entry of a single node, such as the network.
pub open spec fn node_entry(p: Option<ItemProps>) -> Option<EntryView> {
    match p {
        Some(p) => entry_of(p),
        None => None,
    }
}

/// The navigation pane, given the items of quick access and of This PC, and the two nodes below
/// them where they exist.
pub fn sidebar_data(
    quick_items: Vec<QuickItem>,
    has_pin_key: bool,
    pc_items: Result<Vec<ItemProps>, String>,
    network: Option<ItemProps>,
    linux: Option<ItemProps>,
) -> (r: SidebarData)
    ensures
        ({
            let this_pc = entries_or_none(props_view(pc_items));
            r@ == (SidebarView {
                quick_access: quick_part(quick_items@, has_pin_key, true) + quick_part(
                    quick_items@,
                    has_pin_key,
                    false,
                ),
                this_pc,
                drives: drives_of(this_pc),
                network: node_entry(network),
                linux: node_entry(linux),
            })
        }),
{
    let quick_access = quick_access_entries(quick_items, has_pin_key);
    let this_pc = collect_or_none(pc_items);
    let drives = collect_drives(&this_pc);
    let network = match network {
        Some(p) => entry_from_item(p),
        None => None,
    };
    let linux = match linux {
        Some(p) => entry_from_item(p),
        None => None,
    };
    SidebarData { quick_access, this_pc, drives, network, linux }
}

// ----- details -----

/// The size of a picture, where the item tells both sides of it.
pub fn image_size(width: Option<u32>, height: Option<u32>) -> (r: Option<(u32, u32)>)
    ensures
        r == (if width is Some && height is Some {
            Some((width->0, height->0))
        } else {
            None
        }),
{
    match (width, height) {
        (Some(w), Some(h)) => Some((w, h)),
        _ => None,
    }
}

/// One property of an item, with its label and its value as text, where the item has it.
pub struct DetailProp {
    pub label: Option<String>,
    pub value: Option<String>,
}

/// A line of the details pane.
pub open spec fn detail_line(p: DetailProp) -> Option<(Seq<char>, Seq<char>)> {
    let label = text::or_empty(text::opt_view(p.label));
    let value = text::or_empty(text::opt_view(p.value));
    if label.len() == 0 || text::stripped(value).len() == 0 {
        None
    } else {
        Some((label, value))
    }
}

pub open spec fn detail_lines(props: Seq<DetailProp>) -> Seq<(Seq<char>, Seq<char>)>
    decreases props.len(),
{
    if props.len() == 0 {
        Seq::empty()
    } else {
        match detail_line(props.last()) {
            Some(l) => detail_lines(props.drop_last()).push(l),
            None => detail_lines(props.drop_last()),
        }
    }
}

/// Every line of the details pane has a label and a value that is not blank.
pub proof fn law_detail_lines_say_something(props: Seq<DetailProp>, i: int)
    requires
        0 <= i < detail_lines(props).len(),
    ensures
        detail_lines(props)[i].0.len() > 0,
        text::stripped(detail_lines(props)[i].1).len() > 0,
    decreases props.len(),
{
    let head = detail_lines(props.drop_last());
    if i < head.len() {
        law_detail_lines_say_something(props.drop_last(), i);
    }
}

pub open spec fn line_views(v: Seq<(String, String)>) -> Seq<(Seq<char>, Seq<char>)> {
    v.map_values(|l: (String, String)| (l.0@, l.1@))
}

/// The lines of the details pane: the properties with a label and a value that is not blank.
pub fn item_details(props: Vec<DetailProp>) -> (r: Vec<(String, String)>)
    ensures
        line_views(r@) == detail_lines(props@),
{
    let mut out: Vec<(String, String)> = Vec::new();
    let ghost all = props@;
    assert(line_views(out@) =~= detail_lines(all.take(0)));
    for p in it: props
        invariant
            it.seq() == all,
            line_views(out@) == detail_lines(all.take(it.index())),
    {
        let ghost before = out@;
        let ghost x = p;
        assert(all.take(it.index() + 1).drop_last() =~= all.take(it.index()));
        let label = text_or_empty(p.label);
        if !label.as_str().is_empty() {
            let value = text_or_empty(p.value);
            if !trim(value.as_str()).is_empty() {
                let ghost l = (label@, value@);
                out.push((label, value));
                assert(detail_line(x) == Some(l));
                assert(line_views(out@) =~= line_views(before).push(l));
            }
        }
    }
    assert(all.take(all.len() as int) =~= all);
    out
}

// ----- laws -----

/// An item is shown exactly where it has a name to display and one to parse; these are its name and
/// its path, and its path in the file system is the one that it has there.
pub proof fn law_entry_names(p: ItemProps)
    ensures
        entry_of(p) is Some <==> (p.display_name matches Some(n) && n@.len() > 0)
            && (p.parse_name matches Some(n) && n@.len() > 0),
        entry_of(p) matches Some(e) ==> {
            &&& p.display_name matches Some(n) && e.name == n@
            &&& p.parse_name matches Some(n) && e.parse_path == n@
            &&& e.fs_path is Some <==> (p.fs_name matches Some(n) && n@.len() > 0)
            &&& e.fs_path is Some ==> e.fs_path == text::opt_view(p.fs_name)
            &&& !e.pinned
        },
{
    text::law_missing_texts(text::opt_view(p.display_name));
    text::law_missing_texts(text::opt_view(p.parse_name));
    text::law_missing_texts(text::opt_view(p.fs_name));
}

/// Each date of an entry, as a number and as text, is what the item tells of that date and of no
/// other; a date that is not told is 0 and empty.
pub proof fn law_entry_dates(p: ItemProps)
    requires
        entry_of(p) is Some,
    ensures
        ({
            let e = entry_of(p)->0;
            &&& p.created matches Some(d) ==> e.date_created == unix_ms(d.time)
                && e.date_created_text == d.text@
            &&& p.created is None ==> e.date_created == 0 && e.date_created_text.len() == 0
            &&& p.modified matches Some(d) ==> e.date_modified == unix_ms(d.time) && e.date_text
                == d.text@
            &&& p.modified is None ==> e.date_modified == 0 && e.date_text.len() == 0
        }),
{
}

/// Items that differ in nothing but one date have entries that differ in nothing but that date.
pub proof fn law_entry_dates_are_apart(p: ItemProps, d: Option<ItemDate>)
    ensures
        entry_of(p) matches Some(e) ==> (entry_of(ItemProps { modified: d, ..p }) matches Some(f) && f
            == (EntryView { date_modified: f.date_modified, date_text: f.date_text, ..e })),
        entry_of(p) matches Some(e) ==> (entry_of(ItemProps { created: d, ..p }) matches Some(f) && f
            == (EntryView {
            date_created: f.date_created,
            date_created_text: f.date_created_text,
            ..e
        })),
{
}

/// An entry is a folder exactly where the attributes say folder and not stream, and hidden exactly
/// where they say hidden; no other attribute matters.
pub proof fn law_entry_attributes(p: ItemProps)
    requires
        entry_of(p) is Some,
    ensures
        ({
            let e = entry_of(p)->0;
            &&& e.is_folder <==> p.attributes & 0x2000_0000 != 0 && p.attributes & 0x40_0000 == 0
            &&& e.sort_as_folder == e.is_folder
            &&& e.is_hidden <==> p.attributes & 0x8_0000 != 0
        }),
        is_real_folder(p.attributes) <==> p.attributes & 0x2000_0000 != 0 && p.attributes & 0x40_0000
            == 0,
{
}

/// The size of an entry is the item's; its text is shown for files that have a size only.
pub proof fn law_entry_size_and_type(p: ItemProps)
    requires
        entry_of(p) is Some,
    ensures
        ({
            let e = entry_of(p)->0;
            &&& e.size == p.size
            &&& !e.is_folder && p.size is Some ==> e.size_text == p.size_text@
            &&& e.is_folder || p.size is None ==> e.size_text.len() == 0
            &&& p.kind_name matches Some(k) ==> e.type_text == k@
            &&& p.kind_name is None ==> e.type_text.len() == 0
        }),
{
}

/// Only the root of a drive shows its capacity, and shows what the drive tells.
pub proof fn law_entry_drive(p: ItemProps)
    requires
        entry_of(p) is Some,
    ensures
        ({
            let e = entry_of(p)->0;
            let path = e.parse_path;
            let root = path.len() == 3 && (path[0] as u32) < 0x80 && path[1] == ':' && path[2] == '\\';
            &&& root && p.drive is Some ==> e.drive_total == Some(p.drive->0.total) && e.drive_free
                == Some(p.drive->0.free) && e.drive_text == p.drive->0.text@
            &&& !root || p.drive is None ==> e.drive_total is None && e.drive_free is None
                && e.drive_text.len() == 0
        }),
{
}

/// The full name of a file is what follows the last backslash of its path, and its extension what
/// follows the last dot, in lower case; an item without a path goes by its name.
pub proof fn law_entry_file_name(
    p: ItemProps,
    dir: Seq<char>,
    base: Seq<char>,
    stem: Seq<char>,
    ext: Seq<char>,
)
    requires
        entry_of(p) is Some,
    ensures
        ({
            let e = entry_of(p)->0;
            &&& e.fs_path == Some(dir + seq!['\\'] + base) && base.len() > 0 && !base.contains('\\')
                ==> e.full_name == base
            &&& e.fs_path == Some(dir + seq!['\\']) ==> e.full_name == e.name
            &&& e.fs_path is None ==> e.full_name == e.name && e.ext.len() == 0
            &&& e.fs_path == Some(stem + seq!['.'] + ext) && !ext.contains('.') ==> e.ext
                == text::lowered(ext)
        }),
{
    let e = entry_of(p)->0;
    if !base.contains('\\') {
        text::law_last_part(dir, '\\', base);
    }
    if !ext.contains('.') {
        text::law_last_part(stem, '.', ext);
    }
    if e.fs_path == Some(dir + seq!['\\']) {
        assert(dir + seq!['\\'] =~= dir + seq!['\\'] + Seq::empty());
        text::law_last_part(dir, '\\', Seq::empty());
    }
}

/// A listing has one entry for each item that is shown, in the order of the items.
pub proof fn law_listing_keeps_order(items: Seq<ItemProps>, p: ItemProps, error: Seq<char>)
    ensures
        entries_of(Seq::empty()).len() == 0,
        entry_of(p) is None ==> entries_of(items.push(p)) == entries_of(items),
        entry_of(p) matches Some(e) ==> entries_of(items.push(p)) == entries_of(items).push(e),
        listing_result(Ok(items)) == Ok::<Seq<EntryView>, Seq<char>>(entries_of(items)),
        listing_result(Err(error)) == Err::<Seq<EntryView>, Seq<char>>(error),
        entries_or_none(Ok(items)) == entries_of(items),
        entries_or_none(Err(error)).len() == 0,
{
    assert(items.push(p).drop_last() =~= items);
}

/// The way to an item is shown from the top down: each place of the chain but the desktop, in the
/// opposite order of the climb.
pub proof fn law_breadcrumb(chain: Seq<CrumbView>, i: int)
    ensures
        chain.len() > 1 && 0 <= i < chain.len() - 1 ==> crumbs_of(chain)[i] == chain[chain.len() - 2
            - i],
        chain.len() <= 1 ==> crumbs_of(chain) == chain,
{
}

proof fn lemma_letter(c: char)
    ensures
        ('A' <= c <= 'Z' || 'a' <= c <= 'z') <==> (65 <= c as u32 <= 90 || 97 <= c as u32 <= 122),
{
}

/// A path begins with a drive exactly where it begins with a letter and a colon.
pub proof fn law_drive_paths(p: Seq<char>)
    ensures
        is_drive_path(p) <==> p.len() >= 2 && p[1] == ':' && (65 <= p[0] as u32 <= 90 || 97
            <= p[0] as u32 <= 122),
        is_drive_root(p) <==> p.len() == 3 && (p[0] as u32) < 128 && p.skip(1) == seq![':', '\\'],
{
    if p.len() >= 2 {
        lemma_letter(p[0]);
    }
    if p.len() == 3 {
        assert(p.skip(1)[0] == p[1] && p.skip(1)[1] == p[2]);
        if p[1] == ':' && p[2] == '\\' {
            assert(p.skip(1) =~= seq![':', '\\']);
        }
    }
}

/// Quick access shows an item exactly where it is a folder, with all that its entry has. It is
/// pinned where the system says so, and where the system cannot say.
pub proof fn law_quick_access_item(q: QuickItem, has_pin_key: bool)
    ensures
        quick_entry(q, has_pin_key) is Some <==> (entry_of(q.props) matches Some(e) && e.is_folder),
        quick_entry(q, has_pin_key) matches Some(f) ==> {
            &&& f == (EntryView { pinned: f.pinned, ..entry_of(q.props)->0 })
            &&& !has_pin_key ==> f.pinned
            &&& has_pin_key ==> (f.pinned <==> q.pinned == Some(true))
        },
{
}

/// Each part of quick access holds its items in the order of the system, and every item that is
/// shown is in exactly one of the two.
pub proof fn law_quick_access_keeps_order(
    items: Seq<QuickItem>,
    q: QuickItem,
    has_pin_key: bool,
    pinned: bool,
)
    ensures
        quick_part(Seq::empty(), has_pin_key, pinned).len() == 0,
        quick_entry(q, has_pin_key) is None ==> quick_part(items.push(q), has_pin_key, pinned)
            == quick_part(items, has_pin_key, pinned),
        quick_entry(q, has_pin_key) matches Some(e) ==> quick_part(
            items.push(q),
            has_pin_key,
            pinned,
        ) == (if e.pinned == pinned {
            quick_part(items, has_pin_key, pinned).push(e)
        } else {
            quick_part(items, has_pin_key, pinned)
        }),
{
    assert(items.push(q).drop_last() =~= items);
}

/// The drives are the entries of This PC that are roots of drives, in their order there.
pub proof fn law_drives_keep_order(entries: Seq<EntryView>, e: EntryView)
    ensures
        drives_of(Seq::empty()).len() == 0,
        drives_of(entries.push(e)) == (if e.parse_path.len() == 3 && (e.parse_path[0] as u32) < 0x80
            && e.parse_path[1] == ':' && e.parse_path[2] == '\\' {
            drives_of(entries).push(e)
        } else {
            drives_of(entries)
        }),
        node_entry(None) is None,
        forall|p: ItemProps| node_entry(Some(p)) == #[trigger] entry_of(p),
{
    reveal(Seq::filter);
    assert(entries.push(e).drop_last() =~= entries);
}

/// The details pane has a line for each property with a label and a value that is not blank, as
/// they are and in their order.
pub proof fn law_details(props: Seq<DetailProp>, p: DetailProp)
    ensures
        detail_lines(Seq::empty()).len() == 0,
        detail_line(p) is Some <==> (p.label matches Some(l) && l@.len() > 0) && (
        p.value matches Some(v) && text::stripped(v@).len() > 0),
        detail_line(p) matches Some(l) ==> Some(l.0) == text::opt_view(p.label) && Some(l.1)
            == text::opt_view(p.value),
        detail_line(p) is None ==> detail_lines(props.push(p)) == detail_lines(props),
        detail_line(p) matches Some(l) ==> detail_lines(props.push(p)) == detail_lines(props).push(l),
{
    assert(props.push(p).drop_last() =~= props);
    assert(text::stripped(Seq::empty()) =~= Seq::empty());
}

/// Times are counted in steps of 100 nanoseconds from 1601 and shown in milliseconds from 1970,
/// which is as many steps later as 134774 days have.
pub proof fn law_unix_time(a: FileTime, b: FileTime, k: int)
    ensures
        a.high == b.high && a.low == b.low + k ==> ticks(a) == ticks(b) + k,
        a.low == b.low && a.high == b.high + 1 ==> ticks(a) == ticks(b) + 0x1_0000_0000,
        a.high == 0 && a.low == 0 ==> ticks(a) == 0,
        ticks(a) == ticks(b) + 10_000 * k ==> unix_ms(a) == unix_ms(b) + k,
        ticks(a) == 134_774 * 24 * 60 * 60 * 1000 * 10_000 ==> unix_ms(a) == 0,
{
}

/// A size in kilobytes is rounded up.
pub proof fn law_kilobytes(bytes: u64)
    ensures
        kilobytes(bytes) * 1024 >= bytes,
        bytes > 0 ==> (kilobytes(bytes) - 1) * 1024 < bytes,
        bytes == 0 ==> kilobytes(bytes) == 0,
{
}

/// The capacity of a drive is shown where it is not a network drive, could be asked and is not 0,
/// free space first.
pub proof fn law_drive_capacity(
    drive_type: u32,
    space: Option<DriveSpace>,
    free_text: Seq<char>,
    total_text: Seq<char>,
)
    ensures
        ({
            let d = drive_shown(drive_type, space, free_text, total_text);
            &&& d is Some <==> drive_type != 4 && (space matches Some(s) && s.total != 0)
            &&& d matches Some(v) ==> v.total == space->0.total && v.free == space->0.free && v.text
                == free_text + " 可用, 共 "@ + total_text
        }),
{
}

/// The columns of the front end are the properties of the storage format: name, type, size, and
/// the dates of change and creation, each by its number.
pub proof fn law_columns()
    ensures
        key_property("name"@) == Some(KeyView { fmtid: storage_format(), pid: 10 }),
        key_property("type"@) == Some(KeyView { fmtid: storage_format(), pid: 4 }),
        key_property("size"@) == Some(KeyView { fmtid: storage_format(), pid: 12 }),
        key_property("date"@) == Some(KeyView { fmtid: storage_format(), pid: 14 }),
        key_property("created"@) == Some(KeyView { fmtid: storage_format(), pid: 15 }),
        forall|key: Seq<char>| #[trigger]
            key_property(key) is Some ==> set![
                "name"@, "type"@, "size"@, "date"@, "created"@,
            ].contains(key),
        storage_format().data1 == 0xB725_F130 && storage_format().data2 == 0x47EF
            && storage_format().data3 == 0x101A,
        storage_format().data4 == seq![
            0xA5u8, 0xF1u8, 0x02u8, 0x60u8, 0x8Cu8, 0x9Eu8, 0xEBu8, 0xACu8,
        ],
{
    reveal_strlit("name");
    reveal_strlit("type");
    reveal_strlit("size");
    reveal_strlit("date");
    reveal_strlit("created");
    assert("name"@[0] == 'n' && "type"@[0] == 't' && "size"@[0] == 's' && "date"@[0] == 'd'
        && "created"@[0] == 'c');
}

} // verus!
