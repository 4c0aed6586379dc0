//! Per-folder view state, shared with Explorer: view mode, sort columns and grouping, as they are
//! kept in the shell's property bags, and the defaults of the folder templates.

use vstd::prelude::*;

use crate::guid::{self, bytes_to_guid, guid_to_bytes, guid_to_string, parse_guid, push_le32, read_le32};
use crate::shell_items::{
    self, column_to_frontend_key, fmtid_storage, frontend_key_to_pkey, ColumnView, GroupCols, KeyView,
    PropertyKey, SortColumn, PID_NAME,
};
use crate::text::{
    self, chars_of, eq_ignore_case, lower_text, split, starts_with, str_eq, strip_prefix, trim,
    trim_backslashes,
};
use crate::wide::{self, buffer_text, counted_text};

verus! {

/// The flags to open the bag of a folder for writing.
pub const SHGVSPB_FOLDER: u32 = 0x5;

/// The flags to open the bag of a folder for reading, without the defaults of other folders.
pub const SHGVSPB_FOLDERNODEFAULTS: u32 = 0x8000_0005;

pub const FT_GENERIC: &'static str = "{5C4F28B5-F869-4E84-8E60-F11DB97C5CC7}";

pub const FT_DOCUMENTS: &'static str = "{7D49D726-3C21-4F05-99AA-FDC2C9474656}";

pub const FT_PICTURES: &'static str = "{B3690E58-E961-423B-B687-386EBFD83239}";

pub const FT_MUSIC: &'static str = "{94D6DDCC-4A68-4175-A374-BD584A510B78}";

pub const FT_VIDEOS: &'static str = "{5FA96407-7E77-483C-AC93-691D05850DE8}";

pub const FT_DOWNLOADS: &'static str = "{885A186E-A440-4ADA-812B-DB871B942259}";

/// The folder templates under which Explorer keeps views.
#[derive(Clone, Copy, PartialEq, Eq, Structural)]
pub enum Template {
    Generic,
    Downloads,
    Documents,
    Pictures,
    Music,
    Videos,
}

/// The identifier of a template, as text.
pub open spec fn template_text(t: Template) -> Seq<char> {
    match t {
        Template::Generic => FT_GENERIC@,
        Template::Downloads => FT_DOWNLOADS@,
        Template::Documents => FT_DOCUMENTS@,
        Template::Pictures => FT_PICTURES@,
        Template::Music => FT_MUSIC@,
        Template::Videos => FT_VIDEOS@,
    }
}

impl Template {
    /// The identifier of the template, as text.
    pub fn id(self) -> (r: &'static str)
        ensures
            r@ == template_text(self),
    {
        match self {
            Template::Generic => FT_GENERIC,
            Template::Downloads => FT_DOWNLOADS,
            Template::Documents => FT_DOCUMENTS,
            Template::Pictures => FT_PICTURES,
            Template::Music => FT_MUSIC,
            Template::Videos => FT_VIDEOS,
        }
    }
}

// ----- view modes -----

/// How far an icon size is from a usual one.
pub open spec fn size_distance(icon: int, usual: int) -> int {
    if icon < usual {
        usual - icon
    } else {
        icon - usual
    }
}

/// Whether none of the usual icon sizes 16, 48, 96 and 256 is nearer than this one.
pub open spec fn is_nearest(icon: int, usual: int) -> bool {
    let d = size_distance(icon, usual);
    &&& d <= size_distance(icon, 16)
    &&& d <= size_distance(icon, 48)
    &&& d <= size_distance(icon, 96)
    &&& d <= size_distance(icon, 256)
}

/// The name of the icon view whose size is nearest, of two the larger.
pub open spec fn icon_view_name(icon: int) -> Seq<char> {
    if is_nearest(icon, 256) {
        "xl-icons"@
    } else if is_nearest(icon, 96) {
        "l-icons"@
    } else if is_nearest(icon, 48) {
        "m-icons"@
    } else {
        "s-icons"@
    }
}

/// The front end's name of a view mode and icon size; icons are told apart by the nearest of
/// their usual sizes.
pub open spec fn view_name(mode: u32, icon: u32) -> Seq<char> {
    if mode == 4 {
        "details"@
    } else if mode == 3 {
        "list"@
    } else if mode == 6 {
        "tiles"@
    } else if mode == 8 {
        "content"@
    } else if mode == 2 {
        "s-icons"@
    } else {
        icon_view_name(icon as int)
    }
}

/// The front end's name of a view mode and icon size; icons are told apart by the nearest of
/// their usual sizes.
pub fn mode_to_view(mode: u32, icon: u32) -> (r: &'static str)
    ensures
        r@ == view_name(mode, icon),
{
    if mode == 4 {
        "details"
    } else if mode == 3 {
        "list"
    } else if mode == 6 {
        "tiles"
    } else if mode == 8 {
        "content"
    } else if mode == 2 {
        "s-icons"
    } else if icon >= 176 {
        "xl-icons"
    } else if icon >= 72 {
        "l-icons"
    } else if icon >= 32 {
        "m-icons"
    } else {
        "s-icons"
    }
}

/// The mode, logical mode and icon size that stand for a view of the front end.
pub open spec fn view_values(view: Seq<char>) -> Option<(u32, u32, u32)> {
    if view == "xl-icons"@ {
        Some((1, 3, 256))
    } else if view == "l-icons"@ {
        Some((1, 3, 96))
    } else if view == "m-icons"@ {
        Some((1, 3, 48))
    } else if view == "s-icons"@ {
        Some((1, 3, 16))
    } else if view == "list"@ {
        Some((3, 4, 16))
    } else if view == "details"@ {
        Some((4, 1, 16))
    } else if view == "tiles"@ {
        Some((6, 2, 48))
    } else if view == "content"@ {
        Some((8, 5, 32))
    } else {
        None
    }
}

/// The mode, logical mode and icon size that stand for a view of the front end.
pub fn view_to_bag(view: &str) -> (r: Option<(u32, u32, u32)>)
    ensures
        r == view_values(view@),
{
    if str_eq(view, "xl-icons") {
        Some((1, 3, 256))
    } else if str_eq(view, "l-icons") {
        Some((1, 3, 96))
    } else if str_eq(view, "m-icons") {
        Some((1, 3, 48))
    } else if str_eq(view, "s-icons") {
        Some((1, 3, 16))
    } else if str_eq(view, "list") {
        Some((3, 4, 16))
    } else if str_eq(view, "details") {
        Some((4, 1, 16))
    } else if str_eq(view, "tiles") {
        Some((6, 2, 48))
    } else if str_eq(view, "content") {
        Some((8, 5, 32))
    } else {
        None
    }
}

/// A view that is written to a bag is read back as that view.
pub proof fn law_view_reads_back(view: Seq<char>)
    requires
        view_values(view) is Some,
    ensures
        view_values(view) matches Some(v) && view_name(v.0, v.2) == view,
{
}

/// An icon size is read as the view whose own size is nearest to it.
pub proof fn law_icon_size_is_nearest(mode: u32, icon: u32)
    requires
        mode != 2 && mode != 3 && mode != 4 && mode != 6 && mode != 8,
    ensures
        view_values(view_name(mode, icon)) matches Some(v) && v.0 == 1 && is_nearest(
            icon as int,
            v.2 as int,
        ),
{
    reveal_strlit("xl-icons");
    reveal_strlit("l-icons");
    reveal_strlit("m-icons");
    reveal_strlit("s-icons");
    assert("xl-icons"@[0] == 'x' && "l-icons"@[0] == 'l' && "m-icons"@[0] == 'm'
        && "s-icons"@[0] == 's');
}

/// Every view that can be read can also be written.
pub proof fn law_every_view_is_writable(mode: u32, icon: u32)
    ensures
        view_values(view_name(mode, icon)) is Some,
{
}

// ----- templates -----

/// The name under which the bag of a template is kept.
pub fn bag_name(t: Template) -> (r: String)
    ensures
        r@ == "Shell\\"@ + template_text(t),
{
    let mut s = String::new();
    s.append("Shell\\");
    s.append(t.id());
    assert(s@ =~= "Shell\\"@ + template_text(t));
    s
}

/// The desktop.ini of a folder; none of a folder that is not in the file system.
pub fn desktop_ini_path(path: &str) -> (r: Option<String>)
    ensures
        text::opt_view(r) == (if text::begins(path@, "::"@) {
            None
        } else {
            Some(text::trimmed(path@) + "\\desktop.ini"@)
        }),
{
    if starts_with(path, "::") {
        return None;
    }
    let mut s = String::new();
    s.append(trim_backslashes(path));
    s.append("\\desktop.ini");
    assert(s@ =~= text::trimmed(path@) + "\\desktop.ini"@);
    Some(s)
}

/// The folder type in a buffer of `len` units; none where nothing was read.
pub fn desktop_ini_folder_type(buf: &[u16], len: usize) -> (r: Option<String>)
    requires
        len <= buf@.len(),
    ensures
        text::opt_view(r) == (if len == 0 {
            None
        } else {
            Some(wide::decoded(buf@.take(len as int)))
        }),
{
    if len == 0 {
        None
    } else {
        Some(counted_text(buf, len))
    }
}

/// The template that a folder type in a desktop.ini stands for.
pub open spec fn type_template(folder_type: Seq<char>) -> Template {
    let t = text::lowered(folder_type);
    if t == "documents"@ {
        Template::Documents
    } else if t == "pictures"@ {
        Template::Pictures
    } else if t == "music"@ {
        Template::Music
    } else if t == "videos"@ {
        Template::Videos
    } else if t == "downloads"@ {
        Template::Downloads
    } else {
        Template::Generic
    }
}

fn folder_type_template(folder_type: &str) -> (r: Template)
    ensures
        r == type_template(folder_type@),
{
    let t = lower_text(folder_type);
    if str_eq(t.as_str(), "documents") {
        Template::Documents
    } else if str_eq(t.as_str(), "pictures") {
        Template::Pictures
    } else if str_eq(t.as_str(), "music") {
        Template::Music
    } else if str_eq(t.as_str(), "videos") {
        Template::Videos
    } else if str_eq(t.as_str(), "downloads") {
        Template::Downloads
    } else {
        Template::Generic
    }
}

/// The places of the folders that have a template of their own, where the system knows them.
pub struct KnownFolders {
    pub downloads: Option<String>,
    pub documents: Option<String>,
    pub pictures: Option<String>,
    pub music: Option<String>,
    pub videos: Option<String>,
}

/// Whether `path` is the known folder `known`, up to case and backslashes at the end.
pub open spec fn is_folder_at(known: Option<String>, path: Seq<char>) -> bool {
    known matches Some(p) && text::same_ci(text::trimmed(p@), text::trimmed(path))
}

fn folder_at(known: &Option<String>, path: &str) -> (r: bool)
    ensures
        r == is_folder_at(*known, path@),
{
    match known {
        Some(p) => eq_ignore_case(trim_backslashes(p.as_str()), trim_backslashes(path)),
        None => false,
    }
}

/// The template that Explorer uses for a folder: that of a known folder first, then the type in
/// its desktop.ini.
pub open spec fn template_of(
    path: Seq<char>,
    known: KnownFolders,
    folder_type: Option<Seq<char>>,
) -> Template {
    if is_folder_at(known.downloads, path) {
        Template::Downloads
    } else if is_folder_at(known.documents, path) {
        Template::Documents
    } else if is_folder_at(known.pictures, path) {
        Template::Pictures
    } else if is_folder_at(known.music, path) {
        Template::Music
    } else if is_folder_at(known.videos, path) {
        Template::Videos
    } else {
        match folder_type {
            Some(t) => type_template(t),
            None => Template::Generic,
        }
    }
}

/// The template that Explorer uses for a folder.
pub fn primary_template(path: &str, known: &KnownFolders, folder_type: &Option<String>) -> (r:
    Template)
    ensures
        r == template_of(path@, *known, text::opt_view(*folder_type)),
{
    if folder_at(&known.downloads, path) {
        Template::Downloads
    } else if folder_at(&known.documents, path) {
        Template::Documents
    } else if folder_at(&known.pictures, path) {
        Template::Pictures
    } else if folder_at(&known.music, path) {
        Template::Music
    } else if folder_at(&known.videos, path) {
        Template::Videos
    } else {
        match folder_type {
            Some(t) => folder_type_template(t.as_str()),
            None => Template::Generic,
        }
    }
}

/// All templates, in the order in which they are tried.
pub open spec fn all_templates() -> Seq<Template> {
    seq![
        Template::Generic,
        Template::Downloads,
        Template::Documents,
        Template::Pictures,
        Template::Music,
        Template::Videos,
    ]
}

/// Which templates are not `primary`.
pub open spec fn other_than(primary: Template) -> spec_fn(Template) -> bool {
    |t: Template| t != primary
}

/// The templates to try for a folder: its own first, then the others in their order.
pub open spec fn candidates(primary: Template) -> Seq<Template> {
    seq![primary] + all_templates().filter(other_than(primary))
}

/// The templates to try for a folder: Explorer may have chosen another than its own by what the
/// folder holds.
pub fn candidate_templates(primary: Template) -> (r: Vec<Template>)
    ensures
        r@ == candidates(primary),
{
    let all: [Template; 6] = [
        Template::Generic,
        Template::Downloads,
        Template::Documents,
        Template::Pictures,
        Template::Music,
        Template::Videos,
    ];
    assert(all@ =~= all_templates());
    let mut list: Vec<Template> = Vec::new();
    list.push(primary);
    let ghost others = other_than(primary);
    assert(list@ =~= seq![primary] + all@.take(0).filter(others)) by {
        reveal(Seq::filter);
    }
    let mut i: usize = 0;
    while i < 6
        invariant
            i <= 6,
            others == other_than(primary),
            list@ == seq![primary] + all@.take(i as int).filter(others),
        decreases 6 - i,
    {
        let ghost before = list@;
        proof {
            reveal(Seq::filter);
            assert(all@.take(i + 1).drop_last() =~= all@.take(i as int));
        }
        if all[i] != primary {
            list.push(all[i]);
            assert(list@ =~= seq![primary] + all@.take(i + 1).filter(others));
        }
        i += 1;
    }
    assert(all@.take(6) =~= all@);
    list
}

/// Every template is tried exactly once, the folder's own first.
pub proof fn law_candidates_cover_templates(primary: Template)
    ensures
        candidates(primary).len() == 6,
        candidates(primary)[0] == primary,
        candidates(primary).no_duplicates(),
        forall|t: Template| candidates(primary).contains(t),
{
    reveal(Seq::filter);
    let a = all_templates();
    reveal_with_fuel(Seq::filter, 8);
    assert(a.drop_last() =~= seq![
        Template::Generic,
        Template::Downloads,
        Template::Documents,
        Template::Pictures,
        Template::Music,
    ]);
    assert(a.drop_last().drop_last() =~= seq![
        Template::Generic,
        Template::Downloads,
        Template::Documents,
        Template::Pictures,
    ]);
    assert(a.drop_last().drop_last().drop_last() =~= seq![
        Template::Generic,
        Template::Downloads,
        Template::Documents,
    ]);
    assert(a.drop_last().drop_last().drop_last().drop_last() =~= seq![
        Template::Generic,
        Template::Downloads,
    ]);
    assert(a.drop_last().drop_last().drop_last().drop_last().drop_last() =~= seq![
        Template::Generic,
    ]);
    assert(a.drop_last().drop_last().drop_last().drop_last().drop_last().drop_last() =~= seq![]);
    let c = candidates(primary);
    assert(c.len() == 6);
    assert forall|t: Template| c.contains(t) by {
        assert(c[0] == t || c[1] == t || c[2] == t || c[3] == t || c[4] == t || c[5] == t);
    }
}

// ----- what a bag holds -----

pub const VT_I4: u16 = 3;

pub const VT_BSTR: u16 = 8;

pub const VT_UNKNOWN: u16 = 13;

pub const VT_UI4: u16 = 19;

/// A byte array: VT_ARRAY with VT_UI1.
pub const VT_BYTES: u16 = 0x2011;

/// An unsigned number out of a variant, where it holds one.
pub fn variant_u32(vt: u16, value: u32) -> (r: Option<u32>)
    ensures
        r == (if vt == VT_UI4 || vt == VT_I4 {
            Some(value)
        } else {
            None
        }),
{
    if vt == VT_UI4 || vt == VT_I4 {
        Some(value)
    } else {
        None
    }
}

/// A signed number out of a variant, where it holds one.
pub fn variant_i32(vt: u16, value: i32) -> (r: Option<i32>)
    ensures
        r == (if vt == VT_I4 || vt == VT_UI4 {
            Some(value)
        } else {
            None
        }),
{
    if vt == VT_I4 || vt == VT_UI4 {
        Some(value)
    } else {
        None
    }
}

/// How a variant holds a binary value.
#[derive(Clone, Copy, PartialEq, Eq, Structural)]
pub enum BinaryKind {
    Stream,
    Array,
    Other,
}

/// How a variant holds a binary value: the bags give a stream, other sources an array.
pub fn binary_kind(vt: u16) -> (r: BinaryKind)
    ensures
        r == (if vt == VT_UNKNOWN {
            BinaryKind::Stream
        } else if vt == VT_BYTES {
            BinaryKind::Array
        } else {
            BinaryKind::Other
        }),
{
    if vt == VT_UNKNOWN {
        BinaryKind::Stream
    } else if vt == VT_BYTES {
        BinaryKind::Array
    } else {
        BinaryKind::Other
    }
}

/// Appends the part of a chunk that a read has filled; false where the stream is at its end.
pub fn take_chunk(data: &mut Vec<u8>, chunk: &[u8], read_ok: bool, got: usize) -> (r: bool)
    requires
        got <= chunk@.len(),
    ensures
        r == (read_ok && got > 0),
        final(data)@ == (if r {
            old(data)@ + chunk@.take(got as int)
        } else {
            old(data)@
        }),
{
    if !read_ok || got == 0 {
        return false;
    }
    let ghost before = data@;
    let mut i: usize = 0;
    while i < got
        invariant
            i <= got <= chunk@.len(),
            data@ =~= before + chunk@.take(i as int),
        decreases got - i,
    {
        data.push(chunk[i]);
        i += 1;
    }
    true
}

/// The bytes read from a stream; none where it is empty.
pub fn stream_value(data: Vec<u8>) -> (r: Option<Vec<u8>>)
    ensures
        r == (if data@.len() == 0 {
            None
        } else {
            Some(data)
        }),
{
    if data.is_empty() {
        None
    } else {
        Some(data)
    }
}

/// The number of elements of an array with the given bounds.
pub fn array_len(lower: i32, upper: i32) -> (r: u64)
    ensures
        r == (if upper >= lower {
            upper - lower + 1
        } else {
            0
        }),
{
    if upper >= lower {
        (upper as i64 - lower as i64 + 1) as u64
    } else {
        0
    }
}

/// A value that is written to a bag.
pub enum BagValue {
    U32(u32),
    I32(i32),
    Text(String),
    Bytes(Vec<u8>),
}

pub enum BagValueView {
    U32(u32),
    I32(i32),
    Text(Seq<char>),
    Bytes(Seq<u8>),
}

impl View for BagValue {
    type V = BagValueView;

    open spec fn view(&self) -> BagValueView {
        match self {
            BagValue::U32(x) => BagValueView::U32(*x),
            BagValue::I32(x) => BagValueView::I32(*x),
            BagValue::Text(s) => BagValueView::Text(s@),
            BagValue::Bytes(b) => BagValueView::Bytes(b@),
        }
    }
}

/// A named value that is written to a bag.
pub struct BagWrite {
    pub name: &'static str,
    pub value: BagValue,
}

#[verifier::ext_equal]
pub struct WriteView {
    pub name: Seq<char>,
    pub value: BagValueView,
}

impl View for BagWrite {
    type V = WriteView;

    open spec fn view(&self) -> WriteView {
        WriteView { name: self.name@, value: self.value@ }
    }
}

pub open spec fn write_views(v: Seq<BagWrite>) -> Seq<WriteView> {
    v.map_values(|w: BagWrite| w@)
}

/// What to write, in order, until a write fails, and to the bag of which template.
pub struct BagPlan {
    pub template: Template,
    pub writes: Vec<BagWrite>,
}

#[verifier::ext_equal]
pub struct PlanView {
    pub template: Template,
    pub writes: Seq<WriteView>,
}

impl View for BagPlan {
    type V = PlanView;

    open spec fn view(&self) -> PlanView {
        PlanView { template: self.template, writes: write_views(self.writes@) }
    }
}

pub open spec fn opt_plan(p: Option<BagPlan>) -> Option<PlanView> {
    match p {
        Some(p) => Some(p@),
        None => None,
    }
}

/// The position of the first true; the length where there is none.
pub open spec fn first_true(flags: Seq<bool>) -> int
    decreases flags.len(),
{
    if flags.len() == 0 || flags[0] {
        0
    } else {
        1 + first_true(flags.drop_first())
    }
}

proof fn lemma_first_true_is(flags: Seq<bool>, k: int)
    requires
        0 <= k <= flags.len(),
        k < flags.len() ==> flags[k],
        forall|i: int| 0 <= i < k ==> !flags[i],
    ensures
        first_true(flags) == k,
    decreases flags.len(),
{
    if flags.len() > 0 && !flags[0] {
        let d = flags.drop_first();
        assert forall|i: int| 0 <= i < k - 1 implies !d[i] by {
            assert(d[i] == flags[i + 1]);
        }
        lemma_first_true_is(d, k - 1);
    }
}

/// The template to write to: the first candidate that Explorer has written to, so that both agree,
/// else the folder's own. `recorded` tells of the candidates, in order, which have been written.
pub open spec fn target_of(primary: Template, recorded: Seq<bool>) -> Template {
    let k = first_true(recorded);
    if k < recorded.len() && k < candidates(primary).len() {
        candidates(primary)[k]
    } else {
        primary
    }
}

/// The template to write to, given which of the candidates have been written.
pub fn pick_target_template(primary: Template, recorded: &[bool]) -> (r: Template)
    ensures
        r == target_of(primary, recorded@),
{
    let list = candidate_templates(primary);
    let mut i: usize = 0;
    while i < recorded.len() && !recorded[i]
        invariant
            i <= recorded.len(),
            forall|j: int| 0 <= j < i ==> !recorded@[j],
        decreases recorded.len() - i,
    {
        i += 1;
    }
    proof {
        lemma_first_true_is(recorded@, i as int);
    }
    if i < recorded.len() && i < list.len() {
        list[i]
    } else {
        primary
    }
}

/// Whether Explorer has written the bag of a template: a view mode or sort columns are in it.
pub fn bag_is_recorded(mode: Option<u32>, has_sort: bool) -> (r: bool)
    ensures
        r == (mode is Some || has_sort),
{
    mode.is_some() || has_sort
}

// ----- view mode of a folder -----

/// The view state in one bag; both are missing where the bag cannot be opened.
#[derive(Clone, Copy)]
pub struct BagView {
    pub mode: Option<u32>,
    pub icon: Option<u32>,
}

/// The view that a bag records.
pub open spec fn recorded_view(b: BagView) -> Option<Seq<char>> {
    match b.mode {
        Some(mode) => Some(
            view_name(
                mode,
                match b.icon {
                    Some(icon) => icon,
                    None => 16,
                },
            ),
        ),
        None => None,
    }
}

/// The view that a bag records.
pub fn bag_view(b: &BagView) -> (r: Option<&'static str>)
    ensures
        shell_items::opt_str(r) == recorded_view(*b),
{
    match b.mode {
        Some(mode) => {
            let icon: u32 = match b.icon {
                Some(icon) => icon,
                None => 16,
            };
            Some(mode_to_view(mode, icon))
        },
        None => None,
    }
}

/// The view that the first bag with one records.
pub open spec fn first_view(bags: Seq<BagView>) -> Option<Seq<char>>
    decreases bags.len(),
{
    if bags.len() == 0 {
        None
    } else if recorded_view(bags[0]) is Some {
        recorded_view(bags[0])
    } else {
        first_view(bags.drop_first())
    }
}

/// The view mode that is saved for a folder, given its bags in the order of the candidates; none
/// where no bag records one.
pub fn view_mode_for(bags: &[BagView]) -> (r: Option<String>)
    ensures
        text::opt_view(r) == first_view(bags@),
{
    let mut i: usize = 0;
    assert(bags@.skip(0) =~= bags@);
    while i < bags.len()
        invariant
            i <= bags.len(),
            first_view(bags@) == first_view(bags@.skip(i as int)),
        decreases bags.len() - i,
    {
        if let Some(view) = bag_view(&bags[i]) {
            return Some(view.to_owned());
        }
        assert(bags@.skip(i as int).drop_first() =~= bags@.skip(i + 1));
        i += 1;
    }
    None
}

pub open spec fn view_writes(v: (u32, u32, u32)) -> Seq<WriteView> {
    seq![
        WriteView { name: "Mode"@, value: BagValueView::U32(v.0) },
        WriteView { name: "LogicalViewMode"@, value: BagValueView::U32(v.1) },
        WriteView { name: "IconSize"@, value: BagValueView::U32(v.2) },
    ]
}

/// How the view of a folder is saved, so that Explorer uses it too; none for a view that there is
/// not. `recorded` tells which candidates have a view mode.
pub fn save_view_mode(view: &str, primary: Template, recorded: &[bool]) -> (r: Option<BagPlan>)
    ensures
        opt_plan(r) == (match view_values(view@) {
            Some(v) => Some(
                PlanView { template: target_of(primary, recorded@), writes: view_writes(v) },
            ),
            None => None,
        }),
{
    let v = match view_to_bag(view) {
        Some(v) => v,
        None => return None,
    };
    let mut writes: Vec<BagWrite> = Vec::new();
    writes.push(BagWrite { name: "Mode", value: BagValue::U32(v.0) });
    writes.push(BagWrite { name: "LogicalViewMode", value: BagValue::U32(v.1) });
    writes.push(BagWrite { name: "IconSize", value: BagValue::U32(v.2) });
    assert(write_views(writes@) =~= view_writes(v));
    let template = pick_target_template(primary, recorded);
    Some(BagPlan { template, writes })
}

proof fn lemma_first_view_is(bags: Seq<BagView>, k: int)
    requires
        0 <= k < bags.len(),
        bags[k].mode is Some,
        forall|i: int| 0 <= i < k ==> (#[trigger] bags[i]).mode is None,
    ensures
        first_view(bags) == recorded_view(bags[k]),
    decreases k,
{
    if k > 0 {
        assert(bags[0].mode is None);
        let d = bags.drop_first();
        assert forall|i: int| 0 <= i < k - 1 implies (#[trigger] d[i]).mode is None by {
            assert(d[i] == bags[i + 1]);
        }
        lemma_first_view_is(d, k - 1);
    }
}

// ----- sort columns -----

/// The direction of a column, as it is kept.
pub open spec fn direction(ascending: bool) -> u32 {
    if ascending {
        1
    } else {
        0xFFFF_FFFF
    }
}

/// The 24 bytes of a sort column: its property and its direction.
pub open spec fn column_bytes(c: ColumnView) -> Seq<u8> {
    guid::guid_bytes(c.fmtid) + guid::le32(c.pid) + guid::le32(direction(c.ascending))
}

/// The bytes of sort columns, one after the other.
pub open spec fn columns_bytes(cols: Seq<ColumnView>) -> Seq<u8>
    decreases cols.len(),
{
    if cols.len() == 0 {
        Seq::empty()
    } else {
        columns_bytes(cols.drop_last()) + column_bytes(cols.last())
    }
}

/// What is kept of sort columns: their number, cut to four bytes, then each of them.
pub open spec fn sort_bytes(cols: Seq<ColumnView>) -> Seq<u8> {
    guid::le32(cols.len() as u32) + columns_bytes(cols)
}

/// The sort column in 24 bytes from position `i`.
pub open spec fn column_at(b: Seq<u8>, i: int) -> ColumnView {
    ColumnView {
        fmtid: guid::guid_at(b, i),
        pid: guid::le32_at(b, i + 16),
        ascending: guid::le32_at(b, i + 20) == 1,
    }
}

/// The `count` sort columns from position `start`.
pub open spec fn columns_at(b: Seq<u8>, start: int, count: nat) -> Seq<ColumnView> {
    Seq::new(count, |k: int| column_at(b, start + 24 * k))
}

/// Whether the number of columns stands at `at`, at least one of them follows, and nothing else.
pub open spec fn has_layout(b: Seq<u8>, at: int) -> bool {
    &&& b.len() >= at + 4
    &&& guid::le32_at(b, at) > 0
    &&& at + 4 + 24 * guid::le32_at(b, at) == b.len()
}

/// The sort columns in bytes, as a stream holds them or, behind 16 more bytes, the registry.
pub open spec fn parsed_sort(b: Seq<u8>) -> Option<Seq<ColumnView>> {
    if has_layout(b, 0) {
        Some(columns_at(b, 4, guid::le32_at(b, 0) as nat))
    } else if has_layout(b, 16) {
        Some(columns_at(b, 20, guid::le32_at(b, 16) as nat))
    } else {
        None
    }
}

pub open spec fn opt_columns(c: Option<Vec<SortColumn>>) -> Option<Seq<ColumnView>> {
    match c {
        Some(v) => Some(shell_items::column_views(v@)),
        None => None,
    }
}

fn layout_fits(b: &[u8], at: usize) -> (r: bool)
    requires
        at <= 16,
    ensures
        r == has_layout(b@, at as int),
{
    if b.len() < at + 4 {
        return false;
    }
    let count: u64 = read_le32(b, at) as u64;
    count > 0 && at as u64 + 4 + count * 24 == b.len() as u64
}

fn read_cols(b: &[u8], start: usize, count: usize) -> (r: Vec<SortColumn>)
    requires
        start + 24 * count <= b@.len(),
    ensures
        shell_items::column_views(r@) == columns_at(b@, start as int, count as nat),
{
    let mut cols: Vec<SortColumn> = Vec::new();
    let mut off: usize = start;
    let len = b.len();
    let mut k: usize = 0;
    while k < count
        invariant
            k <= count,
            k == cols.len(),
            len == b@.len(),
            off == start + 24 * k,
            start + 24 * count <= len,
            shell_items::column_views(cols@) =~= columns_at(b@, start as int, k as nat),
        decreases count - k,
    {
        let ghost before = cols@;
        let fmtid = bytes_to_guid(b, off);
        let pid = read_le32(b, off + 16);
        let dir = read_le32(b, off + 20);
        cols.push(SortColumn { fmtid, pid, ascending: dir == 1 });
        assert(cols@.last()@ =~= column_at(b@, start + 24 * k));
        assert(shell_items::column_views(cols@) =~= shell_items::column_views(before).push(
            column_at(b@, start + 24 * k),
        ));
        off += 24;
        k += 1;
    }
    cols
}

/// Reads sort columns out of their bytes.
pub fn parse_sort_bytes(b: &[u8]) -> (r: Option<Vec<SortColumn>>)
    ensures
        opt_columns(r) == parsed_sort(b@),
{
    if layout_fits(b, 0) {
        let count = read_le32(b, 0);
        Some(read_cols(b, 4, count as usize))
    } else if layout_fits(b, 16) {
        let count = read_le32(b, 16);
        Some(read_cols(b, 20, count as usize))
    } else {
        None
    }
}

/// The bytes of sort columns, as a stream holds them.
pub fn build_sort_bytes(cols: &[SortColumn]) -> (r: Vec<u8>)
    ensures
        r@ == sort_bytes(shell_items::column_views(cols@)),
{
    let mut v: Vec<u8> = Vec::new();
    push_le32(&mut v, cols.len() as u32);
    let ghost views = shell_items::column_views(cols@);
    let ghost head = guid::le32(cols@.len() as u32);
    let mut k: usize = 0;
    assert(v@ =~= head + columns_bytes(views.take(0)));
    while k < cols.len()
        invariant
            k <= cols.len(),
            views == shell_items::column_views(cols@),
            v@ == head + columns_bytes(views.take(k as int)),
        decreases cols.len() - k,
    {
        let ghost before = v@;
        let c = cols[k];
        let id = guid_to_bytes(&c.fmtid);
        let mut i: usize = 0;
        while i < 16
            invariant
                i <= 16,
                id@.len() == 16,
                v@ =~= before + id@.take(i as int),
            decreases 16 - i,
        {
            v.push(id[i]);
            i += 1;
        }
        push_le32(&mut v, c.pid);
        push_le32(
            &mut v,
            if c.ascending {
                1
            } else {
                0xFFFF_FFFF
            },
        );
        proof {
            assert(id@.take(16) =~= id@);
            assert(views[k as int] == c@);
            assert(views.take(k + 1).drop_last() =~= views.take(k as int));
            assert(views.take(k + 1).last() == c@);
            assert(v@ =~= before + column_bytes(c@));
            assert(v@ =~= head + columns_bytes(views.take(k + 1)));
        }
        k += 1;
    }
    assert(views.take(views.len() as int) =~= views);
    v
}

proof fn lemma_le32_back(x: u32, b: Seq<u8>, i: int)
    requires
        0 <= i,
        i + 4 <= b.len(),
        b.subrange(i, i + 4) == guid::le32(x),
    ensures
        guid::le32_at(b, i) == x,
{
    let s = b.subrange(i, i + 4);
    assert(b[i] == s[0]);
    assert(b[i + 1] == s[1]);
    assert(b[i + 2] == s[2]);
    assert(b[i + 3] == s[3]);
}

proof fn lemma_columns_len(cols: Seq<ColumnView>)
    requires
        forall|k: int| 0 <= k < cols.len() ==> (#[trigger] cols[k]).fmtid.data4.len() == 8,
    ensures
        columns_bytes(cols).len() == 24 * cols.len(),
    decreases cols.len(),
{
    if cols.len() > 0 {
        let d = cols.drop_last();
        assert forall|k: int| 0 <= k < d.len() implies (#[trigger] d[k]).fmtid.data4.len() == 8 by {
            assert(d[k] == cols[k]);
        }
        lemma_columns_len(d);
        assert(cols.last() == cols[cols.len() - 1]);
    }
}

proof fn lemma_column_place(cols: Seq<ColumnView>, k: int)
    requires
        forall|i: int| 0 <= i < cols.len() ==> (#[trigger] cols[i]).fmtid.data4.len() == 8,
        0 <= k < cols.len(),
    ensures
        columns_bytes(cols).len() == 24 * cols.len(),
        columns_bytes(cols).subrange(24 * k, 24 * k + 24) == column_bytes(cols[k]),
    decreases cols.len(),
{
    lemma_columns_len(cols);
    let d = cols.drop_last();
    assert forall|i: int| 0 <= i < d.len() implies (#[trigger] d[i]).fmtid.data4.len() == 8 by {
        assert(d[i] == cols[i]);
    }
    lemma_columns_len(d);
    let all = columns_bytes(cols);
    assert(all == columns_bytes(d) + column_bytes(cols.last()));
    if k < d.len() {
        lemma_column_place(d, k);
        assert(all.subrange(24 * k, 24 * k + 24) =~= columns_bytes(d).subrange(24 * k, 24 * k + 24));
    } else {
        assert(all.subrange(24 * k, 24 * k + 24) =~= column_bytes(cols.last()));
    }
}

proof fn lemma_column_reads_back(b: Seq<u8>, i: int, c: ColumnView)
    requires
        c.fmtid.data4.len() == 8,
        0 <= i,
        i + 24 <= b.len(),
        b.subrange(i, i + 24) == column_bytes(c),
    ensures
        column_at(b, i) == c,
{
    let part = column_bytes(c);
    let id = guid::guid_bytes(c.fmtid);
    assert(id.len() == 16);
    assert(part.len() == 24);
    assert(b.subrange(i, i + 16) =~= b.subrange(i, i + 24).subrange(0, 16));
    assert(part.subrange(0, 16) =~= id);
    guid::law_bytes_give_guid_back(c.fmtid, b, i);
    assert(b.subrange(i + 16, i + 20) =~= b.subrange(i, i + 24).subrange(16, 20));
    assert(part.subrange(16, 20) =~= guid::le32(c.pid));
    lemma_le32_back(c.pid, b, i + 16);
    assert(b.subrange(i + 20, i + 24) =~= b.subrange(i, i + 24).subrange(20, 24));
    assert(part.subrange(20, 24) =~= guid::le32(direction(c.ascending)));
    lemma_le32_back(direction(c.ascending), b, i + 20);
}

proof fn lemma_columns_read_back(head: Seq<u8>, cols: Seq<ColumnView>)
    requires
        forall|k: int| 0 <= k < cols.len() ==> (#[trigger] cols[k]).fmtid.data4.len() == 8,
    ensures
        columns_at(head + columns_bytes(cols), head.len() as int, cols.len()) == cols,
        columns_bytes(cols).len() == 24 * cols.len(),
{
    lemma_columns_len(cols);
    let tail = columns_bytes(cols);
    let b = head + tail;
    let n = head.len() as int;
    assert forall|k: int| 0 <= k < cols.len() implies column_at(b, n + 24 * k) == cols[k] by {
        lemma_column_place(cols, k);
        let i = n + 24 * k;
        assert(b.subrange(i, i + 24) =~= tail.subrange(24 * k, 24 * k + 24));
        lemma_column_reads_back(b, i, cols[k]);
    }
    assert(columns_at(b, n, cols.len()) =~= cols);
}

/// The bytes that are written for sort columns are read back as those columns.
pub proof fn law_sort_reads_back(cols: Seq<ColumnView>)
    requires
        0 < cols.len() <= u32::MAX,
        forall|k: int| 0 <= k < cols.len() ==> (#[trigger] cols[k]).fmtid.data4.len() == 8,
    ensures
        parsed_sort(sort_bytes(cols)) == Some(cols),
{
    let n = cols.len() as u32;
    let head = guid::le32(n);
    lemma_columns_read_back(head, cols);
    let b = sort_bytes(cols);
    assert(b.subrange(0, 4) =~= head);
    lemma_le32_back(n, b, 0);
}

/// So they are behind the 16 zero bytes that the registry keeps in front of a stream.
pub proof fn law_sort_reads_back_from_registry(cols: Seq<ColumnView>)
    requires
        0 < cols.len() <= u32::MAX,
        forall|k: int| 0 <= k < cols.len() ==> (#[trigger] cols[k]).fmtid.data4.len() == 8,
    ensures
        parsed_sort(Seq::new(16, |i: int| 0u8) + sort_bytes(cols)) == Some(cols),
{
    let n = cols.len() as u32;
    let zeros = Seq::new(16, |i: int| 0u8);
    let head = zeros + guid::le32(n);
    lemma_columns_read_back(head, cols);
    let b = zeros + sort_bytes(cols);
    assert(b =~= head + columns_bytes(cols));
    assert(b[0] == 0 && b[1] == 0 && b[2] == 0 && b[3] == 0);
    assert(guid::le32_at(b, 0) == 0);
    assert(b.subrange(16, 20) =~= guid::le32(n));
    lemma_le32_back(n, b, 16);
}

/// What is read as sort columns is never empty.
pub proof fn law_parsed_sort_has_columns(b: Seq<u8>)
    ensures
        parsed_sort(b) matches Some(cols) ==> cols.len() > 0,
{
}

// ----- grouping -----

/// What a bag records of the grouping.
pub struct GroupRecord {
    pub view: Option<u32>,
    pub fmtid: Option<String>,
    pub pid: Option<u32>,
    pub direction: Option<i32>,
}

#[verifier::ext_equal]
pub struct GroupRecordView {
    pub view: Option<u32>,
    pub fmtid: Option<Seq<char>>,
    pub pid: Option<u32>,
    pub direction: Option<i32>,
}

impl View for GroupRecord {
    type V = GroupRecordView;

    open spec fn view(&self) -> GroupRecordView {
        GroupRecordView {
            view: self.view,
            fmtid: text::opt_view(self.fmtid),
            pid: self.pid,
            direction: self.direction,
        }
    }
}

/// The grouping that is recorded. There are three states: nothing is recorded; it is recorded that
/// nothing is grouped, or by what cannot be read; a column to group by is recorded.
pub open spec fn recorded_group(rec: GroupRecordView) -> Option<Option<ColumnView>> {
    match rec.view {
        None => None,
        Some(view) => if view == 0 {
            Some(None)
        } else {
            Some(
                match (rec.fmtid, rec.pid) {
                    (Some(fmtid), Some(pid)) => match guid::parsed_guid(fmtid) {
                        Some(fmtid) => Some(
                            ColumnView {
                                fmtid,
                                pid,
                                ascending: match rec.direction {
                                    Some(d) => d >= 0,
                                    None => true,
                                },
                            },
                        ),
                        None => None,
                    },
                    _ => None,
                },
            )
        },
    }
}

pub open spec fn opt_opt_group(g: Option<Option<GroupCols>>) -> Option<Option<ColumnView>> {
    match g {
        Some(g) => Some(shell_items::opt_group(g)),
        None => None,
    }
}

/// The grouping that a bag records.
pub fn read_group(rec: &GroupRecord) -> (r: Option<Option<GroupCols>>)
    ensures
        opt_opt_group(r) == recorded_group(rec@),
{
    let view = match rec.view {
        Some(view) => view,
        None => return None,
    };
    if view == 0 {
        return Some(None);
    }
    let fmtid = match &rec.fmtid {
        Some(s) => match parse_guid(s.as_str()) {
            Some(g) => g,
            None => return Some(None),
        },
        None => return Some(None),
    };
    let pid = match rec.pid {
        Some(pid) => pid,
        None => return Some(None),
    };
    let direction: i32 = match rec.direction {
        Some(d) => d,
        None => 1,
    };
    Some(Some(GroupCols { fmtid, pid, ascending: direction >= 0 }))
}

/// What is written to record a grouping.
pub open spec fn group_writes(g: Option<ColumnView>) -> Seq<WriteView> {
    match g {
        None => seq![WriteView { name: "GroupView"@, value: BagValueView::U32(0) }],
        Some(g) => seq![
            WriteView { name: "GroupView"@, value: BagValueView::U32(1) },
            WriteView {
                name: "GroupByKey:FMTID"@,
                value: BagValueView::Text(guid::guid_text(g.fmtid)),
            },
            WriteView { name: "GroupByKey:PID"@, value: BagValueView::U32(g.pid) },
            WriteView {
                name: "GroupByDirection"@,
                value: BagValueView::I32(
                    if g.ascending {
                        1i32
                    } else {
                        -1i32
                    },
                ),
            },
        ],
    }
}

/// What is written to record a grouping.
pub fn write_group(g: Option<GroupCols>) -> (r: Vec<BagWrite>)
    ensures
        write_views(r@) == group_writes(shell_items::opt_group(g)),
{
    let mut writes: Vec<BagWrite> = Vec::new();
    match g {
        None => {
            writes.push(BagWrite { name: "GroupView", value: BagValue::U32(0) });
        },
        Some(g) => {
            let id = guid_to_string(&g.fmtid);
            let direction: i32 = if g.ascending {
                1
            } else {
                -1
            };
            writes.push(BagWrite { name: "GroupView", value: BagValue::U32(1) });
            writes.push(BagWrite { name: "GroupByKey:FMTID", value: BagValue::Text(id) });
            writes.push(BagWrite { name: "GroupByKey:PID", value: BagValue::U32(g.pid) });
            writes.push(BagWrite { name: "GroupByDirection", value: BagValue::I32(direction) });
        },
    }
    assert(write_views(writes@) =~= group_writes(shell_items::opt_group(g)));
    writes
}

/// What a bag records of the grouping after one write.
pub open spec fn after_write(rec: GroupRecordView, w: WriteView) -> GroupRecordView {
    match w.value {
        BagValueView::U32(x) => if w.name == "GroupView"@ {
            GroupRecordView { view: Some(x), ..rec }
        } else if w.name == "GroupByKey:PID"@ {
            GroupRecordView { pid: Some(x), ..rec }
        } else {
            rec
        },
        BagValueView::Text(s) => if w.name == "GroupByKey:FMTID"@ {
            GroupRecordView { fmtid: Some(s), ..rec }
        } else {
            rec
        },
        BagValueView::I32(x) => if w.name == "GroupByDirection"@ {
            GroupRecordView { direction: Some(x), ..rec }
        } else {
            rec
        },
        BagValueView::Bytes(_) => rec,
    }
}

/// What a bag records of the grouping after writes, in their order.
pub open spec fn after_writes(rec: GroupRecordView, writes: Seq<WriteView>) -> GroupRecordView
    decreases writes.len(),
{
    if writes.len() == 0 {
        rec
    } else {
        after_write(after_writes(rec, writes.drop_last()), writes.last())
    }
}

/// The grouping that is written is the one that is read, whatever the bag held before.
pub proof fn law_group_reads_back(rec: GroupRecordView, g: Option<ColumnView>)
    requires
        g matches Some(g) ==> g.fmtid.data4.len() == 8,
    ensures
        recorded_group(after_writes(rec, group_writes(g))) == Some(g),
{
    reveal_strlit("GroupView");
    reveal_strlit("GroupByKey:PID");
    assert("GroupView"@.len() != "GroupByKey:PID"@.len());
    reveal_with_fuel(after_writes, 5);
    let w = group_writes(g);
    match g {
        None => {
            assert(w.drop_last() =~= Seq::empty());
        },
        Some(c) => {
            guid::law_text_gives_guid_back(c.fmtid);
            assert(w.drop_last().drop_last().drop_last().drop_last() =~= Seq::empty());
            assert(w.drop_last().drop_last().drop_last().last() == w[0]);
            assert(w.drop_last().drop_last().last() == w[1]);
            assert(w.drop_last().last() == w[2]);
            assert(w.last() == w[3]);
            let end = after_writes(rec, w);
            assert(end.view == Some(1u32));
            assert(end.fmtid == Some(guid::guid_text(c.fmtid)));
            assert(end.pid == Some(c.pid));
        },
    }
}

// ----- defaults of the templates -----

/// The direction of a column for which none is given: dates and sizes descend.
pub open spec fn default_direction(k: KeyView) -> bool {
    let name = shell_items::property_key(k);
    !(name == Some("date"@) || name == Some("created"@) || name == Some("size"@))
}

/// The direction of a column for which none is given: dates and sizes descend.
pub fn default_dir_for(pk: &PropertyKey) -> (r: bool)
    ensures
        r == default_direction(pk@),
{
    match column_to_frontend_key(&pk.fmtid, pk.pid) {
        Some(name) => !(str_eq(name, "date") || str_eq(name, "created") || str_eq(name, "size")),
        None => true,
    }
}

/// By name, ascending.
pub open spec fn name_sort() -> Seq<ColumnView> {
    seq![
        ColumnView { fmtid: shell_items::storage_format(), pid: PID_NAME, ascending: true },
    ]
}

/// By name, ascending.
pub fn default_name_sort() -> (r: Vec<SortColumn>)
    ensures
        shell_items::column_views(r@) == name_sort(),
{
    let mut v: Vec<SortColumn> = Vec::new();
    v.push(SortColumn { fmtid: fmtid_storage(), pid: PID_NAME, ascending: true });
    assert(shell_items::column_views(v@) =~= name_sort());
    v
}

/// The canonical name of a property, and whether it is marked as descending.
pub struct PropName {
    pub name: String,
    pub descending: bool,
}

#[verifier::ext_equal]
pub struct PropNameView {
    pub name: Seq<char>,
    pub descending: bool,
}

impl View for PropName {
    type V = PropNameView;

    open spec fn view(&self) -> PropNameView {
        PropNameView { name: self.name@, descending: self.descending }
    }
}

pub open spec fn prop_views(v: Seq<PropName>) -> Seq<PropNameView> {
    v.map_values(|p: PropName| p@)
}

pub open spec fn opt_prop(p: Option<PropName>) -> Option<PropNameView> {
    match p {
        Some(p) => Some(p@),
        None => None,
    }
}

/// `s` without the `prop:` it may begin with.
pub open spec fn without_prop(s: Seq<char>) -> Seq<char> {
    if text::begins(s, "prop:"@) {
        s.skip("prop:"@.len() as int)
    } else {
        s
    }
}

/// `s` without the dashes it begins with.
pub open spec fn without_dashes(s: Seq<char>) -> Seq<char>
    decreases s.len(),
{
    if s.len() > 0 && s[0] == '-' {
        without_dashes(s.drop_first())
    } else {
        s
    }
}

/// The property that a token such as `prop:-System.Size` names; none where it names none.
pub open spec fn token_prop(token: Seq<char>) -> Option<PropNameView> {
    let t = without_prop(text::stripped(token));
    let name = text::stripped(without_dashes(t));
    if name.len() == 0 || text::same_ci(name, "System.Null"@) {
        None
    } else {
        Some(PropNameView { name, descending: t.len() > 0 && t[0] == '-' })
    }
}

fn strip_prop(s: &str) -> (r: &str)
    ensures
        r@ == without_prop(s@),
{
    match strip_prefix(s, "prop:") {
        Some(rest) => rest,
        None => s,
    }
}

fn trim_dashes(s: &str) -> (r: &str)
    ensures
        r@ == without_dashes(s@),
{
    let v = chars_of(s);
    let n: usize = v.len();
    let mut a: usize = 0;
    assert(s@.skip(0) =~= s@);
    while a < n && v[a] == '-'
        invariant
            a <= n,
            n == v.len(),
            v@ == s@,
            without_dashes(s@) == without_dashes(s@.skip(a as int)),
        decreases n - a,
    {
        assert(s@.skip(a as int).drop_first() =~= s@.skip(a + 1));
        a += 1;
    }
    let r = s.substring_char(a, n);
    assert(r@ =~= s@.skip(a as int));
    r
}

/// The property that a token such as `prop:-System.Size` names; none where it names none.
pub fn parse_prop_name(token: &str) -> (r: Option<PropName>)
    ensures
        opt_prop(r) == token_prop(token@),
{
    let t = strip_prop(trim(token));
    let v = chars_of(t);
    let descending = v.len() > 0 && v[0] == '-';
    let name = trim(trim_dashes(t));
    if name.is_empty() || eq_ignore_case(name, "System.Null") {
        None
    } else {
        Some(PropName { name: name.to_owned(), descending })
    }
}

/// The properties that the tokens name, without those that name none.
pub open spec fn token_props(tokens: Seq<Seq<char>>) -> Seq<PropNameView>
    decreases tokens.len(),
{
    if tokens.len() == 0 {
        Seq::empty()
    } else {
        let rest = token_props(tokens.drop_last());
        match token_prop(tokens.last()) {
            Some(p) => rest.push(p),
            None => rest,
        }
    }
}

/// The properties in a list such as `prop:System.Kind;-System.Size`, in order.
pub fn sortby_names(s: &str) -> (r: Vec<PropName>)
    ensures
        prop_views(r@) == token_props(text::pieces(without_prop(s@), ';')),
{
    let body = strip_prop(s);
    let tokens = split(body, ';');
    let ghost all = text::texts(tokens@);
    let mut out: Vec<PropName> = Vec::new();
    let mut i: usize = 0;
    while i < tokens.len()
        invariant
            i <= tokens.len(),
            all == text::texts(tokens@),
            prop_views(out@) =~= token_props(all.take(i as int)),
        decreases tokens.len() - i,
    {
        proof {
            assert(all.take(i + 1).drop_last() =~= all.take(i as int));
            assert(all.take(i + 1).last() == tokens@[i as int]@);
        }
        if let Some(p) = parse_prop_name(tokens[i].as_str()) {
            out.push(p);
        }
        i += 1;
    }
    assert(all.take(all.len() as int) =~= all);
    out
}

/// The columns of the properties that are known, in order. `keys` holds what each name stands for.
pub open spec fn known_columns(names: Seq<PropNameView>, keys: Seq<Option<KeyView>>) -> Seq<
    ColumnView,
>
    decreases names.len(),
{
    if names.len() == 0 {
        Seq::empty()
    } else {
        let rest = known_columns(names.drop_last(), keys);
        match keys[names.len() - 1] {
            Some(k) => rest.push(
                ColumnView {
                    fmtid: k.fmtid,
                    pid: k.pid,
                    ascending: !names.last().descending && default_direction(k),
                },
            ),
            None => rest,
        }
    }
}

pub open spec fn key_views(v: Seq<Option<PropertyKey>>) -> Seq<Option<KeyView>> {
    v.map_values(|k: Option<PropertyKey>| shell_items::opt_key(k))
}

/// The sort columns of a list of properties, given what each name stands for; none where no name
/// is known.
pub fn parse_sortbylist(names: &[PropName], keys: &[Option<PropertyKey>]) -> (r: Option<
    Vec<SortColumn>,
>)
    requires
        names@.len() == keys@.len(),
    ensures
        opt_columns(r) == ({
            let cols = known_columns(prop_views(names@), key_views(keys@));
            if cols.len() == 0 {
                None
            } else {
                Some(cols)
            }
        }),
{
    let ghost all = prop_views(names@);
    let ghost found = key_views(keys@);
    let mut cols: Vec<SortColumn> = Vec::new();
    let mut i: usize = 0;
    while i < names.len()
        invariant
            i <= names.len(),
            names@.len() == keys@.len(),
            all == prop_views(names@),
            found == key_views(keys@),
            shell_items::column_views(cols@) =~= known_columns(all.take(i as int), found),
        decreases names.len() - i,
    {
        proof {
            assert(all.take(i + 1).drop_last() =~= all.take(i as int));
            assert(all.take(i + 1).last() == names@[i as int]@);
            assert(found[i as int] == shell_items::opt_key(keys@[i as int]));
        }
        if let Some(pk) = &keys[i] {
            let ascending = !names[i].descending && default_dir_for(pk);
            cols.push(SortColumn { fmtid: pk.fmtid, pid: pk.pid, ascending });
        }
        i += 1;
    }
    assert(all.take(all.len() as int) =~= all);
    assert(shell_items::column_views(cols@).len() == cols@.len());
    if cols.is_empty() {
        None
    } else {
        Some(cols)
    }
}

/// The registry key, below the local machine, that holds the defaults of a template.
pub fn top_view_key(t: Template) -> (r: String)
    ensures
        r@ == "SOFTWARE\\Microsoft\\Windows\\CurrentVersion\\Explorer\\FolderTypes\\"@
            + template_text(t) + "\\TopViews\\{00000000-0000-0000-0000-000000000000}"@,
{
    let mut s = "SOFTWARE\\Microsoft\\Windows\\CurrentVersion\\Explorer\\FolderTypes\\".to_owned();
    s.append(t.id());
    s.append("\\TopViews\\{00000000-0000-0000-0000-000000000000}");
    s
}

/// The length, in units, of the buffer for a registry text of `size` bytes; none where the query
/// for its size has failed or says that there is nothing.
pub fn sz_buffer_len(status: u32, size: u32) -> (r: Option<usize>)
    ensures
        r == (if status != 0 || size == 0 {
            None
        } else {
            Some((size / 2 + 1) as usize)
        }),
{
    if status != 0 || size == 0 {
        None
    } else {
        Some(size as usize / 2 + 1)
    }
}

/// The registry text that was read into a buffer; none where reading has failed.
pub fn reg_read_sz(status: u32, buf: &[u16]) -> (r: Option<String>)
    ensures
        text::opt_view(r) == (if status != 0 {
            None
        } else {
            Some(wide::decoded(wide::before_nul(buf@)))
        }),
{
    if status != 0 {
        None
    } else {
        Some(buffer_text(buf))
    }
}

/// The registry number that was read; none where reading has failed.
pub fn reg_read_dword(status: u32, data: u32) -> (r: Option<u32>)
    ensures
        r == (if status == 0 {
            Some(data)
        } else {
            None
        }),
{
    if status == 0 {
        Some(data)
    } else {
        None
    }
}

/// The sort columns of a template, by name where it lists none.
pub open spec fn default_sort(listed: Option<Seq<ColumnView>>) -> Seq<ColumnView> {
    match listed {
        Some(cols) => cols,
        None => name_sort(),
    }
}

/// The grouping of a template: the direction that is recorded for it, else the one that the list
/// marks, else that of the column.
pub open spec fn default_group(key: Option<(KeyView, bool)>, ascending: Option<u32>) -> Option<
    ColumnView,
> {
    match key {
        Some((k, descending)) => Some(
            ColumnView {
                fmtid: k.fmtid,
                pid: k.pid,
                ascending: match ascending {
                    Some(d) => d != 0,
                    None => !descending && default_direction(k),
                },
            },
        ),
        None => None,
    }
}

pub open spec fn opt_marked_key(k: Option<(PropertyKey, bool)>) -> Option<(KeyView, bool)> {
    match k {
        Some((k, descending)) => Some((k@, descending)),
        None => None,
    }
}

/// The default sort columns and grouping of a template: the columns that it lists, the property
/// that it groups by with its mark, and the direction that is recorded for the grouping.
pub fn template_default_sort(
    listed: Option<Vec<SortColumn>>,
    key: Option<(PropertyKey, bool)>,
    ascending: Option<u32>,
) -> (r: (Vec<SortColumn>, Option<GroupCols>))
    ensures
        shell_items::column_views(r.0@) == default_sort(opt_columns(listed)),
        shell_items::opt_group(r.1) == default_group(opt_marked_key(key), ascending),
{
    let sort = match listed {
        Some(cols) => cols,
        None => default_name_sort(),
    };
    let group = match key {
        Some((pk, descending)) => {
            let up = match ascending {
                Some(d) => d != 0,
                None => !descending && default_dir_for(&pk),
            };
            Some(GroupCols { fmtid: pk.fmtid, pid: pk.pid, ascending: up })
        },
        None => None,
    };
    (sort, group)
}

// ----- what holds for a folder -----

/// What one bag records of sorting and grouping.
pub struct BagReading {
    pub sort: Option<Vec<SortColumn>>,
    pub group: Option<Option<GroupCols>>,
}

#[verifier::ext_equal]
pub struct ReadingView {
    pub sort: Option<Seq<ColumnView>>,
    pub group: Option<Option<ColumnView>>,
}

impl View for BagReading {
    type V = ReadingView;

    open spec fn view(&self) -> ReadingView {
        ReadingView { sort: opt_columns(self.sort), group: opt_opt_group(self.group) }
    }
}

pub open spec fn reading_views(v: Seq<BagReading>) -> Seq<ReadingView> {
    v.map_values(|b: BagReading| b@)
}

/// What a bag holds: the bytes of its sort columns, where it has any, and its grouping.
pub fn read_bag(sort: &Option<Vec<u8>>, group: &GroupRecord) -> (r: BagReading)
    ensures
        r@.sort == (match *sort {
            Some(b) => parsed_sort(b@),
            None => None,
        }),
        r@.group == recorded_group(group@),
{
    let sort = match sort {
        Some(b) => parse_sort_bytes(b.as_slice()),
        None => None,
    };
    BagReading { sort, group: read_group(group) }
}

/// The reading of the first bag that records anything; an empty one where none does.
pub open spec fn first_reading(bags: Seq<ReadingView>) -> ReadingView
    decreases bags.len(),
{
    if bags.len() == 0 {
        ReadingView { sort: None, group: None }
    } else if bags[0].sort is Some || bags[0].group is Some {
        bags[0]
    } else {
        first_reading(bags.drop_first())
    }
}

/// The sort columns and the grouping that hold for a folder: those of the first bag that records
/// anything, and the template's defaults for what it does not record.
pub open spec fn effective(
    bags: Seq<ReadingView>,
    sort: Seq<ColumnView>,
    group: Option<ColumnView>,
) -> (Seq<ColumnView>, Option<ColumnView>) {
    let first = first_reading(bags);
    (
        match first.sort {
            Some(cols) => cols,
            None => sort,
        },
        match first.group {
            Some(g) => g,
            None => group,
        },
    )
}

fn copy_columns(cols: &Vec<SortColumn>) -> (r: Vec<SortColumn>)
    ensures
        r@ == cols@,
{
    let mut out: Vec<SortColumn> = Vec::new();
    let mut i: usize = 0;
    while i < cols.len()
        invariant
            i <= cols.len(),
            out@ =~= cols@.take(i as int),
        decreases cols.len() - i,
    {
        out.push(cols[i]);
        i += 1;
    }
    out
}

/// The sort columns and the grouping that hold for a folder, given its bags in the order of the
/// candidates and the defaults of its template.
pub fn effective_sort_group(
    bags: &[BagReading],
    sort: Vec<SortColumn>,
    group: Option<GroupCols>,
) -> (r: (Vec<SortColumn>, Option<GroupCols>))
    ensures
        (shell_items::column_views(r.0@), shell_items::opt_group(r.1)) == effective(
            reading_views(bags@),
            shell_items::column_views(sort@),
            shell_items::opt_group(group),
        ),
{
    let ghost all = reading_views(bags@);
    let mut i: usize = 0;
    assert(all.skip(0) =~= all);
    while i < bags.len() && bags[i].sort.is_none() && bags[i].group.is_none()
        invariant
            i <= bags.len(),
            all == reading_views(bags@),
            first_reading(all) == first_reading(all.skip(i as int)),
        decreases bags.len() - i,
    {
        assert(all.skip(i as int)[0] == bags@[i as int]@);
        assert(all.skip(i as int).drop_first() =~= all.skip(i + 1));
        i += 1;
    }
    if i == bags.len() {
        return (sort, group);
    }
    let bag = &bags[i];
    assert(all.skip(i as int)[0] == bag@);
    let cols = match &bag.sort {
        Some(cols) => copy_columns(cols),
        None => sort,
    };
    let g = match bag.group {
        Some(g) => g,
        None => group,
    };
    (cols, g)
}

/// How the sort column of a folder is saved; none for a column that there is not. `recorded` tells
/// which candidates have a view mode or sort columns.
pub fn save_sort(key: &str, ascending: bool, primary: Template, recorded: &[bool]) -> (r: Option<
    BagPlan,
>)
    ensures
        opt_plan(r) == (match shell_items::key_property(key@) {
            Some(k) => Some(
                PlanView {
                    template: target_of(primary, recorded@),
                    writes: sort_writes(ColumnView { fmtid: k.fmtid, pid: k.pid, ascending }),
                },
            ),
            None => None,
        }),
{
    let pk = match frontend_key_to_pkey(key) {
        Some(pk) => pk,
        None => return None,
    };
    let mut cols: Vec<SortColumn> = Vec::new();
    cols.push(SortColumn { fmtid: pk.fmtid, pid: pk.pid, ascending });
    let ghost col = ColumnView { fmtid: pk@.fmtid, pid: pk@.pid, ascending };
    assert(shell_items::column_views(cols@) =~= seq![col]);
    let bytes = build_sort_bytes(cols.as_slice());
    let mut writes: Vec<BagWrite> = Vec::new();
    writes.push(BagWrite { name: "Sort", value: BagValue::Bytes(bytes) });
    assert(write_views(writes@) =~= sort_writes(col));
    let template = pick_target_template(primary, recorded);
    Some(BagPlan { template, writes })
}

/// What is written to record one sort column.
pub open spec fn sort_writes(c: ColumnView) -> Seq<WriteView> {
    seq![WriteView { name: "Sort"@, value: BagValueView::Bytes(sort_bytes(seq![c])) }]
}

/// The grouping for the column that the front end calls `key`; no grouping where it names none.
pub open spec fn key_group(key: Option<Seq<char>>) -> Option<Option<ColumnView>> {
    match key {
        Some(key) => match shell_items::key_property(key) {
            Some(k) => Some(
                Some(
                    ColumnView { fmtid: k.fmtid, pid: k.pid, ascending: default_direction(k) },
                ),
            ),
            None => None,
        },
        None => Some(None),
    }
}

/// How the grouping of a folder is saved, by a column or by none; none for a column that there is
/// not. `recorded` tells which candidates have a view mode or sort columns.
pub fn save_group(key: &Option<String>, primary: Template, recorded: &[bool]) -> (r: Option<
    BagPlan,
>)
    ensures
        opt_plan(r) == (match key_group(text::opt_view(*key)) {
            Some(g) => Some(
                PlanView { template: target_of(primary, recorded@), writes: group_writes(g) },
            ),
            None => None,
        }),
{
    let group = match key {
        Some(k) => match frontend_key_to_pkey(k.as_str()) {
            Some(pk) => Some(
                GroupCols { fmtid: pk.fmtid, pid: pk.pid, ascending: default_dir_for(&pk) },
            ),
            None => return None,
        },
        None => None,
    };
    let template = pick_target_template(primary, recorded);
    Some(BagPlan { template, writes: write_group(group) })
}

// ----- saving and reading -----

/// All that is kept in one bag.
#[verifier::ext_equal]
pub struct StoredBag {
    pub mode: Option<u32>,
    pub icon: Option<u32>,
    pub sort: Option<Seq<u8>>,
    pub group: GroupRecordView,
}

/// A bag after one write.
pub open spec fn bag_after(b: StoredBag, w: WriteView) -> StoredBag {
    StoredBag {
        mode: match w.value {
            BagValueView::U32(x) if w.name == "Mode"@ => Some(x),
            _ => b.mode,
        },
        icon: match w.value {
            BagValueView::U32(x) if w.name == "IconSize"@ => Some(x),
            _ => b.icon,
        },
        sort: match w.value {
            BagValueView::Bytes(x) if w.name == "Sort"@ => Some(x),
            _ => b.sort,
        },
        group: after_write(b.group, w),
    }
}

/// A bag after writes, in their order.
pub open spec fn bag_after_all(b: StoredBag, writes: Seq<WriteView>) -> StoredBag
    decreases writes.len(),
{
    if writes.len() == 0 {
        b
    } else {
        bag_after(bag_after_all(b, writes.drop_last()), writes.last())
    }
}

/// The bags of a folder, one for each template, after a plan was carried out.
pub open spec fn carried_out(bags: spec_fn(Template) -> StoredBag, plan: PlanView) -> spec_fn(
    Template,
) -> StoredBag {
    |t: Template|
        if t == plan.template {
            bag_after_all(bags(t), plan.writes)
        } else {
            bags(t)
        }
}

/// What is asked of the bags to learn the view, in the order of the candidates.
pub open spec fn stored_views(bags: spec_fn(Template) -> StoredBag, primary: Template) -> Seq<
    BagView,
> {
    candidates(primary).map_values(
        |t: Template| BagView { mode: bags(t).mode, icon: bags(t).icon },
    )
}

/// What is read from the bags of sorting and grouping, in the order of the candidates.
pub open spec fn stored_readings(bags: spec_fn(Template) -> StoredBag, primary: Template) -> Seq<
    ReadingView,
> {
    candidates(primary).map_values(
        |t: Template|
            ReadingView {
                sort: match bags(t).sort {
                    Some(b) => parsed_sort(b),
                    None => None,
                },
                group: recorded_group(bags(t).group),
            },
    )
}

/// Which candidates have a view mode.
pub open spec fn with_mode(bags: spec_fn(Template) -> StoredBag, primary: Template) -> Seq<bool> {
    candidates(primary).map_values(|t: Template| bags(t).mode is Some)
}

/// Which candidates have a view mode or sort columns.
pub open spec fn with_mode_or_sort(
    bags: spec_fn(Template) -> StoredBag,
    primary: Template,
) -> Seq<bool> {
    candidates(primary).map_values(|t: Template| bags(t).mode is Some || bags(t).sort is Some)
}

/// The position of the template to write to among the candidates.
pub open spec fn target_place(recorded: Seq<bool>) -> int {
    let k = first_true(recorded);
    if k < recorded.len() {
        k
    } else {
        0
    }
}

proof fn lemma_target_place(primary: Template, recorded: Seq<bool>)
    requires
        recorded.len() == candidates(primary).len(),
    ensures
        0 <= target_place(recorded) < candidates(primary).len(),
        target_of(primary, recorded) == candidates(primary)[target_place(recorded)],
        forall|i: int| 0 <= i < target_place(recorded) ==> !recorded[i],
        forall|i: int|
            0 <= i < candidates(primary).len() && candidates(primary)[i] == target_of(
                primary,
                recorded,
            ) ==> i == target_place(recorded),
{
    law_candidates_cover_templates(primary);
    lemma_first_true(recorded);
}

proof fn lemma_first_true(flags: Seq<bool>)
    ensures
        0 <= first_true(flags) <= flags.len(),
        forall|i: int| 0 <= i < first_true(flags) ==> !flags[i],
    decreases flags.len(),
{
    if flags.len() > 0 && !flags[0] {
        let d = flags.drop_first();
        lemma_first_true(d);
        assert forall|i: int| 0 <= i < first_true(flags) implies !flags[i] by {
            if i > 0 {
                assert(flags[i] == d[i - 1]);
            }
        }
    }
}

/// The view that is saved for a folder is the view that is read for it, whatever its bags held
/// before.
pub proof fn law_saved_view_is_read(
    view: Seq<char>,
    primary: Template,
    bags: spec_fn(Template) -> StoredBag,
)
    requires
        view_values(view) is Some,
    ensures
        ({
            let plan = PlanView {
                template: target_of(primary, with_mode(bags, primary)),
                writes: view_writes(view_values(view)->0),
            };
            first_view(stored_views(carried_out(bags, plan), primary)) == Some(view)
        }),
{
    let flags = with_mode(bags, primary);
    let plan = PlanView {
        template: target_of(primary, flags),
        writes: view_writes(view_values(view)->0),
    };
    let k = target_place(flags);
    let views = stored_views(carried_out(bags, plan), primary);
    lemma_target_place(primary, flags);
    lemma_view_writes(bags(plan.template), view_values(view)->0);
    assert forall|i: int| 0 <= i < k implies (#[trigger] views[i]).mode is None by {
        assert(!flags[i]);
    }
    lemma_first_view_is(views, k);
    law_view_reads_back(view);
}

proof fn lemma_view_writes(b: StoredBag, v: (u32, u32, u32))
    ensures
        bag_after_all(b, view_writes(v)) == (StoredBag { mode: Some(v.0), icon: Some(v.2), ..b }),
{
    reveal_strlit("Mode");
    reveal_strlit("LogicalViewMode");
    reveal_strlit("IconSize");
    reveal_strlit("GroupView");
    reveal_strlit("GroupByKey:PID");
    assert("Mode"@.len() == 4 && "LogicalViewMode"@.len() == 15 && "IconSize"@.len() == 8);
    assert("GroupView"@.len() == 9 && "GroupByKey:PID"@.len() == 14);
    let w = view_writes(v);
    reveal_with_fuel(bag_after_all, 4);
    assert(w.drop_last().drop_last().drop_last() =~= Seq::empty());
    assert(w.drop_last().drop_last().last() == w[0]);
    assert(w.drop_last().last() == w[1]);
    assert(w.last() == w[2]);
}

proof fn lemma_sort_writes(b: StoredBag, c: ColumnView)
    ensures
        bag_after_all(b, sort_writes(c)) == (StoredBag {
            sort: Some(sort_bytes(seq![c])),
            ..b
        }),
{
    let w = sort_writes(c);
    reveal_with_fuel(bag_after_all, 2);
    assert(w.drop_last() =~= Seq::empty());
    assert(w.last() == w[0]);
}

proof fn lemma_group_writes(b: StoredBag, g: Option<ColumnView>)
    ensures
        bag_after_all(b, group_writes(g)) == (StoredBag {
            group: after_writes(b.group, group_writes(g)),
            ..b
        }),
{
    reveal_strlit("Mode");
    reveal_strlit("IconSize");
    reveal_strlit("GroupView");
    reveal_strlit("GroupByKey:PID");
    assert("Mode"@.len() == 4 && "IconSize"@.len() == 8);
    assert("GroupView"@.len() == 9 && "GroupByKey:PID"@.len() == 14);
    lemma_group_writes_from(b, group_writes(g));
}

/// Whether a write concerns neither the view nor the sort columns.
spec fn spares_view_and_sort(w: WriteView) -> bool {
    match w.value {
        BagValueView::U32(_) => w.name != "Mode"@ && w.name != "IconSize"@,
        BagValueView::Bytes(_) => false,
        _ => true,
    }
}

proof fn lemma_group_writes_from(b: StoredBag, writes: Seq<WriteView>)
    requires
        forall|i: int| 0 <= i < writes.len() ==> spares_view_and_sort(#[trigger] writes[i]),
    ensures
        bag_after_all(b, writes) == (StoredBag { group: after_writes(b.group, writes), ..b }),
    decreases writes.len(),
{
    if writes.len() > 0 {
        let w = writes.drop_last();
        assert forall|i: int| 0 <= i < w.len() implies spares_view_and_sort(#[trigger] w[i]) by {
            assert(w[i] == writes[i]);
        }
        lemma_group_writes_from(b, w);
        assert(spares_view_and_sort(writes[writes.len() - 1]));
    }
}

/// The sort column that is saved for a folder is the one that holds for it, whatever its bags held
/// before, where no candidate in front of the template that is written records a grouping.
pub proof fn law_saved_sort_holds(
    c: ColumnView,
    primary: Template,
    bags: spec_fn(Template) -> StoredBag,
    sort: Seq<ColumnView>,
    group: Option<ColumnView>,
)
    requires
        c.fmtid.data4.len() == 8,
        forall|i: int|
            0 <= i < target_place(with_mode_or_sort(bags, primary)) ==> recorded_group(
                bags(#[trigger] candidates(primary)[i]).group,
            ) is None,
    ensures
        ({
            let plan = PlanView {
                template: target_of(primary, with_mode_or_sort(bags, primary)),
                writes: sort_writes(c),
            };
            effective(stored_readings(carried_out(bags, plan), primary), sort, group).0 == seq![c]
        }),
{
    let flags = with_mode_or_sort(bags, primary);
    let plan = PlanView { template: target_of(primary, flags), writes: sort_writes(c) };
    lemma_sort_writes(bags(plan.template), c);
    law_sort_reads_back(seq![c]);
    lemma_reading_at_target(primary, bags, plan);
}

/// The grouping that is saved for a folder is the one that holds for it, whatever its bags held
/// before, where no candidate in front of the template that is written records a grouping; no
/// grouping as well as one by a column.
pub proof fn law_saved_group_holds(
    g: Option<ColumnView>,
    primary: Template,
    bags: spec_fn(Template) -> StoredBag,
    sort: Seq<ColumnView>,
    group: Option<ColumnView>,
)
    requires
        g matches Some(g) ==> g.fmtid.data4.len() == 8,
        forall|i: int|
            0 <= i < target_place(with_mode_or_sort(bags, primary)) ==> recorded_group(
                bags(#[trigger] candidates(primary)[i]).group,
            ) is None,
    ensures
        ({
            let plan = PlanView {
                template: target_of(primary, with_mode_or_sort(bags, primary)),
                writes: group_writes(g),
            };
            effective(stored_readings(carried_out(bags, plan), primary), sort, group).1 == g
        }),
{
    let flags = with_mode_or_sort(bags, primary);
    let plan = PlanView { template: target_of(primary, flags), writes: group_writes(g) };
    lemma_group_writes(bags(plan.template), g);
    law_group_reads_back(bags(plan.template).group, g);
    lemma_reading_at_target(primary, bags, plan);
}

proof fn lemma_reading_at_target(
    primary: Template,
    bags: spec_fn(Template) -> StoredBag,
    plan: PlanView,
)
    requires
        plan.template == target_of(primary, with_mode_or_sort(bags, primary)),
        forall|i: int|
            0 <= i < target_place(with_mode_or_sort(bags, primary)) ==> recorded_group(
                bags(#[trigger] candidates(primary)[i]).group,
            ) is None,
        ({
            let b = bag_after_all(bags(plan.template), plan.writes);
            b.sort matches Some(s) && parsed_sort(s) is Some || recorded_group(b.group) is Some
        }),
    ensures
        first_reading(stored_readings(carried_out(bags, plan), primary)) == (ReadingView {
            sort: match bag_after_all(bags(plan.template), plan.writes).sort {
                Some(b) => parsed_sort(b),
                None => None,
            },
            group: recorded_group(bag_after_all(bags(plan.template), plan.writes).group),
        }),
{
    let flags = with_mode_or_sort(bags, primary);
    let k = target_place(flags);
    let all = stored_readings(carried_out(bags, plan), primary);
    lemma_target_place(primary, flags);
    assert forall|i: int| 0 <= i < k implies (#[trigger] all[i]).sort is None && all[i].group
        is None by {
        assert(!flags[i]);
        assert(recorded_group(bags(candidates(primary)[i]).group) is None);
    }
    lemma_first_reading_is(all, k);
}

/// Saving a view leaves the sort columns and the grouping of a folder as they were, and saving
/// those leaves its view as it was.
pub proof fn law_saves_keep_apart(
    bags: spec_fn(Template) -> StoredBag,
    primary: Template,
    t: Template,
    v: (u32, u32, u32),
    c: ColumnView,
    g: Option<ColumnView>,
)
    ensures
        stored_readings(
            carried_out(bags, PlanView { template: t, writes: view_writes(v) }),
            primary,
        ) == stored_readings(bags, primary),
        stored_views(carried_out(bags, PlanView { template: t, writes: sort_writes(c) }), primary)
            == stored_views(bags, primary),
        stored_views(carried_out(bags, PlanView { template: t, writes: group_writes(g) }), primary)
            == stored_views(bags, primary),
{
    lemma_view_writes(bags(t), v);
    lemma_sort_writes(bags(t), c);
    lemma_group_writes(bags(t), g);
}

proof fn lemma_first_reading_is(bags: Seq<ReadingView>, k: int)
    requires
        0 <= k < bags.len(),
        bags[k].sort is Some || bags[k].group is Some,
        forall|i: int|
            0 <= i < k ==> (#[trigger] bags[i]).sort is None && bags[i].group is None,
    ensures
        first_reading(bags) == bags[k],
    decreases k,
{
    if k > 0 {
        let d = bags.drop_first();
        assert(bags[0].sort is None);
        assert forall|i: int| 0 <= i < k - 1 implies (#[trigger] d[i]).sort is None
            && d[i].group is None by {
            assert(d[i] == bags[i + 1]);
        }
        lemma_first_reading_is(d, k - 1);
    }
}

/// Where no bag records anything, the template's defaults hold.
pub proof fn law_defaults_hold_unrecorded(
    bags: Seq<ReadingView>,
    sort: Seq<ColumnView>,
    group: Option<ColumnView>,
)
    requires
        forall|i: int|
            0 <= i < bags.len() ==> (#[trigger] bags[i]).sort is None && bags[i].group is None,
    ensures
        effective(bags, sort, group) == (sort, group),
    decreases bags.len(),
{
    if bags.len() > 0 {
        let d = bags.drop_first();
        assert(bags[0].sort is None);
        assert forall|i: int| 0 <= i < d.len() implies (#[trigger] d[i]).sort is None
            && d[i].group is None by {
            assert(d[i] == bags[i + 1]);
        }
        law_defaults_hold_unrecorded(d, sort, group);
    }
}

// ----- laws -----

/// The logical view mode that is saved agrees with the view mode that is saved, and the icon size
/// with both: details, tiles, icons, list and content each have a pair of modes of their own.
pub proof fn law_logical_mode_follows_mode(view: Seq<char>)
    ensures
        view_values(view) matches Some(v) ==> {
            &&& v.0 == 4 || v.0 == 6 || v.0 == 1 || v.0 == 3 || v.0 == 8
            &&& v.0 == 4 <==> v.1 == 1
            &&& v.0 == 6 <==> v.1 == 2
            &&& v.0 == 1 <==> v.1 == 3
            &&& v.0 == 3 <==> v.1 == 4
            &&& v.0 == 8 <==> v.1 == 5
            &&& v.0 == 4 || v.0 == 3 ==> v.2 == 16
            &&& v.0 == 6 ==> v.2 == 48
            &&& v.0 == 8 ==> v.2 == 32
            &&& v.0 == 1 ==> v.2 == 16 || v.2 == 48 || v.2 == 96 || v.2 == 256
        },
{
}

/// What a view mode is called, whatever the icon size is, and what icons are called by the size
/// that is nearest.
pub proof fn law_view_names(mode: u32, icon: u32)
    ensures
        mode == 4 ==> view_name(mode, icon) == "details"@,
        mode == 3 ==> view_name(mode, icon) == "list"@,
        mode == 6 ==> view_name(mode, icon) == "tiles"@,
        mode == 8 ==> view_name(mode, icon) == "content"@,
        mode == 2 ==> view_name(mode, icon) == "s-icons"@,
        mode != 2 && mode != 3 && mode != 4 && mode != 6 && mode != 8 ==> {
            &&& icon < 32 ==> view_name(mode, icon) == "s-icons"@
            &&& 32 <= icon < 72 ==> view_name(mode, icon) == "m-icons"@
            &&& 72 <= icon < 176 ==> view_name(mode, icon) == "l-icons"@
            &&& 176 <= icon ==> view_name(mode, icon) == "xl-icons"@
        },
{
}

/// The views that can be saved are the eight of the front end, and no other.
pub proof fn law_eight_views(view: Seq<char>)
    ensures
        view_values(view) is Some <==> set![
            "xl-icons"@, "l-icons"@, "m-icons"@, "s-icons"@, "list"@, "details"@, "tiles"@,
            "content"@,
        ].contains(view),
{
}

/// A bag without a mode records no view; one without an icon size counts as one of small icons.
pub proof fn law_recorded_view(b: BagView)
    ensures
        b.mode is None <==> recorded_view(b) is None,
        b.mode matches Some(m) ==> b.icon matches Some(i) ==> recorded_view(b) == Some(view_name(m, i)),
        b.mode is Some && b.icon is None ==> recorded_view(b) == recorded_view(
            BagView { icon: Some(16), ..b },
        ),
{
}

/// The view of a folder is that of the first of its bags that records a mode; bags behind it do not
/// matter, and there is none where no bag records one.
pub proof fn law_first_recorded_view(before: Seq<BagView>, b: BagView, behind: Seq<BagView>)
    requires
        forall|i: int| 0 <= i < before.len() ==> (#[trigger] before[i]).mode is None,
        b.mode is Some,
    ensures
        first_view(before + seq![b] + behind) == recorded_view(b),
        first_view(before) is None,
    decreases before.len(),
{
    let all = before + seq![b] + behind;
    assert forall|i: int| 0 <= i < before.len() implies (#[trigger] all[i]).mode is None by {
        assert(all[i] == before[i]);
    }
    assert(all[before.len() as int] == b);
    lemma_first_view_is(all, before.len() as int);
    if before.len() > 0 {
        let d = before.drop_first();
        assert(before[0].mode is None);
        assert forall|i: int| 0 <= i < d.len() implies (#[trigger] d[i]).mode is None by {
            assert(d[i] == before[i + 1]);
        }
        law_first_recorded_view(d, b, behind);
    }
}

/// Saving a view writes the mode, the logical mode and the icon size, in this order, each under
/// Explorer's name for it, and nothing else.
pub proof fn law_view_writes(mode: u32, logical: u32, icon: u32)
    ensures
        ({
            let w = view_writes((mode, logical, icon));
            &&& w.len() == 3
            &&& w[0].name == "Mode"@ && w[0].value == BagValueView::U32(mode)
            &&& w[1].name == "LogicalViewMode"@ && w[1].value == BagValueView::U32(logical)
            &&& w[2].name == "IconSize"@ && w[2].value == BagValueView::U32(icon)
        }),
{
}

/// The templates have Explorer's identifiers.
pub proof fn law_template_texts()
    ensures
        template_text(Template::Generic) == "{5C4F28B5-F869-4E84-8E60-F11DB97C5CC7}"@,
        template_text(Template::Documents) == "{7D49D726-3C21-4F05-99AA-FDC2C9474656}"@,
        template_text(Template::Pictures) == "{B3690E58-E961-423B-B687-386EBFD83239}"@,
        template_text(Template::Music) == "{94D6DDCC-4A68-4175-A374-BD584A510B78}"@,
        template_text(Template::Videos) == "{5FA96407-7E77-483C-AC93-691D05850DE8}"@,
        template_text(Template::Downloads) == "{885A186E-A440-4ADA-812B-DB871B942259}"@,
{
}

/// A folder type stands for the template of its name in any case, and any other for the generic
/// one.
pub proof fn law_folder_types(folder_type: Seq<char>)
    ensures
        type_template(folder_type) == Template::Documents <==> text::same_ci(
            folder_type,
            "documents"@,
        ),
        type_template(folder_type) == Template::Pictures <==> text::same_ci(
            folder_type,
            "pictures"@,
        ),
        type_template(folder_type) == Template::Music <==> text::same_ci(folder_type, "music"@),
        type_template(folder_type) == Template::Videos <==> text::same_ci(folder_type, "videos"@),
        type_template(folder_type) == Template::Downloads <==> text::same_ci(
            folder_type,
            "downloads"@,
        ),
{
    lemma_small_word("documents"@);
    lemma_small_word("pictures"@);
    lemma_small_word("music"@);
    lemma_small_word("videos"@);
    lemma_small_word("downloads"@);
    reveal_strlit("documents");
    reveal_strlit("pictures");
    reveal_strlit("music");
    reveal_strlit("videos");
    reveal_strlit("downloads");
    assert("documents"@[1] == 'o' && "documents"@[2] == 'c');
    assert("downloads"@[1] == 'o' && "downloads"@[2] == 'w');
    assert("documents"@.len() == 9 && "pictures"@.len() == 8 && "music"@.len() == 5
        && "videos"@.len() == 6 && "downloads"@.len() == 9);
}

proof fn lemma_small_word(w: Seq<char>)
    ensures
        (forall|i: int| 0 <= i < w.len() ==> 'a' <= #[trigger] w[i] && w[i] <= 'z') ==> text::lowered(
            w,
        ) == w,
{
    if forall|i: int| 0 <= i < w.len() ==> 'a' <= #[trigger] w[i] && w[i] <= 'z' {
        assert forall|i: int| 0 <= i < w.len() implies text::lowered(w)[i] == w[i] by {
            assert('a' <= w[i]);
        }
        assert(text::lowered(w) =~= w);
    }
}

/// Whether a path is the place of a known folder, up to case and backslashes at the end.
pub open spec fn stands_at(known: Option<String>, path: Seq<char>) -> bool {
    known matches Some(p) && text::trimmed(p@).len() == text::trimmed(path).len() && forall|i: int|
        0 <= i < text::trimmed(path).len() ==> text::alike(
            text::trimmed(p@)[i],
            #[trigger] text::trimmed(path)[i],
        )
}

/// A path is a known folder exactly where it is its place, character by character, up to case and
/// backslashes at the end.
pub proof fn law_folder_place(known: Option<String>, path: Seq<char>)
    ensures
        is_folder_at(known, path) <==> stands_at(known, path),
{
    if let Some(p) = known {
        let a = text::trimmed(p@);
        let b = text::trimmed(path);
        text::law_same_up_to_case(a, b);
        if stands_at(known, path) {
            assert forall|i: int| 0 <= i < a.len() implies text::alike(#[trigger] a[i], b[i]) by {
                assert(text::alike(a[i], b[i]));
            }
        }
        if text::same_ci(a, b) {
            assert forall|i: int| 0 <= i < b.len() implies text::alike(a[i], #[trigger] b[i]) by {
                assert(text::alike(a[i], b[i]));
            }
        }
    }
}

/// A known folder has its own template, whatever its desktop.ini says; any other folder has that of
/// its desktop.ini, and the generic one without.
pub proof fn law_template(path: Seq<char>, known: KnownFolders, folder_type: Option<Seq<char>>)
    ensures
        ({
            let t = template_of(path, known, folder_type);
            let downloads = is_folder_at(known.downloads, path);
            let documents = is_folder_at(known.documents, path);
            let pictures = is_folder_at(known.pictures, path);
            let music = is_folder_at(known.music, path);
            let videos = is_folder_at(known.videos, path);
            &&& downloads ==> t == Template::Downloads
            &&& documents && !downloads ==> t == Template::Documents
            &&& pictures && !downloads && !documents ==> t == Template::Pictures
            &&& music && !downloads && !documents && !pictures ==> t == Template::Music
            &&& videos && !downloads && !documents && !pictures && !music ==> t == Template::Videos
            &&& !downloads && !documents && !pictures && !music && !videos ==> {
                &&& folder_type is None ==> t == Template::Generic
                &&& folder_type matches Some(f) ==> t == type_template(f)
            }
        }),
{
}

/// The rank of a template among those that are tried after the folder's own.
pub open spec fn template_rank(t: Template) -> int {
    match t {
        Template::Generic => 0,
        Template::Downloads => 1,
        Template::Documents => 2,
        Template::Pictures => 3,
        Template::Music => 4,
        Template::Videos => 5,
    }
}

/// Behind the folder's own, the templates are always tried in the same order.
pub proof fn law_candidates_keep_order(primary: Template, i: int, j: int)
    requires
        1 <= i < j < candidates(primary).len(),
    ensures
        template_rank(candidates(primary)[i]) < template_rank(candidates(primary)[j]),
{
    law_candidates_cover_templates(primary);
    reveal(Seq::filter);
    reveal_with_fuel(Seq::filter, 8);
    let a = all_templates();
    assert(a.drop_last() =~= seq![
        Template::Generic,
        Template::Downloads,
        Template::Documents,
        Template::Pictures,
        Template::Music,
    ]);
    assert(a.drop_last().drop_last() =~= seq![
        Template::Generic,
        Template::Downloads,
        Template::Documents,
        Template::Pictures,
    ]);
    assert(a.drop_last().drop_last().drop_last() =~= seq![
        Template::Generic,
        Template::Downloads,
        Template::Documents,
    ]);
    assert(a.drop_last().drop_last().drop_last().drop_last() =~= seq![
        Template::Generic,
        Template::Downloads,
    ]);
    assert(a.drop_last().drop_last().drop_last().drop_last().drop_last() =~= seq![
        Template::Generic,
    ]);
    assert(a.drop_last().drop_last().drop_last().drop_last().drop_last().drop_last() =~= seq![]);
}

/// What is written goes to the first candidate that has been written before, and to the folder's
/// own template where none has.
pub proof fn law_target(primary: Template, recorded: Seq<bool>, k: int)
    requires
        recorded.len() == 6,
        0 <= k <= 6,
        forall|i: int| 0 <= i < k ==> !recorded[i],
        k < 6 ==> recorded[k],
    ensures
        k < 6 ==> target_of(primary, recorded) == candidates(primary)[k],
        k == 6 ==> target_of(primary, recorded) == primary,
{
    law_candidates_cover_templates(primary);
    lemma_first_true_is(recorded, k);
}

/// A column is kept in 24 bytes: its format, its number with the low byte first, and 1 for
/// ascending or -1 for descending.
pub proof fn law_column_bytes(c: ColumnView)
    requires
        c.fmtid.data4.len() == 8,
    ensures
        ({
            let b = column_bytes(c);
            &&& b.len() == 24
            &&& b.take(16) == guid::guid_bytes(c.fmtid)
            &&& b[16] + 0x100 * b[17] + 0x1_0000 * b[18] + 0x100_0000 * b[19] == c.pid
            &&& c.ascending ==> b[20] == 1 && b[21] == 0 && b[22] == 0 && b[23] == 0
            &&& !c.ascending ==> b[20] == 255 && b[21] == 255 && b[22] == 255 && b[23] == 255
        }),
{
    guid::law_guid_bytes(c.fmtid);
    guid::law_le32(c.pid, Seq::empty(), 0);
}

/// Sort columns are kept in their order, behind their count with the low byte first.
pub proof fn law_sort_bytes(cols: Seq<ColumnView>, c: ColumnView)
    requires
        cols.len() < 0x1_0000_0000,
    ensures
        ({
            let b = sort_bytes(cols);
            &&& b.len() >= 4
            &&& b[0] + 0x100 * b[1] + 0x1_0000 * b[2] + 0x100_0000 * b[3] == cols.len()
            &&& b.skip(4) == columns_bytes(cols)
        }),
        columns_bytes(Seq::empty()).len() == 0,
        columns_bytes(cols.push(c)) == columns_bytes(cols) + column_bytes(c),
{
    guid::law_le32(cols.len() as u32, Seq::empty(), 0);
    assert(sort_bytes(cols).skip(4) =~= columns_bytes(cols));
    assert(cols.push(c).drop_last() =~= cols);
}

/// The number of four bytes, the low byte first.
pub open spec fn number_at(b: Seq<u8>, i: int) -> int {
    b[i] + 0x100 * b[i + 1] + 0x1_0000 * b[i + 2] + 0x100_0000 * b[i + 3]
}

/// Sort columns are read where their count, at the beginning or behind a header of 16 bytes, is
/// not zero and accounts for every byte that follows.
pub proof fn law_parsed_sort(b: Seq<u8>, k: int)
    ensures
        ({
            let plain = b.len() >= 4 && number_at(b, 0) > 0 && 4 + 24 * number_at(b, 0) == b.len();
            let headed = b.len() >= 20 && number_at(b, 16) > 0 && 20 + 24 * number_at(b, 16)
                == b.len();
            let start = if plain {
                4int
            } else {
                20int
            };
            &&& parsed_sort(b) is Some <==> plain || headed
            &&& parsed_sort(b) matches Some(cols) ==> cols.len() == number_at(b, start - 4) && (0
                <= k < cols.len() ==> {
                let at = start + 24 * k;
                &&& cols[k].pid == number_at(b, at + 16)
                &&& cols[k].ascending <==> number_at(b, at + 20) == 1
                &&& guid::guid_bytes(cols[k].fmtid) == b.subrange(at, at + 16)
            })
        }),
{
    guid::law_le32(0, b, 0);
    guid::law_le32(0, b, 16);
    if parsed_sort(b) is Some {
        let start: int = if has_layout(b, 0) {
            4
        } else {
            20
        };
        let cols = parsed_sort(b)->0;
        if 0 <= k < cols.len() {
            let at = start + 24 * k;
            guid::law_le32(0, b, at + 16);
            guid::law_le32(0, b, at + 20);
            guid::law_guid_gives_bytes_back(b, at);
        }
    }
}

/// What is kept of a group: whether there is one, and if so its format, its number, and 1 for
/// ascending or -1 for descending.
pub proof fn law_group_writes(g: ColumnView)
    ensures
        group_writes(None) == seq![WriteView { name: "GroupView"@, value: BagValueView::U32(0) }],
        ({
            let w = group_writes(Some(g));
            &&& w.len() == 4
            &&& w[0] == (WriteView { name: "GroupView"@, value: BagValueView::U32(1) })
            &&& w[1] == (WriteView {
                name: "GroupByKey:FMTID"@,
                value: BagValueView::Text(guid::guid_text(g.fmtid)),
            })
            &&& w[2] == (WriteView {
                name: "GroupByKey:PID"@,
                value: BagValueView::U32(g.pid),
            })
            &&& w[3].name == "GroupByDirection"@
            &&& g.ascending ==> w[3].value == BagValueView::I32(1)
            &&& !g.ascending ==> w[3].value == BagValueView::I32(-1i32)
        }),
{
}

/// What a record says of the group: nothing where it does not speak of one, none where it says zero
/// or the property cannot be read, and else the property, descending only under a negative
/// direction.
pub proof fn law_recorded_group(rec: GroupRecordView)
    ensures
        rec.view is None ==> recorded_group(rec) is None,
        rec.view == Some(0u32) ==> recorded_group(rec) == Some(None::<ColumnView>),
        rec.view is Some ==> recorded_group(rec) is Some,
        rec.view is Some && rec.view->0 != 0 ==> {
            let g = recorded_group(rec)->0;
            let readable = rec.pid is Some && rec.fmtid is Some && guid::parsed_guid(
                rec.fmtid->0,
            ) is Some;
            &&& g is Some <==> readable
            &&& readable ==> g->0.pid == rec.pid->0 && guid::parsed_guid(rec.fmtid->0) == Some(
                g->0.fmtid,
            )
            &&& readable ==> (g->0.ascending <==> rec.direction is None || rec.direction->0 >= 0)
        },
{
}

/// Sizes and dates begin with the largest and the latest; every other property ascends.
pub proof fn law_default_direction(k: KeyView)
    ensures
        !default_direction(k) <==> k.fmtid == shell_items::storage_format() && (k.pid == 12
            || k.pid == 14 || k.pid == 15),
        name_sort().len() == 1,
        name_sort()[0] == (ColumnView {
            fmtid: shell_items::storage_format(),
            pid: 10,
            ascending: true,
        }),
{
    reveal_strlit("name");
    reveal_strlit("date");
    reveal_strlit("type");
    reveal_strlit("size");
    reveal_strlit("created");
    assert("name"@[0] == 'n' && "type"@[0] == 't' && "size"@[0] == 's' && "date"@[0] == 'd'
        && "created"@[0] == 'c');
}

/// Names of properties are read in their order, and what names none is passed over.
pub proof fn law_tokens_keep_order(tokens: Seq<Seq<char>>, token: Seq<char>)
    ensures
        token_props(Seq::empty()).len() == 0,
        token_prop(token) matches Some(p) ==> token_props(tokens.push(token)) == token_props(
            tokens,
        ).push(p),
        token_prop(token) is None ==> token_props(tokens.push(token)) == token_props(tokens),
{
    assert(tokens.push(token).drop_last() =~= tokens);
}

/// The properties that the system knows become columns in their order; one descends where its name
/// is marked so, or does by itself.
pub proof fn law_known_columns(
    names: Seq<PropNameView>,
    name: PropNameView,
    keys: Seq<Option<KeyView>>,
)
    ensures
        known_columns(Seq::empty(), keys).len() == 0,
        ({
            let before = known_columns(names, keys);
            let now = known_columns(names.push(name), keys);
            &&& keys[names.len() as int] is None ==> now == before
            &&& keys[names.len() as int] matches Some(k) ==> now.len() == before.len() + 1
                && now.drop_last() == before && now.last().fmtid == k.fmtid && now.last().pid
                == k.pid && (now.last().ascending <==> !name.descending && default_direction(k))
        }),
{
    assert(names.push(name).drop_last() =~= names);
}

/// The sort of a folder type is the one that it lists, and by name where it lists none; its group is
/// the one that it names, in the direction that it states, or else in that of the property.
pub proof fn law_type_defaults(
    cols: Seq<ColumnView>,
    k: KeyView,
    descending: bool,
    stated: Option<u32>,
)
    ensures
        default_sort(Some(cols)) == cols,
        default_sort(None) == name_sort(),
        default_group(None, stated) is None,
        ({
            let g = default_group(Some((k, descending)), stated);
            &&& g is Some && g->0.fmtid == k.fmtid && g->0.pid == k.pid
            &&& stated matches Some(d) ==> (g->0.ascending <==> d != 0)
            &&& stated is None ==> (g->0.ascending <==> !descending && default_direction(k))
        }),
{
}

/// The first bag that records a sort or a group decides both; what it leaves open, and all of it
/// where no bag records anything, is as the folder type has it.
pub proof fn law_first_reading_decides(
    before: Seq<ReadingView>,
    b: ReadingView,
    behind: Seq<ReadingView>,
    sort: Seq<ColumnView>,
    group: Option<ColumnView>,
)
    requires
        forall|i: int|
            0 <= i < before.len() ==> (#[trigger] before[i]).sort is None && before[i].group is None,
        b.sort is Some || b.group is Some,
    ensures
        ({
            let e = effective(before + seq![b] + behind, sort, group);
            &&& b.sort matches Some(cols) ==> e.0 == cols
            &&& b.sort is None ==> e.0 == sort
            &&& b.group matches Some(g) ==> e.1 == g
            &&& b.group is None ==> e.1 == group
        }),
        effective(before, sort, group) == (sort, group),
    decreases before.len(),
{
    let all = before + seq![b] + behind;
    if before.len() > 0 {
        assert(all[0] == before[0]);
        assert(before[0].sort is None && before[0].group is None);
        assert(all.drop_first() =~= before.drop_first() + seq![b] + behind);
        assert forall|i: int| 0 <= i < before.drop_first().len() implies (
        #[trigger] before.drop_first()[i]).sort is None && before.drop_first()[i].group is None by {
            assert(before.drop_first()[i] == before[i + 1]);
        }
        law_first_reading_decides(before.drop_first(), b, behind, sort, group);
    } else {
        assert(all[0] == b);
    }
}

/// A sort is written as its bytes, and a group by the name of its column, in that column's own
/// direction.
pub proof fn law_sort_and_group_are_written(c: ColumnView, key: Seq<char>)
    ensures
        sort_writes(c) == seq![
            WriteView { name: "Sort"@, value: BagValueView::Bytes(sort_bytes(seq![c])) },
        ],
        key_group(None) == Some(None::<ColumnView>),
        key_group(Some(key)) is None <==> shell_items::key_property(key) is None,
        shell_items::key_property(key) matches Some(k) ==> {
            let g = key_group(Some(key))->0;
            &&& g is Some && g->0.fmtid == k.fmtid && g->0.pid == k.pid
            &&& g->0.ascending <==> default_direction(k)
        },
{
}

/// A token names a property, between white space and behind the prefix of property names; a dash
/// before the name marks it as descending.
pub proof fn law_token(head: Seq<char>, name: Seq<char>, tail: Seq<char>)
    requires
        name.len() > 0,
        !text::is_white(name[0]) && !text::is_white(name.last()),
        name[0] != '-',
        !text::same_ci(name, "System.Null"@),
        forall|i: int| 0 <= i < head.len() ==> text::is_white(#[trigger] head[i]),
        forall|i: int| 0 <= i < tail.len() ==> text::is_white(#[trigger] tail[i]),
    ensures
        !text::begins(name, "prop:"@) ==> token_prop(head + name + tail) == Some(
            PropNameView { name, descending: false },
        ),
        token_prop(head + ("prop:"@ + name) + tail) == Some(
            PropNameView { name, descending: false },
        ),
        token_prop(head + (seq!['-'] + name) + tail) == Some(
            PropNameView { name, descending: true },
        ),
        token_prop(head + ("prop:"@ + (seq!['-'] + name)) + tail) == Some(
            PropNameView { name, descending: true },
        ),
{
    reveal_strlit("prop:");
    let dashed = seq!['-'] + name;
    assert(dashed[0] == '-' && dashed.last() == name.last());
    assert(dashed.drop_first() =~= name);
    assert(without_dashes(name) == name);
    assert(without_dashes(dashed) == name);
    assert(!text::begins(dashed, "prop:"@)) by {
        if text::begins(dashed, "prop:"@) {
            assert(dashed.take(5)[0] == dashed[0]);
        }
    }
    if !text::begins(name, "prop:"@) {
        lemma_token(head, name, name, name, tail);
    }
    lemma_token(head, "prop:"@ + name, name, name, tail);
    lemma_token(head, dashed, dashed, name, tail);
    lemma_token(head, "prop:"@ + dashed, dashed, name, tail);
}

proof fn lemma_token(
    head: Seq<char>,
    body: Seq<char>,
    marked: Seq<char>,
    name: Seq<char>,
    tail: Seq<char>,
)
    requires
        marked.len() > 0,
        !text::is_white(marked[0]) && !text::is_white(marked.last()),
        body == marked && !text::begins(marked, "prop:"@) || body == "prop:"@ + marked,
        name.len() > 0,
        !text::is_white(name[0]) && !text::is_white(name.last()),
        without_dashes(marked) == name,
        !text::same_ci(name, "System.Null"@),
        forall|i: int| 0 <= i < head.len() ==> text::is_white(#[trigger] head[i]),
        forall|i: int| 0 <= i < tail.len() ==> text::is_white(#[trigger] tail[i]),
    ensures
        token_prop(head + body + tail) == Some(
            PropNameView { name, descending: marked[0] == '-' },
        ),
{
    reveal_strlit("prop:");
    let none = Seq::<char>::empty();
    assert(text::stripped(name) == name) by {
        text::law_stripped(none, name, none);
        assert(none + name + none =~= name);
    }
    assert(without_prop(body) == marked) by {
        if body == "prop:"@ + marked {
            assert(body.take(5) =~= "prop:"@ && body.skip(5) =~= marked);
        }
    }
    assert(text::stripped(head + body + tail) == body) by {
        assert(body.last() == marked.last());
        assert(body == "prop:"@ + marked ==> body[0] == 'p');
        text::law_stripped(head, body, tail);
    }
}

/// White space, and the name that stands for no property, name none.
pub proof fn law_token_names_nothing(s: Seq<char>)
    requires
        forall|i: int| 0 <= i < s.len() ==> text::is_white(#[trigger] s[i]),
    ensures
        token_prop(s) is None,
        token_prop("System.Null"@) is None,
        token_prop("prop:"@ + "System.Null"@) is None,
{
    reveal_strlit("prop:");
    reveal_strlit("System.Null");
    let none = Seq::<char>::empty();
    let w = "System.Null"@;
    text::law_stripped(s, none, none);
    assert(s + none + none =~= s);
    text::law_stripped(none, none, none);
    assert(none + none + none =~= none);
    assert(w.len() == 11 && w[0] == 'S' && w.last() == 'l');
    text::law_stripped(none, w, none);
    assert(none + w + none =~= w);
    let a = "prop:"@ + w;
    assert(a[0] == 'p' && a.last() == 'l');
    text::law_stripped(none, a, none);
    assert(none + a + none =~= a);
    assert(a.take(5) =~= "prop:"@ && a.skip(5) =~= w);
    text::law_same_up_to_case(w, w);
    if text::begins(w, "prop:"@) {
        assert(w.take(5)[0] == w[0]);
    }
}

} // verus!
