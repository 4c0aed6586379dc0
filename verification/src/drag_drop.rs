//! Drag and drop: which effect a drop has, what the drag image says, and how the state of a
//! drag session changes with each event.

use vstd::prelude::*;

use crate::text::{
    self, chars_of, eq_ignore_case, find_last, lower_char, non_empty, str_eq, text_or_empty,
    trim_backslashes,
};
use crate::wide::{self, encode};

verus! {

pub const DROPEFFECT_NONE: u32 = 0;

pub const DROPEFFECT_COPY: u32 = 1;

pub const DROPEFFECT_MOVE: u32 = 2;

pub const DROPEFFECT_LINK: u32 = 4;

pub const DROPIMAGE_INVALID: i32 = -1;

pub const DROPIMAGE_COPY: i32 = 1;

pub const DROPIMAGE_MOVE: i32 = 2;

pub const DROPIMAGE_LINK: i32 = 4;

pub const MK_SHIFT: u32 = 0x4;

pub const MK_CONTROL: u32 = 0x8;

pub const MK_ALT: u32 = 0x20;

// ----- state -----

/// What lies under the pointer during a drag.
pub struct DropTargetInfo {
    /// "item", "background" or "pin".
    pub kind: String,
    pub parse_path: String,
    pub fs_path: Option<String>,
    pub name: String,
    /// The target is a file that acts as a container (a zip or cab): items are only ever copied
    /// into it.
    pub is_container_file: bool,
}

#[verifier::ext_equal]
pub struct TargetView {
    pub kind: Seq<char>,
    pub parse_path: Seq<char>,
    pub fs_path: Option<Seq<char>>,
    pub name: Seq<char>,
    pub is_container_file: bool,
}

impl View for DropTargetInfo {
    type V = TargetView;

    open spec fn view(&self) -> TargetView {
        TargetView {
            kind: self.kind@,
            parse_path: self.parse_path@,
            fs_path: text::opt_view(self.fs_path),
            name: self.name@,
            is_container_file: self.is_container_file,
        }
    }
}

/// One dragged item.
pub struct SourceInfo {
    pub parse_path: String,
    pub fs_path: Option<String>,
    /// A real folder (a zip is none): only these can be pinned to quick access.
    pub is_dir: bool,
}

#[verifier::ext_equal]
pub struct SourceView {
    pub parse_path: Seq<char>,
    pub fs_path: Option<Seq<char>>,
    pub is_dir: bool,
}

impl View for SourceInfo {
    type V = SourceView;

    open spec fn view(&self) -> SourceView {
        SourceView {
            parse_path: self.parse_path@,
            fs_path: text::opt_view(self.fs_path),
            is_dir: self.is_dir,
        }
    }
}

/// What the drag image shows: a picture, a message, and the name put in for `%1`.
pub struct Description {
    pub image: i32,
    pub message: String,
    pub insert: String,
}

#[verifier::ext_equal]
pub struct DescriptionView {
    pub image: i32,
    pub message: Seq<char>,
    pub insert: Seq<char>,
}

impl View for Description {
    type V = DescriptionView;

    open spec fn view(&self) -> DescriptionView {
        DescriptionView { image: self.image, message: self.message@, insert: self.insert@ }
    }
}

/// The state that the events of a drag share.
pub struct DragState {
    pub target: Option<DropTargetInfo>,
    pub sources: Vec<SourceInfo>,
    /// The effects that the source allows; 0 where they are not known.
    pub allowed: u32,
    /// The description shown last, so that it is not set twice.
    pub last_desc: Option<Description>,
    /// A drag that this application started is under way.
    pub in_progress: bool,
}

#[verifier::ext_equal]
pub struct DragView {
    pub target: Option<TargetView>,
    pub sources: Seq<SourceView>,
    pub allowed: u32,
    pub last_desc: Option<DescriptionView>,
    pub in_progress: bool,
}

pub open spec fn target_view(t: Option<DropTargetInfo>) -> Option<TargetView> {
    match t {
        Some(t) => Some(t@),
        None => None,
    }
}

pub open spec fn description_view(d: Option<Description>) -> Option<DescriptionView> {
    match d {
        Some(d) => Some(d@),
        None => None,
    }
}

pub open spec fn source_views(v: Seq<SourceInfo>) -> Seq<SourceView> {
    v.map_values(|s: SourceInfo| s@)
}

impl View for DragState {
    type V = DragView;

    open spec fn view(&self) -> DragView {
        DragView {
            target: target_view(self.target),
            sources: source_views(self.sources@),
            allowed: self.allowed,
            last_desc: description_view(self.last_desc),
            in_progress: self.in_progress,
        }
    }
}

/// The state before any drag.
pub open spec fn idle() -> DragView {
    DragView {
        target: None,
        sources: Seq::empty(),
        allowed: 0,
        last_desc: None,
        in_progress: false,
    }
}

impl Default for DragState {
    fn default() -> (r: DragState)
        ensures
            r@ == idle(),
    {
        let r = DragState {
            target: None,
            sources: Vec::new(),
            allowed: 0,
            last_desc: None,
            in_progress: false,
        };
        assert(r@ =~= idle());
        r
    }
}

fn copy_description(d: &Description) -> (r: Description)
    ensures
        r@ == d@,
{
    Description { image: d.image, message: d.message.clone(), insert: d.insert.clone() }
}

// ----- paths -----

/// One path of a chain of ancestors, as the file system answers for it.
#[derive(Clone, Copy)]
pub struct PathProbe {
    pub is_file: bool,
    pub exists: bool,
}

/// What one probe settles: whether a file was found, or nothing where the parent has to be asked.
pub fn probe_verdict(p: &PathProbe) -> (r: Option<bool>)
    ensures
        r == (if p.is_file {
            Some(true)
        } else if p.exists {
            Some(false)
        } else {
            None
        }),
{
    if p.is_file {
        Some(true)
    } else if p.exists {
        Some(false)
    } else {
        None
    }
}

/// Whether the first path of the chain that exists at all is a file. The chain starts with a path
/// and climbs from parent to parent.
pub open spec fn through_file(probes: Seq<PathProbe>) -> bool {
    exists|i: int|
        #![trigger probes[i]]
        0 <= i < probes.len() && probes[i].is_file && forall|j: int|
            #![trigger probes[j]]
            0 <= j < i ==> !probes[j].is_file && !probes[j].exists
}

/// Whether a path is, or lies in, a real file: what tells a path inside a zip.
pub fn has_file_component(probes: &[PathProbe]) -> (r: bool)
    ensures
        r == through_file(probes@),
{
    let mut i: usize = 0;
    while i < probes.len()
        invariant
            i <= probes.len(),
            forall|j: int|
                #![trigger probes@[j]]
                0 <= j < i ==> !probes@[j].is_file && !probes@[j].exists,
        decreases probes.len() - i,
    {
        match probe_verdict(&probes[i]) {
            Some(found) => {
                assert(found ==> probes@[i as int].is_file);
                assert(!found ==> !probes@[i as int].is_file && probes@[i as int].exists);
                return found;
            },
            None => (),
        }
        i += 1;
    }
    false
}

/// Whether two paths are equal up to the case of ASCII letters.
pub fn eq_ci(a: &str, b: &str) -> (r: bool)
    ensures
        r == text::same_ci(a@, b@),
{
    eq_ignore_case(a, b)
}

/// Whether `child` lies inside `ancestor`: it continues it, up to case, with a backslash.
pub open spec fn inside(child: Seq<char>, ancestor: Seq<char>) -> bool {
    let a = text::trimmed(ancestor);
    &&& 0 < a.len() < child.len()
    &&& text::same_ci(child.take(a.len() as int), a)
    &&& child[a.len() as int] == '\\'
}

/// Whether `child` lies inside `ancestor`.
pub fn is_descendant(child: &str, ancestor: &str) -> (r: bool)
    ensures
        r == inside(child@, ancestor@),
{
    let anc = trim_backslashes(ancestor);
    let k = anc.unicode_len();
    let n = child.unicode_len();
    if k == 0 || n <= k {
        return false;
    }
    eq_ci(child.substring_char(0, k), anc) && child.get_char(k) == '\\'
}

/// The name of a drive: one ASCII character and a colon.
pub open spec fn is_drive_name(p: Seq<char>) -> bool {
    p.len() == 2 && (p[0] as u32) < 0x80 && p[1] == ':'
}

fn drive_name(p: &str) -> (r: bool)
    ensures
        r == is_drive_name(p@),
{
    p.unicode_len() == 2 && (p.get_char(0) as u32) < 0x80 && p.get_char(1) == ':'
}

/// The folder that a path lies in; the root of a drive keeps its backslash.
pub open spec fn folder_of(child: Seq<char>) -> Option<Seq<char>> {
    let k = text::last_index(text::trimmed(child), '\\');
    if k < 0 {
        None
    } else if is_drive_name(child.take(k)) {
        Some(child.take(k + 1))
    } else {
        Some(child.take(k))
    }
}

/// Whether `parent` is the folder that `child` lies in.
pub open spec fn lies_in(child: Seq<char>, parent: Seq<char>) -> bool {
    folder_of(child) matches Some(dir) && (text::same_ci(dir, text::trimmed(parent)) || text::same_ci(dir, parent))
}

/// Whether `parent` is the folder that `child` lies in.
pub fn parent_eq(child: &str, parent: &str) -> (r: bool)
    ensures
        r == lies_in(child@, parent@),
{
    let t = trim_backslashes(child);
    let v = chars_of(t);
    proof {
        text::lemma_trimmed(child@);
    }
    match find_last(v.as_slice(), '\\') {
        Some(i) => {
            let short = child.substring_char(0, i);
            assert(short@ =~= child@.take(i as int));
            let dir = if drive_name(short) {
                child.substring_char(0, i + 1)
            } else {
                short
            };
            assert(Some(dir@) =~= folder_of(child@));
            eq_ci(dir, trim_backslashes(parent)) || eq_ci(dir, parent)
        },
        None => false,
    }
}

/// The path by which a source counts: in the file system where it has one there.
pub open spec fn own_path(s: SourceView) -> Seq<char> {
    match s.fs_path {
        Some(p) => p,
        None => s.parse_path,
    }
}

/// Whether a source is a whole drive.
pub open spec fn drive_root(s: SourceView) -> bool {
    is_drive_name(text::trimmed(own_path(s)))
}

/// Whether a source is a whole drive.
pub fn is_drive_root(s: &SourceInfo) -> (r: bool)
    ensures
        r == drive_root(s@),
{
    let p: &str = match &s.fs_path {
        Some(p) => p.as_str(),
        None => s.parse_path.as_str(),
    };
    drive_name(trim_backslashes(p))
}

/// Whether two paths begin with the same drive letter.
pub open spec fn on_same_volume(a: Seq<char>, b: Seq<char>) -> bool {
    &&& a.len() >= 2 && is_drive_name(a.take(2))
    &&& b.len() >= 2 && is_drive_name(b.take(2))
    &&& text::ascii_lower(a[0]) == text::ascii_lower(b[0])
}

/// Whether two paths begin with the same drive letter.
pub fn same_volume(a: &str, b: &str) -> (r: bool)
    ensures
        r == on_same_volume(a@, b@),
{
    if a.unicode_len() < 2 || b.unicode_len() < 2 {
        return false;
    }
    drive_name(a.substring_char(0, 2)) && drive_name(b.substring_char(0, 2)) && lower_char(
        a.get_char(0),
    ) == lower_char(b.get_char(0))
}

// ----- effects -----

/// The effect that is wanted where it is allowed, else the first allowed of copy, move, link.
pub open spec fn picked(want: u32, allowed: u32) -> u32 {
    if want & allowed != 0 {
        want
    } else if DROPEFFECT_COPY & allowed != 0 {
        DROPEFFECT_COPY
    } else if DROPEFFECT_MOVE & allowed != 0 {
        DROPEFFECT_MOVE
    } else if DROPEFFECT_LINK & allowed != 0 {
        DROPEFFECT_LINK
    } else {
        DROPEFFECT_NONE
    }
}

/// The effect that is wanted where it is allowed, else the first allowed of copy, move, link.
pub fn pick(want: u32, allowed: u32) -> (r: u32)
    ensures
        r == picked(want, allowed),
{
    if want & allowed != DROPEFFECT_NONE {
        want
    } else if DROPEFFECT_COPY & allowed != DROPEFFECT_NONE {
        DROPEFFECT_COPY
    } else if DROPEFFECT_MOVE & allowed != DROPEFFECT_NONE {
        DROPEFFECT_MOVE
    } else if DROPEFFECT_LINK & allowed != DROPEFFECT_NONE {
        DROPEFFECT_LINK
    } else {
        DROPEFFECT_NONE
    }
}

/// The effects that the source allows: any, where it said nothing.
pub open spec fn allowance(st: DragView) -> u32 {
    if st.allowed == 0 {
        u32::MAX
    } else {
        st.allowed
    }
}

pub open spec fn is_pin(t: TargetView) -> bool {
    t.kind == "pin"@
}

/// Whether a path of the source forbids the same kind of path of the target: it is the same
/// place, or the target lies inside the source.
pub open spec fn encloses(source: Seq<char>, target: Seq<char>) -> bool {
    text::same_ci(source, target) || inside(target, source)
}

/// Whether a source must not be dropped on the target: onto itself or into what it holds.
pub open spec fn blocked(s: SourceView, t: TargetView) -> bool {
    ||| s.parse_path.len() > 0 && encloses(s.parse_path, t.parse_path)
    ||| s.fs_path is Some && t.fs_path is Some && encloses(s.fs_path->0, t.fs_path->0)
}

pub open spec fn any_blocked(sources: Seq<SourceView>, t: TargetView) -> bool {
    exists|i: int| 0 <= i < sources.len() && blocked(#[trigger] sources[i], t)
}

pub open spec fn all_dirs(sources: Seq<SourceView>) -> bool {
    forall|i: int| 0 <= i < sources.len() ==> (#[trigger] sources[i]).is_dir
}

pub open spec fn any_drive(sources: Seq<SourceView>) -> bool {
    exists|i: int| 0 <= i < sources.len() && drive_root(#[trigger] sources[i])
}

pub open spec fn any_virtual(sources: Seq<SourceView>) -> bool {
    exists|i: int| 0 <= i < sources.len() && (#[trigger] sources[i]).fs_path is None
}

pub open spec fn all_on_volume(sources: Seq<SourceView>, tf: Seq<char>) -> bool {
    forall|i: int|
        0 <= i < sources.len() ==> ((#[trigger] sources[i]).fs_path matches Some(sf)
            && on_same_volume(sf, tf))
}

pub open spec fn all_in_folder(sources: Seq<SourceView>, tf: Seq<char>) -> bool {
    forall|i: int|
        0 <= i < sources.len() ==> ((#[trigger] sources[i]).fs_path matches Some(sf) && lies_in(
            sf,
            tf,
        ))
}

/// The effect of a drop with no modifier key held.
pub open spec fn default_effect(sources: Seq<SourceView>, t: TargetView) -> u32 {
    if sources.len() == 0 {
        DROPEFFECT_COPY
    } else if any_drive(sources) {
        DROPEFFECT_LINK
    } else if any_virtual(sources) {
        DROPEFFECT_COPY
    } else if t.fs_path matches Some(tf) && all_on_volume(sources, tf) {
        DROPEFFECT_MOVE
    } else {
        DROPEFFECT_COPY
    }
}

/// The effect that the modifier keys ask for.
pub open spec fn keyed_effect(keys: u32, sources: Seq<SourceView>, t: TargetView) -> u32 {
    let ctrl = keys & MK_CONTROL != 0;
    let shift = keys & MK_SHIFT != 0;
    let alt = keys & MK_ALT != 0;
    if alt || (ctrl && shift) {
        DROPEFFECT_LINK
    } else if ctrl {
        DROPEFFECT_COPY
    } else if shift {
        DROPEFFECT_MOVE
    } else {
        default_effect(sources, t)
    }
}

/// The effect that is wanted of a drop on the target: always a copy into a container file, else
/// what the keys ask for.
pub open spec fn wanted_effect(keys: u32, sources: Seq<SourceView>, t: TargetView) -> u32 {
    if t.is_container_file {
        DROPEFFECT_COPY
    } else {
        keyed_effect(keys, sources, t)
    }
}

/// Whether the move would leave every source where it is.
pub open spec fn moves_nothing(sources: Seq<SourceView>, t: TargetView) -> bool {
    sources.len() > 0 && (t.fs_path matches Some(tf) && all_in_folder(sources, tf))
}

/// The effect of a drop, given the modifier keys.
pub open spec fn effect_of(keys: u32, st: DragView) -> u32 {
    match st.target {
        None => DROPEFFECT_NONE,
        Some(t) => if is_pin(t) {
            if st.sources.len() == 0 || !all_dirs(st.sources) {
                DROPEFFECT_NONE
            } else {
                picked(DROPEFFECT_LINK, allowance(st))
            }
        } else if any_blocked(st.sources, t) {
            DROPEFFECT_NONE
        } else {
            let e = wanted_effect(keys, st.sources, t);
            if e == DROPEFFECT_MOVE && moves_nothing(st.sources, t) {
                DROPEFFECT_NONE
            } else {
                picked(e, allowance(st))
            }
        },
    }
}

fn check_all_dirs(v: &Vec<SourceInfo>) -> (r: bool)
    ensures
        r == all_dirs(source_views(v@)),
{
    let ghost views = source_views(v@);
    let mut i: usize = 0;
    while i < v.len()
        invariant
            i <= v.len(),
            views == source_views(v@),
            forall|j: int| 0 <= j < i ==> (#[trigger] views[j]).is_dir,
        decreases v.len() - i,
    {
        assert(views[i as int] == v@[i as int]@);
        if !v[i].is_dir {
            return false;
        }
        i += 1;
    }
    true
}

fn check_blocked(s: &SourceInfo, t: &DropTargetInfo) -> (r: bool)
    ensures
        r == blocked(s@, t@),
{
    if !s.parse_path.as_str().is_empty() && (eq_ci(s.parse_path.as_str(), t.parse_path.as_str())
        || is_descendant(t.parse_path.as_str(), s.parse_path.as_str())) {
        return true;
    }
    match (&s.fs_path, &t.fs_path) {
        (Some(sf), Some(tf)) => eq_ci(sf.as_str(), tf.as_str()) || is_descendant(
            tf.as_str(),
            sf.as_str(),
        ),
        _ => false,
    }
}

fn check_any_blocked(v: &Vec<SourceInfo>, t: &DropTargetInfo) -> (r: bool)
    ensures
        r == any_blocked(source_views(v@), t@),
{
    let ghost views = source_views(v@);
    let mut i: usize = 0;
    while i < v.len()
        invariant
            i <= v.len(),
            views == source_views(v@),
            forall|j: int| 0 <= j < i ==> !blocked(#[trigger] views[j], t@),
        decreases v.len() - i,
    {
        assert(views[i as int] == v@[i as int]@);
        if check_blocked(&v[i], t) {
            return true;
        }
        i += 1;
    }
    false
}

fn check_any_drive(v: &Vec<SourceInfo>) -> (r: bool)
    ensures
        r == any_drive(source_views(v@)),
{
    let ghost views = source_views(v@);
    let mut i: usize = 0;
    while i < v.len()
        invariant
            i <= v.len(),
            views == source_views(v@),
            forall|j: int| 0 <= j < i ==> !drive_root(#[trigger] views[j]),
        decreases v.len() - i,
    {
        assert(views[i as int] == v@[i as int]@);
        if is_drive_root(&v[i]) {
            return true;
        }
        i += 1;
    }
    false
}

fn check_any_virtual(v: &Vec<SourceInfo>) -> (r: bool)
    ensures
        r == any_virtual(source_views(v@)),
{
    let ghost views = source_views(v@);
    let mut i: usize = 0;
    while i < v.len()
        invariant
            i <= v.len(),
            views == source_views(v@),
            forall|j: int| 0 <= j < i ==> (#[trigger] views[j]).fs_path is Some,
        decreases v.len() - i,
    {
        assert(views[i as int] == v@[i as int]@);
        if v[i].fs_path.is_none() {
            return true;
        }
        i += 1;
    }
    false
}

fn check_all_on_volume(v: &Vec<SourceInfo>, tf: &str) -> (r: bool)
    ensures
        r == all_on_volume(source_views(v@), tf@),
{
    let ghost views = source_views(v@);
    let mut i: usize = 0;
    while i < v.len()
        invariant
            i <= v.len(),
            views == source_views(v@),
            forall|j: int|
                0 <= j < i ==> ((#[trigger] views[j]).fs_path matches Some(sf) && on_same_volume(
                    sf,
                    tf@,
                )),
        decreases v.len() - i,
    {
        assert(views[i as int] == v@[i as int]@);
        let same = match &v[i].fs_path {
            Some(sf) => same_volume(sf.as_str(), tf),
            None => false,
        };
        if !same {
            return false;
        }
        i += 1;
    }
    true
}

fn check_all_in_folder(v: &Vec<SourceInfo>, tf: &str) -> (r: bool)
    ensures
        r == all_in_folder(source_views(v@), tf@),
{
    let ghost views = source_views(v@);
    let mut i: usize = 0;
    while i < v.len()
        invariant
            i <= v.len(),
            views == source_views(v@),
            forall|j: int|
                0 <= j < i ==> ((#[trigger] views[j]).fs_path matches Some(sf) && lies_in(
                    sf,
                    tf@,
                )),
        decreases v.len() - i,
    {
        assert(views[i as int] == v@[i as int]@);
        let same = match &v[i].fs_path {
            Some(sf) => parent_eq(sf.as_str(), tf),
            None => false,
        };
        if !same {
            return false;
        }
        i += 1;
    }
    true
}

/// The effect of dropping the current sources on the current target, as Explorer decides it.
pub fn compute_effect(keys: u32, st: &DragState) -> (r: u32)
    ensures
        r == effect_of(keys, st@),
{
    let t = match &st.target {
        Some(t) => t,
        None => return DROPEFFECT_NONE,
    };
    let allowed: u32 = if st.allowed == 0 {
        u32::MAX
    } else {
        st.allowed
    };
    if str_eq(t.kind.as_str(), "pin") {
        if st.sources.is_empty() || !check_all_dirs(&st.sources) {
            return DROPEFFECT_NONE;
        }
        return pick(DROPEFFECT_LINK, allowed);
    }
    if check_any_blocked(&st.sources, t) {
        return DROPEFFECT_NONE;
    }
    let ctrl = keys & MK_CONTROL != 0;
    let shift = keys & MK_SHIFT != 0;
    let alt = keys & MK_ALT != 0;
    let eff: u32 = if t.is_container_file {
        // A zip or cab is only ever copied into, whatever keys are held.
        DROPEFFECT_COPY
    } else if alt || (ctrl && shift) {
        DROPEFFECT_LINK
    } else if ctrl {
        DROPEFFECT_COPY
    } else if shift {
        DROPEFFECT_MOVE
    } else if st.sources.is_empty() {
        // A source whose paths cannot be read, such as a mail attachment.
        DROPEFFECT_COPY
    } else if check_any_drive(&st.sources) {
        // Dragging a drive makes a shortcut.
        DROPEFFECT_LINK
    } else if check_any_virtual(&st.sources) {
        DROPEFFECT_COPY
    } else {
        let same = match &t.fs_path {
            Some(tf) => check_all_on_volume(&st.sources, tf.as_str()),
            None => false,
        };
        if same {
            DROPEFFECT_MOVE
        } else {
            DROPEFFECT_COPY
        }
    };
    assert(eff == wanted_effect(keys, st@.sources, t@));
    if eff == DROPEFFECT_MOVE && !st.sources.is_empty() {
        let stays = match &t.fs_path {
            Some(tf) => check_all_in_folder(&st.sources, tf.as_str()),
            None => false,
        };
        if stays {
            return DROPEFFECT_NONE;
        }
    }
    pick(eff, allowed)
}

// ----- what the drag image says -----

/// No description at all.
pub open spec fn no_description() -> DescriptionView {
    DescriptionView { image: DROPIMAGE_INVALID, message: Seq::empty(), insert: Seq::empty() }
}

/// What the drag image says for an effect on the target.
pub open spec fn description_of(eff: u32, target: Option<TargetView>) -> DescriptionView {
    match target {
        None => no_description(),
        Some(t) => if eff == DROPEFFECT_NONE || t.name.len() == 0 {
            no_description()
        } else if is_pin(t) {
            DescriptionView { image: DROPIMAGE_LINK, message: "固定到 %1"@, insert: t.name }
        } else if eff == DROPEFFECT_MOVE {
            DescriptionView { image: DROPIMAGE_MOVE, message: "移动到 %1"@, insert: t.name }
        } else if eff == DROPEFFECT_COPY {
            DescriptionView { image: DROPIMAGE_COPY, message: "复制到 %1"@, insert: t.name }
        } else if eff == DROPEFFECT_LINK {
            DescriptionView { image: DROPIMAGE_LINK, message: "在 %1 中创建链接"@, insert: t.name }
        } else {
            no_description()
        },
    }
}

fn empty_description() -> (r: Description)
    ensures
        r@ == no_description(),
{
    Description { image: DROPIMAGE_INVALID, message: String::new(), insert: String::new() }
}

/// What the drag image says for an effect on the current target.
pub fn desc_for(eff: u32, st: &DragState) -> (r: Description)
    ensures
        r@ == description_of(eff, st@.target),
{
    let t = match &st.target {
        Some(t) => t,
        None => return empty_description(),
    };
    if eff == DROPEFFECT_NONE || t.name.as_str().is_empty() {
        return empty_description();
    }
    let insert = t.name.clone();
    if str_eq(t.kind.as_str(), "pin") {
        return Description { image: DROPIMAGE_LINK, message: "固定到 %1".to_owned(), insert };
    }
    if eff == DROPEFFECT_MOVE {
        Description { image: DROPIMAGE_MOVE, message: "移动到 %1".to_owned(), insert }
    } else if eff == DROPEFFECT_COPY {
        Description { image: DROPIMAGE_COPY, message: "复制到 %1".to_owned(), insert }
    } else if eff == DROPEFFECT_LINK {
        Description { image: DROPIMAGE_LINK, message: "在 %1 中创建链接".to_owned(), insert }
    } else {
        empty_description()
    }
}

/// Whether two descriptions say the same.
fn same_description(a: &Description, b: &Description) -> (r: bool)
    ensures
        r == (a@ == b@),
{
    let r = a.image == b.image && str_eq(a.message.as_str(), b.message.as_str()) && str_eq(
        a.insert.as_str(),
        b.insert.as_str(),
    );
    assert(r ==> a@ =~= b@);
    r
}

/// Notes that a description is wanted, and gives it back where it differs from the last one and so
/// has to be set.
pub fn set_drop_description(st: &mut DragState, d: Description) -> (r: Option<Description>)
    ensures
        final(st)@ == (DragView { last_desc: Some(d@), ..old(st)@ }),
        description_view(r) == (if old(st)@.last_desc == Some(d@) {
            None
        } else {
            Some(d@)
        }),
{
    let known = match &st.last_desc {
        Some(last) => same_description(last, &d),
        None => false,
    };
    if known {
        proof {
            assert(st@ =~= (DragView { last_desc: Some(d@), ..st@ }));
        }
        return None;
    }
    let ghost before = st@;
    st.last_desc = Some(copy_description(&d));
    assert(st@ =~= (DragView { last_desc: Some(d@), ..before }));
    Some(d)
}

/// A text as 260 code units: at most 259 of its own, zeros behind them.
pub open spec fn fixed_text(s: Seq<char>) -> Seq<u16> {
    Seq::new(
        260,
        |i: int|
            if i < 259 && i < wide::utf16(s).len() {
                wide::utf16(s)[i]
            } else {
                0
            },
    )
}

/// A text as the 260 code units of a drop description field.
pub fn wstr260(s: &str) -> (r: [u16; 260])
    ensures
        r@ == fixed_text(s@),
{
    let u = encode(s);
    let mut dst: [u16; 260] = [0u16; 260];
    let mut i: usize = 0;
    while i < 259 && i < u.len()
        invariant
            i <= 259,
            i <= u.len(),
            u@ == wide::utf16(s@),
            dst@.len() == 260,
            forall|j: int| 0 <= j < i ==> dst@[j] == u@[j],
            forall|j: int| i <= j < 260 ==> dst@[j] == 0,
        decreases 259 - i,
    {
        dst[i] = u[i];
        i += 1;
    }
    assert(dst@ =~= fixed_text(s@));
    dst
}

// ----- what is dragged -----

/// What the shell says of one dragged item.
pub struct RawSource {
    pub fs_name: Option<String>,
    pub parse_name: Option<String>,
    /// Whether the file system name leads to a folder.
    pub fs_is_dir: bool,
}

/// The source that the names of an item make: an empty name counts as none.
pub open spec fn source_of(raw: RawSource) -> SourceView {
    let fs = text::filled(text::opt_view(raw.fs_name));
    SourceView {
        parse_path: text::or_empty(text::filled(text::opt_view(raw.parse_name))),
        fs_path: fs,
        is_dir: fs is Some && raw.fs_is_dir,
    }
}

/// The sources of a shell item array.
pub fn sources_from_array(items: Vec<RawSource>) -> (r: Vec<SourceInfo>)
    ensures
        source_views(r@) == items@.map_values(|x: RawSource| source_of(x)),
{
    let mut out: Vec<SourceInfo> = Vec::new();
    let ghost all = items@;
    for raw in it: items
        invariant
            it.seq() == all,
            source_views(out@) == all.take(it.index()).map_values(|x: RawSource| source_of(x)),
    {
        let ghost before = out@;
        let ghost x = raw;
        let fs_path = non_empty(raw.fs_name);
        let is_dir = fs_path.is_some() && raw.fs_is_dir;
        let parse_path = text_or_empty(non_empty(raw.parse_name));
        out.push(SourceInfo { parse_path, fs_path, is_dir });
        proof {
            assert(out@.last()@ =~= source_of(x));
            assert(source_views(out@) =~= source_views(before).push(source_of(x)));
            assert(all.take(it.index() + 1).map_values(|x: RawSource| source_of(x)) =~= all.take(
                it.index(),
            ).map_values(|x: RawSource| source_of(x)).push(source_of(x)));
        }
    }
    assert(all.take(all.len() as int) =~= all);
    out
}

/// One file of a dropped file list, as text, and whether it is a folder.
pub struct DroppedFile {
    pub path: String,
    pub is_dir: bool,
}

pub open spec fn file_source(f: DroppedFile) -> SourceView {
    SourceView { parse_path: f.path@, fs_path: Some(f.path@), is_dir: f.is_dir }
}

/// The sources of a dropped file list: the files with a path.
pub open spec fn file_sources(files: Seq<DroppedFile>) -> Seq<SourceView>
    decreases files.len(),
{
    if files.len() == 0 {
        Seq::empty()
    } else if files.last().path@.len() == 0 {
        file_sources(files.drop_last())
    } else {
        file_sources(files.drop_last()).push(file_source(files.last()))
    }
}

/// Whether the item array alone tells the sources, so that the file list need not be asked.
pub fn array_suffices(array: &Option<Vec<SourceInfo>>) -> (r: bool)
    ensures
        r == (array matches Some(v) && v@.len() > 0),
{
    match array {
        Some(v) => !v.is_empty(),
        None => false,
    }
}

/// The sources of a data object: those of its item array where it has any, else those of its file
/// list.
pub fn extract_sources(array: Option<Vec<SourceInfo>>, files: Vec<DroppedFile>) -> (r: Vec<
    SourceInfo,
>)
    ensures
        source_views(r@) == (match array {
            Some(v) if v@.len() > 0 => source_views(v@),
            _ => file_sources(files@),
        }),
{
    if let Some(v) = array {
        if !v.is_empty() {
            return v;
        }
    }
    let mut out: Vec<SourceInfo> = Vec::new();
    let ghost all = files@;
    assert(source_views(out@) =~= file_sources(all.take(0)));
    for f in it: files
        invariant
            it.seq() == all,
            source_views(out@) == file_sources(all.take(it.index())),
    {
        let ghost before = out@;
        let ghost x = f;
        assert(all.take(it.index() + 1).drop_last() =~= all.take(it.index()));
        if !f.path.as_str().is_empty() {
            let path = f.path.clone();
            out.push(SourceInfo { parse_path: path, fs_path: Some(f.path), is_dir: f.is_dir });
            assert(out@.last()@ =~= file_source(x));
            assert(source_views(out@) =~= source_views(before).push(file_source(x)));
        }
    }
    assert(all.take(all.len() as int) =~= all);
    out
}

// ----- events -----

/// Takes the result of the front end's hit test. `probes` are the answers of the file system for
/// the target's path and its ancestors.
pub fn update_drop_target(
    st: &mut DragState,
    kind: String,
    parse_path: String,
    fs_path: Option<String>,
    name: String,
    probes: &[PathProbe],
)
    ensures
        final(st)@ == (DragView {
            target: if kind@ == "none"@ {
                None
            } else {
                Some(
                    TargetView {
                        kind: kind@,
                        parse_path: parse_path@,
                        fs_path: text::opt_view(fs_path),
                        name: name@,
                        is_container_file: fs_path is Some && through_file(probes@),
                    },
                )
            },
            ..old(st)@
        }),
{
    let ghost before = st@;
    if str_eq(kind.as_str(), "none") {
        st.target = None;
        assert(st@ =~= (DragView { target: None, ..before }));
    } else {
        let is_container_file = fs_path.is_some() && has_file_component(probes);
        let t = DropTargetInfo { kind, parse_path, fs_path, name, is_container_file };
        let ghost tv = t@;
        st.target = Some(t);
        assert(st@ =~= (DragView { target: Some(tv), ..before }));
    }
}

/// Whether a drag of `paths` may start; it then counts as under way.
pub fn begin_drag(st: &mut DragState, paths: &Vec<String>) -> (r: bool)
    ensures
        r == (paths@.len() > 0 && !old(st)@.in_progress),
        final(st)@ == (DragView { in_progress: old(st)@.in_progress || paths@.len() > 0, ..old(
            st,
        )@ }),
{
    let ghost before = st@;
    if paths.is_empty() {
        assert(st@ =~= (DragView { in_progress: before.in_progress, ..before }));
        return false;
    }
    let was = st.in_progress;
    st.in_progress = true;
    assert(st@ =~= (DragView { in_progress: true, ..before }));
    !was
}

/// Takes the sources of a drag that this application starts.
pub fn prepare_drag(st: &mut DragState, sources: Vec<SourceInfo>)
    ensures
        final(st)@ == (DragView {
            target: None,
            sources: source_views(sources@),
            last_desc: None,
            ..old(st)@
        }),
{
    let ghost before = st@;
    let ghost views = source_views(sources@);
    st.sources = sources;
    st.target = None;
    st.last_desc = None;
    assert(st@ =~= (DragView { target: None, sources: views, last_desc: None, ..before }));
}

/// Ends a drag that this application started.
pub fn finish_drag(st: &mut DragState)
    ensures
        final(st)@ == idle(),
{
    st.sources = Vec::new();
    st.target = None;
    st.last_desc = None;
    st.allowed = 0;
    st.in_progress = false;
    assert(st@ =~= idle());
}

/// Takes back the start of a drag that could not be handed to the main thread.
pub fn abort_drag(st: &mut DragState)
    ensures
        final(st)@ == (DragView { in_progress: false, ..old(st)@ }),
{
    let ghost before = st@;
    st.in_progress = false;
    assert(st@ =~= (DragView { in_progress: false, ..before }));
}

/// The state after a drag has entered: the sources that this application noted itself stay.
pub open spec fn entered(st: DragView, allowed: u32, found: Seq<SourceView>) -> DragView {
    DragView {
        allowed,
        sources: if st.in_progress && st.sources.len() > 0 {
            st.sources
        } else {
            found
        },
        last_desc: None,
        ..st
    }
}

/// A drag enters the window; gives its effect.
pub fn drag_enter(st: &mut DragState, allowed: u32, found: Vec<SourceInfo>, keys: u32) -> (r: u32)
    ensures
        final(st)@ == entered(old(st)@, allowed, source_views(found@)),
        r == effect_of(keys, final(st)@),
{
    let ghost before = st@;
    let ghost views = source_views(found@);
    st.allowed = allowed;
    if !st.in_progress || st.sources.is_empty() {
        st.sources = found;
    }
    st.last_desc = None;
    assert(st@ =~= entered(before, allowed, views));
    compute_effect(keys, st)
}

/// What a pointer move calls for: the effect, and the description where it has to be set.
pub struct OverStep {
    pub effect: u32,
    pub describe: Option<Description>,
}

/// The pointer moves over the window during a drag. `has_data` tells whether the data object of
/// the drag is at hand, which carries the description.
pub fn drag_over(st: &mut DragState, keys: u32, has_data: bool) -> (r: OverStep)
    ensures
        r.effect == effect_of(keys, old(st)@),
        ({
            let d = description_of(r.effect, old(st)@.target);
            &&& final(st)@ == (if has_data {
                DragView { last_desc: Some(d), ..old(st)@ }
            } else {
                old(st)@
            })
            &&& description_view(r.describe) == (if has_data && old(st)@.last_desc != Some(d) {
                Some(d)
            } else {
                None
            })
        }),
{
    let effect = compute_effect(keys, st);
    if !has_data {
        return OverStep { effect, describe: None };
    }
    let d = desc_for(effect, st);
    let describe = set_drop_description(st, d);
    OverStep { effect, describe }
}

/// Whether the front end is to be told of a pointer move, given the milliseconds since it was told
/// last.
pub fn emit_due(elapsed_ms: Option<u128>) -> (r: bool)
    ensures
        r == (elapsed_ms matches Some(ms) ==> ms >= 16),
{
    match elapsed_ms {
        Some(ms) => ms >= 16,
        None => true,
    }
}

/// The state after a drag has left or was dropped: the sources of a drag that this application
/// started stay until that drag ends.
pub open spec fn left(st: DragView) -> DragView {
    DragView {
        target: None,
        last_desc: None,
        sources: if st.in_progress {
            st.sources
        } else {
            Seq::empty()
        },
        allowed: if st.in_progress {
            st.allowed
        } else {
            0
        },
        ..st
    }
}

fn leave(st: &mut DragState)
    ensures
        final(st)@ == left(old(st)@),
{
    let ghost before = st@;
    st.target = None;
    st.last_desc = None;
    if !st.in_progress {
        st.sources = Vec::new();
        st.allowed = 0;
    }
    assert(st@ =~= left(before));
}

/// The drag leaves the window; gives the description to set on its data object, if any.
pub fn drag_leave(st: &mut DragState, has_data: bool) -> (r: Option<Description>)
    ensures
        final(st)@ == left(old(st)@),
        description_view(r) == (if has_data && old(st)@.last_desc != Some(no_description()) {
            Some(no_description())
        } else {
            None
        }),
{
    let ghost before = st@;
    let r = if has_data {
        set_drop_description(st, empty_description())
    } else {
        None
    };
    leave(st);
    assert(st@ =~= left(before));
    r
}

/// What a drop does.
pub enum DropAction {
    /// Pin these paths to quick access; none where the list is empty.
    Pin(Vec<String>),
    /// Hand the drop to the folder's own drop target.
    Forward(String),
}

pub enum DropActionView {
    Pin(Seq<Seq<char>>),
    Forward(Seq<char>),
}

impl View for DropAction {
    type V = DropActionView;

    open spec fn view(&self) -> DropActionView {
        match self {
            DropAction::Pin(v) => DropActionView::Pin(text::texts(v@)),
            DropAction::Forward(p) => DropActionView::Forward(p@),
        }
    }
}

/// The parsing paths of the sources that have one.
pub open spec fn pin_paths(sources: Seq<SourceView>) -> Seq<Seq<char>>
    decreases sources.len(),
{
    if sources.len() == 0 {
        Seq::empty()
    } else if sources.last().parse_path.len() == 0 {
        pin_paths(sources.drop_last())
    } else {
        pin_paths(sources.drop_last()).push(sources.last().parse_path)
    }
}

fn collect_pin_paths(v: &Vec<SourceInfo>) -> (r: Vec<String>)
    ensures
        text::texts(r@) == pin_paths(source_views(v@)),
{
    let ghost views = source_views(v@);
    let mut out: Vec<String> = Vec::new();
    let mut i: usize = 0;
    assert(text::texts(out@) =~= pin_paths(views.take(0)));
    while i < v.len()
        invariant
            i <= v.len(),
            views == source_views(v@),
            text::texts(out@) == pin_paths(views.take(i as int)),
        decreases v.len() - i,
    {
        let ghost before = out@;
        proof {
            assert(views[i as int] == v@[i as int]@);
            assert(views.take(i + 1).drop_last() =~= views.take(i as int));
        }
        if !v[i].parse_path.as_str().is_empty() {
            out.push(v[i].parse_path.clone());
            assert(text::texts(out@) =~= text::texts(before).push(v@[i as int].parse_path@));
        }
        i += 1;
    }
    assert(views.take(views.len() as int) =~= views);
    out
}

/// What dropping `sources` on `t` does.
pub open spec fn action_of(sources: Seq<SourceView>, t: TargetView) -> DropActionView {
    if is_pin(t) {
        DropActionView::Pin(pin_paths(sources))
    } else {
        DropActionView::Forward(t.parse_path)
    }
}

/// What a drop on `t` does.
pub fn perform_drop(st: &DragState, t: &DropTargetInfo) -> (r: DropAction)
    ensures
        r@ == action_of(st@.sources, t@),
{
    if str_eq(t.kind.as_str(), "pin") {
        DropAction::Pin(collect_pin_paths(&st.sources))
    } else {
        DropAction::Forward(t.parse_path.clone())
    }
}

/// Whether a folder's drop target took the drag that was handed to it, so that the drop follows;
/// else the drag leaves it again.
pub fn forward_accepted(enter_ok: bool, effect: u32) -> (r: bool)
    ensures
        r == (enter_ok && effect != DROPEFFECT_NONE),
{
    enter_ok && effect != DROPEFFECT_NONE
}

/// The effect of a drop, and what it does.
pub struct DropStep {
    pub effect: u32,
    pub action: Option<DropAction>,
}

pub open spec fn action_view(a: Option<DropAction>) -> Option<DropActionView> {
    match a {
        Some(a) => Some(a@),
        None => None,
    }
}

/// The drag is dropped.
pub fn drop_on(st: &mut DragState, keys: u32, has_data: bool) -> (r: DropStep)
    ensures
        final(st)@ == left(old(st)@),
        r.effect == effect_of(keys, old(st)@),
        action_view(r.action) == (match old(st)@.target {
            Some(t) if has_data && r.effect != DROPEFFECT_NONE => Some(
                action_of(old(st)@.sources, t),
            ),
            _ => None,
        }),
{
    let effect = compute_effect(keys, st);
    let action = if effect != DROPEFFECT_NONE && has_data {
        match &st.target {
            Some(t) => Some(perform_drop(st, t)),
            None => None,
        }
    } else {
        None
    };
    leave(st);
    DropStep { effect, action }
}

// ----- laws -----

/// A drop has no effect, or exactly one of copy, move and link.
pub proof fn law_effect_is_single(keys: u32, st: DragView)
    ensures
        effect_of(keys, st) == DROPEFFECT_NONE || effect_of(keys, st) == DROPEFFECT_COPY
            || effect_of(keys, st) == DROPEFFECT_MOVE || effect_of(keys, st) == DROPEFFECT_LINK,
{
}

/// An effect is offered only where the source allows it.
pub proof fn law_effect_is_allowed(keys: u32, st: DragView)
    ensures
        effect_of(keys, st) != DROPEFFECT_NONE ==> effect_of(keys, st) & allowance(st) != 0,
{
}

/// Without a target nothing can be dropped.
pub proof fn law_no_target_no_effect(keys: u32, st: DragView)
    requires
        st.target is None,
    ensures
        effect_of(keys, st) == DROPEFFECT_NONE,
{
}

/// Nothing can be dropped on itself, nor into a folder inside it, by its path in the shell's
/// namespace or by its path in the file system.
pub proof fn law_never_onto_itself_or_inside(keys: u32, st: DragView, i: int)
    requires
        st.target matches Some(t) && !is_pin(t),
        0 <= i < st.sources.len(),
        ({
            let s = st.sources[i];
            let t = st.target->0;
            ||| s.parse_path.len() > 0 && (text::same_ci(s.parse_path, t.parse_path) || inside(
                t.parse_path,
                s.parse_path,
            ))
            ||| s.fs_path is Some && t.fs_path is Some && (text::same_ci(s.fs_path->0, t.fs_path->0)
                || inside(t.fs_path->0, s.fs_path->0))
        }),
    ensures
        effect_of(keys, st) == DROPEFFECT_NONE,
{
    assert(blocked(st.sources[i], st.target->0));
}

/// Into a file that acts as a container the wanted effect is a copy, whatever keys are held and
/// whatever is dragged, and the drop is one wherever it is not refused and the source allows it.
pub proof fn law_container_gets_copies(keys: u32, st: DragView)
    requires
        st.target matches Some(t) && t.is_container_file && !is_pin(t),
    ensures
        wanted_effect(keys, st.sources, st.target->0) == DROPEFFECT_COPY,
        !any_blocked(st.sources, st.target->0) && DROPEFFECT_COPY & allowance(st) != 0
            ==> effect_of(keys, st) == DROPEFFECT_COPY,
{
}

/// Only folders can be pinned to quick access.
pub proof fn law_only_folders_are_pinned(keys: u32, st: DragView)
    requires
        st.target matches Some(t) && is_pin(t),
        effect_of(keys, st) != DROPEFFECT_NONE,
    ensures
        st.sources.len() > 0,
        forall|i: int| 0 <= i < st.sources.len() ==> (#[trigger] st.sources[i]).is_dir,
{
}

/// Moving items to the folder that they lie in has no effect.
pub proof fn law_move_in_place_is_refused(keys: u32, st: DragView)
    requires
        st.target matches Some(t) && !is_pin(t) && moves_nothing(st.sources, t) && wanted_effect(
            keys,
            st.sources,
            t,
        ) == DROPEFFECT_MOVE,
    ensures
        effect_of(keys, st) == DROPEFFECT_NONE,
{
}

/// With no modifier key held, a drive becomes a shortcut where links are allowed, but for a drop
/// into a container file.
pub proof fn law_drive_becomes_link(keys: u32, st: DragView, i: int)
    requires
        st.target matches Some(t) && !is_pin(t) && !t.is_container_file && !any_blocked(
            st.sources,
            t,
        ),
        0 <= i < st.sources.len(),
        drive_root(st.sources[i]),
        keys & MK_CONTROL == 0,
        keys & MK_SHIFT == 0,
        keys & MK_ALT == 0,
        DROPEFFECT_LINK & allowance(st) != 0,
    ensures
        effect_of(keys, st) == DROPEFFECT_LINK,
{
    assert(any_drive(st.sources));
}

/// The drag image says something exactly where the drop has an effect and the target a name.
pub proof fn law_description_follows_effect(keys: u32, st: DragView)
    ensures
        description_of(effect_of(keys, st), st.target) == no_description() <==> effect_of(keys, st)
            == DROPEFFECT_NONE || (st.target matches Some(t) && t.name.len() == 0),
{
    law_effect_is_single(keys, st);
}

/// The sources that this application has noted for its own drag stay as they are while the drag
/// enters and leaves, whatever is found in its data.
pub proof fn law_own_sources_stay(st: DragView, allowed: u32, found: Seq<SourceView>)
    requires
        st.in_progress,
        st.sources.len() > 0,
    ensures
        entered(st, allowed, found).sources == st.sources,
        left(entered(st, allowed, found)).sources == st.sources,
{
}

/// A drag from elsewhere leaves nothing behind.
pub proof fn law_foreign_drag_leaves_nothing(st: DragView, allowed: u32, found: Seq<SourceView>)
    requires
        !st.in_progress,
    ensures
        entered(st, allowed, found).sources == found,
        left(entered(st, allowed, found)) == idle(),
{
}

/// A text of fewer than 260 code units and without a zero in it is read back from a drop
/// description field as it was written.
pub proof fn law_fixed_text_reads_back(s: Seq<char>)
    requires
        wide::utf16(s).len() < 260,
        forall|i: int| 0 <= i < wide::utf16(s).len() ==> wide::utf16(s)[i] != 0,
    ensures
        wide::decoded(wide::before_nul(fixed_text(s))) == s,
{
    let u = wide::utf16(s);
    let f = fixed_text(s);
    assert(f[u.len() as int] == 0);
    wide::lemma_nul_index_is(f, u.len() as int);
    assert(wide::before_nul(f) =~= u);
    wide::law_decode_encode(s);
}

/// The field always ends with a zero.
pub proof fn law_fixed_text_ends_with_zero(s: Seq<char>)
    ensures
        fixed_text(s).len() == 260,
        fixed_text(s)[259] == 0,
{
}

/// A path lies inside a folder exactly where it goes on from the folder's path, up to case, with a
/// backslash, however many backslashes the folder's path ends with.
pub proof fn law_inside(child: Seq<char>, folder: Seq<char>, tail: Seq<char>)
    requires
        folder.len() > 0 ==> folder.last() != '\\',
        forall|i: int| 0 <= i < tail.len() ==> tail[i] == '\\',
    ensures
        inside(child, folder + tail) <==> 0 < folder.len() < child.len() && child[folder.len() as int]
            == '\\' && forall|i: int|
            0 <= i < folder.len() ==> text::alike(child[i], #[trigger] folder[i]),
{
    text::law_trimmed(folder, tail);
    if folder.len() < child.len() {
        let head = child.take(folder.len() as int);
        text::law_same_up_to_case(head, folder);
        if forall|i: int| 0 <= i < folder.len() ==> text::alike(child[i], #[trigger] folder[i]) {
            assert forall|i: int| 0 <= i < head.len() implies text::alike(
                #[trigger] head[i],
                folder[i],
            ) by {
                assert(text::alike(child[i], folder[i]));
            }
        }
        if text::same_ci(head, folder) {
            assert forall|i: int| 0 <= i < folder.len() implies text::alike(
                child[i],
                #[trigger] folder[i],
            ) by {
                assert(text::alike(head[i], folder[i]));
            }
        }
    }
}

/// An item lies in the folder whose path stands before the last backslash of its own; the folder's
/// path may end with backslashes or not, but that of a drive ends with one.
pub proof fn law_lies_in(dir: Seq<char>, name: Seq<char>, tail: Seq<char>, parent: Seq<char>)
    requires
        name.len() > 0,
        !name.contains('\\'),
        forall|i: int| 0 <= i < tail.len() ==> tail[i] == '\\',
    ensures
        ({
            let child = dir + seq!['\\'] + name + tail;
            let is_drive = dir.len() == 2 && (dir[0] as u32) < 0x80 && dir[1] == ':';
            &&& is_drive ==> (lies_in(child, parent) <==> text::same_ci(
                dir + seq!['\\'],
                parent,
            ))
            &&& !is_drive ==> (lies_in(child, parent) <==> text::same_ci(dir, text::trimmed(parent))
                || text::same_ci(dir, parent))
        }),
        !lies_in(name + tail, parent),
{
    let body = dir + seq!['\\'] + name;
    let child = dir + seq!['\\'] + name + tail;
    assert(child =~= body + tail);
    assert(body.last() == name.last());
    assert(name.contains(name.last()));
    text::law_trimmed(body, tail);
    text::law_trimmed(name, tail);
    assert forall|i: int| dir.len() < i < body.len() implies body[i] != '\\' by {
        assert(body[i] == name[i - dir.len() - 1]);
        assert(name.contains(name[i - dir.len() - 1]));
    }
    text::lemma_last_index_is(body, '\\', dir.len() as int);
    assert forall|i: int| -1 < i < name.len() implies name[i] != '\\' by {
        assert(name.contains(name[i]));
    }
    text::lemma_last_index_is(name, '\\', -1);
    assert(child.take(dir.len() as int) =~= dir);
    assert(child.take(dir.len() as int + 1) =~= dir + seq!['\\']);
    let root = dir + seq!['\\'];
    let t = text::trimmed(parent);
    text::lemma_trimmed(parent);
    text::law_same_up_to_case(root, t);
    if text::same_ci(root, t) {
        assert(text::alike(root[root.len() - 1], t[root.len() - 1]));
        assert(t.last() == '\\');
    }
}

/// Whether a path is an ASCII character and a colon, with any number of backslashes behind.
pub open spec fn names_drive(p: Seq<char>) -> bool {
    p.len() >= 2 && (p[0] as u32) < 0x80 && p[1] == ':' && forall|i: int|
        2 <= i < p.len() ==> #[trigger] p[i] == '\\'
}

/// A source is a drive exactly where its path is that of one; its path in the file system counts
/// where it has one.
pub proof fn law_drive_root(s: SourceView)
    ensures
        s.fs_path is Some ==> (drive_root(s) <==> names_drive(s.fs_path->0)),
        s.fs_path is None ==> (drive_root(s) <==> names_drive(s.parse_path)),
{
    let p = own_path(s);
    text::lemma_trimmed(p);
    let t = text::trimmed(p);
    if names_drive(p) {
        assert(p =~= p.take(2) + p.skip(2));
        text::law_trimmed(p.take(2), p.skip(2));
    }
    if drive_root(s) {
        assert(t[0] == p[0] && t[1] == p[1]);
        assert(names_drive(p));
    }
}

/// Two paths are on the same volume exactly where both begin with the same letter, up to case, and
/// a colon.
pub proof fn law_same_volume(a: Seq<char>, b: Seq<char>)
    ensures
        on_same_volume(a, b) <==> a.len() >= 2 && b.len() >= 2 && a[1] == ':' && b[1] == ':' && (
        a[0] as u32) < 0x80 && (b[0] as u32) < 0x80 && text::alike(a[0], b[0]),
{
    if a.len() >= 2 && b.len() >= 2 {
        text::law_case_folding(a[0], b[0]);
    }
}

/// Whether an effect is among those that the source allows; all are where it said nothing.
pub open spec fn permits(st: DragView, effect: u32) -> bool {
    st.allowed == 0 || effect & st.allowed != 0
}

proof fn lemma_permits(st: DragView, effect: u32)
    requires
        effect == 1 || effect == 2 || effect == 4,
    ensures
        permits(st, effect) <==> effect & allowance(st) != 0,
{
    assert(1u32 & 0xffff_ffff != 0 && 2u32 & 0xffff_ffff != 0 && 4u32 & 0xffff_ffff != 0)
        by (bit_vector);
}

/// Whether a drop is decided by keys and places alone: the target is a plain folder in the file
/// system, and nothing is dropped onto itself or into what it holds.
pub open spec fn is_plain_drop(st: DragView) -> bool {
    &&& st.target matches Some(t) && t.kind != "pin"@ && !t.is_container_file
    &&& forall|i: int| 0 <= i < st.sources.len() ==> !blocked(#[trigger] st.sources[i], st.target->0)
}

/// With no modifier key held, files and folders are moved within a volume and copied to another
/// one; nothing happens where all of them lie in the target already.
pub proof fn law_default_effect(keys: u32, st: DragView)
    requires
        is_plain_drop(st),
        st.target->0.fs_path is Some,
        keys & 0x4 == 0,
        keys & 0x8 == 0,
        keys & 0x20 == 0,
        st.sources.len() > 0,
        forall|i: int|
            0 <= i < st.sources.len() ==> (#[trigger] st.sources[i]).fs_path is Some && !drive_root(
                st.sources[i],
            ),
    ensures
        ({
            let tf = st.target->0.fs_path->0;
            let same = forall|i: int|
                0 <= i < st.sources.len() ==> on_same_volume(
                    (#[trigger] st.sources[i]).fs_path->0,
                    tf,
                );
            let there = forall|i: int|
                0 <= i < st.sources.len() ==> lies_in((#[trigger] st.sources[i]).fs_path->0, tf);
            &&& same && !there && permits(st, 2) ==> effect_of(keys, st) == 2
            &&& same && there ==> effect_of(keys, st) == 0
            &&& !same && permits(st, 1) ==> effect_of(keys, st) == 1
        }),
{
    let tf = st.target->0.fs_path->0;
    lemma_permits(st, 1);
    lemma_permits(st, 2);
    assert(!any_blocked(st.sources, st.target->0));
    assert(!any_drive(st.sources));
    assert(!any_virtual(st.sources));
    if forall|i: int|
        0 <= i < st.sources.len() ==> on_same_volume((#[trigger] st.sources[i]).fs_path->0, tf) {
        assert(all_on_volume(st.sources, tf));
    } else {
        let i = choose|i: int|
            0 <= i < st.sources.len() && !on_same_volume((#[trigger] st.sources[i]).fs_path->0, tf);
        assert(!all_on_volume(st.sources, tf)) by {
            assert(st.sources[i].fs_path is Some);
        }
    }
    if forall|i: int|
        0 <= i < st.sources.len() ==> lies_in((#[trigger] st.sources[i]).fs_path->0, tf) {
        assert(all_in_folder(st.sources, tf));
    } else {
        let i = choose|i: int|
            0 <= i < st.sources.len() && !lies_in((#[trigger] st.sources[i]).fs_path->0, tf);
        assert(!all_in_folder(st.sources, tf)) by {
            assert(st.sources[i].fs_path is Some);
        }
    }
}

/// With no modifier key held, what cannot be moved by path is copied: sources of which nothing is
/// known, sources that are not in the file system, and anything dropped on a target that is not.
pub proof fn law_unknown_places_are_copied(keys: u32, st: DragView)
    requires
        is_plain_drop(st),
        keys & 0x4 == 0,
        keys & 0x8 == 0,
        keys & 0x20 == 0,
        forall|i: int| 0 <= i < st.sources.len() ==> !drive_root(#[trigger] st.sources[i]),
        st.target->0.fs_path is None || st.sources.len() == 0 || exists|i: int|
            0 <= i < st.sources.len() && (#[trigger] st.sources[i]).fs_path is None,
        permits(st, 1),
    ensures
        effect_of(keys, st) == 1,
{
    lemma_permits(st, 1);
    assert(!any_blocked(st.sources, st.target->0));
    assert(!any_drive(st.sources));
}

/// The keys choose the effect of a plain drop: Alt, or Ctrl with Shift, a link; Ctrl a copy; Shift a
/// move, but for what lies in the target already.
pub proof fn law_keys_choose_effect(keys: u32, st: DragView)
    requires
        is_plain_drop(st),
    ensures
        (keys & 0x20 != 0 || (keys & 0x8 != 0 && keys & 0x4 != 0)) && permits(st, 4) ==> effect_of(
            keys,
            st,
        ) == 4,
        keys & 0x20 == 0 && keys & 0x8 != 0 && keys & 0x4 == 0 && permits(st, 1) ==> effect_of(
            keys,
            st,
        ) == 1,
        keys & 0x20 == 0 && keys & 0x8 == 0 && keys & 0x4 != 0 && permits(st, 2) ==> effect_of(
            keys,
            st,
        ) == (if st.sources.len() > 0 && st.target->0.fs_path is Some && forall|i: int|
            0 <= i < st.sources.len() ==> (#[trigger] st.sources[i]).fs_path is Some && lies_in(
                st.sources[i].fs_path->0,
                st.target->0.fs_path->0,
            ) {
            0u32
        } else {
            2u32
        }),
{
    lemma_permits(st, 1);
    lemma_permits(st, 2);
    lemma_permits(st, 4);
    assert(!any_blocked(st.sources, st.target->0));
    if st.target->0.fs_path is Some {
        let tf = st.target->0.fs_path->0;
        if forall|i: int|
            0 <= i < st.sources.len() ==> (#[trigger] st.sources[i]).fs_path is Some && lies_in(
                st.sources[i].fs_path->0,
                tf,
            ) {
            assert(all_in_folder(st.sources, tf));
        } else {
            let i = choose|i: int|
                0 <= i < st.sources.len() && !((#[trigger] st.sources[i]).fs_path is Some && lies_in(
                    st.sources[i].fs_path->0,
                    tf,
                ));
            assert(!all_in_folder(st.sources, tf)) by {
                assert(st.sources[i].fs_path matches Some(sf) ==> !lies_in(sf, tf));
            }
        }
    }
}

/// Whether the source allows it or not, a drop with an effect is never refused for want of
/// permission while anything is allowed: the wanted effect first, then copy, move and link in this
/// order.
pub proof fn law_pick(want: u32, allowed: u32)
    requires
        want == 1 || want == 2 || want == 4,
    ensures
        want & allowed != 0 ==> picked(want, allowed) == want,
        want & allowed == 0 && 1 & allowed != 0 ==> picked(want, allowed) == 1,
        want & allowed == 0 && 1 & allowed == 0 && 2 & allowed != 0 ==> picked(want, allowed) == 2,
        want & allowed == 0 && 1 & allowed == 0 && 2 & allowed == 0 && 4 & allowed != 0 ==> picked(
            want,
            allowed,
        ) == 4,
        1 & allowed == 0 && 2 & allowed == 0 && 4 & allowed == 0 ==> picked(want, allowed) == 0,
{
}

/// Dropping folders, and nothing but folders, on quick access links them there, whatever keys are
/// held and wherever they are; anything else is refused.
pub proof fn law_pinning(keys: u32, st: DragView)
    requires
        st.target matches Some(t) && t.kind == "pin"@,
    ensures
        st.sources.len() > 0 && permits(st, 4) && (forall|i: int|
            0 <= i < st.sources.len() ==> (#[trigger] st.sources[i]).is_dir) ==> effect_of(keys, st)
            == 4,
        st.sources.len() == 0 ==> effect_of(keys, st) == 0,
        (exists|i: int| 0 <= i < st.sources.len() && !(#[trigger] st.sources[i]).is_dir)
            ==> effect_of(keys, st) == 0,
{
    lemma_permits(st, 4);
}

/// What a drag image shows: the target's own name; the picture of the effect, which has its number,
/// or of a link on quick access; and a message that depends on the effect and on whether the
/// target is quick access alone.
pub proof fn law_description(eff: u32, t: TargetView, u: TargetView)
    requires
        eff == 1 || eff == 2 || eff == 4,
        t.name.len() > 0,
        u.name.len() > 0,
    ensures
        ({
            let d = description_of(eff, Some(t));
            &&& d.insert == t.name
            &&& t.kind == "pin"@ ==> d.image == 4 && d.message == "固定到 %1"@
            &&& t.kind != "pin"@ ==> d.image == eff
            &&& t.kind != "pin"@ && eff == 2 ==> d.message == "移动到 %1"@
            &&& t.kind != "pin"@ && eff == 1 ==> d.message == "复制到 %1"@
            &&& t.kind != "pin"@ && eff == 4 ==> d.message == "在 %1 中创建链接"@
            &&& (t.kind == "pin"@) == (u.kind == "pin"@) ==> d.message == description_of(
                eff,
                Some(u),
            ).message
        }),
        no_description().image == -1 && no_description().message.len() == 0
            && no_description().insert.len() == 0,
{
}

/// Whether a path leads into a file is settled by the first path of the chain that exists; what
/// lies above it does not matter, and a chain without any such path leads into none.
pub proof fn law_first_existing_path_decides(
    missing: Seq<PathProbe>,
    found: PathProbe,
    above: Seq<PathProbe>,
)
    requires
        forall|i: int|
            #![trigger missing[i]]
            0 <= i < missing.len() ==> !missing[i].is_file && !missing[i].exists,
        found.is_file || found.exists,
    ensures
        through_file(missing + seq![found] + above) == found.is_file,
        !through_file(missing),
{
    let all = missing + seq![found] + above;
    let k = missing.len() as int;
    assert(all[k] == found);
    assert forall|j: int| #![trigger all[j]] 0 <= j < k implies !all[j].is_file
        && !all[j].exists by {
        assert(all[j] == missing[j]);
    }
    if through_file(all) && !found.is_file {
        let i = choose|i: int|
            #![trigger all[i]]
            0 <= i < all.len() && all[i].is_file && forall|j: int|
                #![trigger all[j]]
                0 <= j < i ==> !all[j].is_file && !all[j].exists;
        if i > k {
            assert(!all[k].exists);
        }
    }
}

/// A dragged item has the names that the shell gives, and is a folder only where it has a path in
/// the file system that leads to one; an empty name counts as none.
pub proof fn law_source_of_item(raw: RawSource)
    ensures
        source_of(raw).parse_path == (match raw.parse_name {
            Some(s) => s@,
            None => Seq::empty(),
        }),
        source_of(raw).fs_path is Some <==> (raw.fs_name matches Some(s) && s@.len() > 0),
        source_of(raw).fs_path is Some ==> source_of(raw).fs_path == text::opt_view(raw.fs_name),
        source_of(raw).is_dir <==> raw.fs_is_dir && source_of(raw).fs_path is Some,
{
    text::law_missing_texts(text::opt_view(raw.parse_name));
    text::law_missing_texts(text::opt_view(raw.fs_name));
}

/// A dropped file list gives one source for each file with a path, in the order of the list, by
/// that path and with what it is.
pub proof fn law_dropped_files(files: Seq<DroppedFile>, f: DroppedFile)
    ensures
        file_sources(Seq::empty()).len() == 0,
        f.path@.len() == 0 ==> file_sources(files.push(f)) == file_sources(files),
        f.path@.len() > 0 ==> {
            let s = file_sources(files.push(f));
            &&& s.len() == file_sources(files).len() + 1
            &&& s.drop_last() == file_sources(files)
            &&& s.last().parse_path == f.path@
            &&& s.last().fs_path == Some(f.path@)
            &&& s.last().is_dir == f.is_dir
        },
{
    assert(files.push(f).drop_last() =~= files);
    if f.path@.len() > 0 {
        assert(file_sources(files.push(f)).drop_last() =~= file_sources(files));
    }
}

/// What is pinned are the sources that have a path in the shell's namespace, each once and in their
/// order; any other drop is handed to the target itself.
pub proof fn law_drop_action(sources: Seq<SourceView>, s: SourceView, t: TargetView)
    ensures
        pin_paths(Seq::empty()).len() == 0,
        s.parse_path.len() == 0 ==> pin_paths(sources.push(s)) == pin_paths(sources),
        s.parse_path.len() > 0 ==> pin_paths(sources.push(s)) == pin_paths(sources).push(
            s.parse_path,
        ),
        t.kind == "pin"@ ==> action_of(sources, t) == DropActionView::Pin(pin_paths(sources)),
        t.kind != "pin"@ ==> action_of(sources, t) == DropActionView::Forward(t.parse_path),
{
    assert(sources.push(s).drop_last() =~= sources);
}

/// A drag that enters brings its allowance, keeps the target, and forgets the last description; one
/// that leaves or ends takes target and description with it.
pub proof fn law_session(st: DragView, allowed: u32, found: Seq<SourceView>)
    ensures
        ({
            let e = entered(st, allowed, found);
            &&& e.allowed == allowed && e.target == st.target && e.last_desc is None
            &&& e.in_progress == st.in_progress
            &&& e.sources == (if st.in_progress && st.sources.len() > 0 {
                st.sources
            } else {
                found
            })
        }),
        ({
            let l = left(st);
            &&& l.target is None && l.last_desc is None && l.in_progress == st.in_progress
            &&& st.in_progress ==> l.sources == st.sources && l.allowed == st.allowed
            &&& !st.in_progress ==> l.sources.len() == 0 && l.allowed == 0
        }),
        idle().target is None && idle().sources.len() == 0 && idle().allowed == 0
            && idle().last_desc is None && !idle().in_progress,
{
}

/// A drop description field holds the code units of a text one for one, as far as they fit, and
/// only zeros behind them.
pub proof fn law_fixed_text(s: Seq<char>, i: int)
    requires
        0 <= i < 260,
    ensures
        i < 259 && i < wide::utf16(s).len() ==> fixed_text(s)[i] == wide::utf16(s)[i],
        i == 259 || i >= wide::utf16(s).len() ==> fixed_text(s)[i] == 0,
{
}

/// A source is refused on a target for no other reason than that the target is the source or lies
/// inside it, by a path of the same sort; a path that is missing on either side refuses nothing.
pub proof fn law_blocked(s: SourceView, t: TargetView)
    ensures
        blocked(s, t) <==> (s.parse_path.len() > 0 && (text::same_ci(s.parse_path, t.parse_path)
            || inside(t.parse_path, s.parse_path))) || (s.fs_path matches Some(sf)
            && t.fs_path matches Some(tf) && (text::same_ci(sf, tf) || inside(tf, sf))),
{
}

} // verus!
