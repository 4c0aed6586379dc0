//! Context menus: the items that are added to them, what a choice leads to, and the trees that are
//! shown in place of the native menus.

use vstd::prelude::*;
use vstd::utf8::encode_utf8;

use crate::shell_items::{self, real_folder, to_wide};
use crate::text::{
    self, chars_of, contains_text, copy_opt, find_first, remove_char, starts_with, str_eq, string_of,
    strip_prefix, upper_char,
};
use crate::wide::{self, counted_text, decode, find_nul};

verus! {

/// The first and the last number that a menu of the shell may give to its commands.
pub const ID_FIRST: u32 = 1;

pub const ID_LAST: u32 = 0x7FFF;

/// The number of the first view mode; numbers from here on are the application's own.
pub const ID_VIEW_BASE: u32 = 0x9000;

pub const ID_VIEW_LAST: u32 = 0x9007;

pub const ID_SORT_NAME: u32 = 0x9010;

pub const ID_SORT_DATE: u32 = 0x9011;

pub const ID_SORT_TYPE: u32 = 0x9012;

pub const ID_SORT_SIZE: u32 = 0x9013;

pub const ID_SORT_ASC: u32 = 0x9014;

pub const ID_SORT_DESC: u32 = 0x9015;

pub const ID_REFRESH: u32 = 0x9020;

/// How the shell is asked to fill a menu that is shown: as in Explorer, with renaming.
pub const CMF_SHOWN: u32 = 0x14;

/// How the shell is asked to fill a menu that is only searched for a command.
pub const CMF_NORMAL: u32 = 0;

// ----- results -----

/// What became of a menu, for the front end: `none`, `invoked`, `navigate`, `rename`, `set-view`,
/// `set-sort`, `set-sort-dir` or `refresh`, and the verb or value that goes with it.
pub struct MenuResult {
    pub action: String,
    pub verb: String,
}

#[verifier::ext_equal]
pub struct ResultView {
    pub action: Seq<char>,
    pub verb: Seq<char>,
}

impl View for MenuResult {
    type V = ResultView;

    open spec fn view(&self) -> ResultView {
        ResultView { action: self.action@, verb: self.verb@ }
    }
}

pub open spec fn opt_result(r: Option<MenuResult>) -> Option<ResultView> {
    match r {
        Some(r) => Some(r@),
        None => None,
    }
}

/// Nothing was done.
pub open spec fn nothing() -> ResultView {
    ResultView { action: "none"@, verb: ""@ }
}

fn none_result() -> (r: MenuResult)
    ensures
        r@ == nothing(),
{
    MenuResult { action: "none".to_owned(), verb: "".to_owned() }
}

// ----- the application's own items -----

/// The name that the front end has for the `i`-th view mode, in Explorer's order.
pub open spec fn view_mode(i: int) -> Seq<char> {
    if i == 0 {
        "xl-icons"@
    } else if i == 1 {
        "l-icons"@
    } else if i == 2 {
        "m-icons"@
    } else if i == 3 {
        "s-icons"@
    } else if i == 4 {
        "list"@
    } else if i == 5 {
        "details"@
    } else if i == 6 {
        "tiles"@
    } else {
        "content"@
    }
}

/// What the menu shows for the `i`-th view mode.
pub open spec fn view_label(i: int) -> Seq<char> {
    if i == 0 {
        "超大图标"@
    } else if i == 1 {
        "大图标"@
    } else if i == 2 {
        "中图标"@
    } else if i == 3 {
        "小图标"@
    } else if i == 4 {
        "列表"@
    } else if i == 5 {
        "详细信息"@
    } else if i == 6 {
        "平铺"@
    } else {
        "内容"@
    }
}

fn view_mode_name(i: u32) -> (r: &'static str)
    ensures
        r@ == view_mode(i as int),
{
    if i == 0 {
        "xl-icons"
    } else if i == 1 {
        "l-icons"
    } else if i == 2 {
        "m-icons"
    } else if i == 3 {
        "s-icons"
    } else if i == 4 {
        "list"
    } else if i == 5 {
        "details"
    } else if i == 6 {
        "tiles"
    } else {
        "content"
    }
}

fn view_mode_label(i: u32) -> (r: &'static str)
    ensures
        r@ == view_label(i as int),
{
    if i == 0 {
        "超大图标"
    } else if i == 1 {
        "大图标"
    } else if i == 2 {
        "中图标"
    } else if i == 3 {
        "小图标"
    } else if i == 4 {
        "列表"
    } else if i == 5 {
        "详细信息"
    } else if i == 6 {
        "平铺"
    } else {
        "内容"
    }
}

/// What one of the application's own items leads to; none for any other number.
pub open spec fn own_result(cmd: u32) -> Option<ResultView> {
    if ID_VIEW_BASE <= cmd <= ID_VIEW_LAST {
        Some(ResultView { action: "set-view"@, verb: view_mode(cmd - ID_VIEW_BASE) })
    } else if cmd == ID_SORT_NAME {
        Some(ResultView { action: "set-sort"@, verb: "name"@ })
    } else if cmd == ID_SORT_DATE {
        Some(ResultView { action: "set-sort"@, verb: "date"@ })
    } else if cmd == ID_SORT_TYPE {
        Some(ResultView { action: "set-sort"@, verb: "type"@ })
    } else if cmd == ID_SORT_SIZE {
        Some(ResultView { action: "set-sort"@, verb: "size"@ })
    } else if cmd == ID_SORT_ASC {
        Some(ResultView { action: "set-sort-dir"@, verb: "asc"@ })
    } else if cmd == ID_SORT_DESC {
        Some(ResultView { action: "set-sort-dir"@, verb: "desc"@ })
    } else if cmd == ID_REFRESH {
        Some(ResultView { action: "refresh"@, verb: ""@ })
    } else {
        None
    }
}

/// What one of the application's own items leads to; none for any other number.
pub fn custom_result(cmd: u32) -> (r: Option<MenuResult>)
    ensures
        opt_result(r) == own_result(cmd),
{
    let (action, verb) = if ID_VIEW_BASE <= cmd && cmd <= ID_VIEW_LAST {
        ("set-view", view_mode_name(cmd - ID_VIEW_BASE))
    } else if cmd == ID_SORT_NAME {
        ("set-sort", "name")
    } else if cmd == ID_SORT_DATE {
        ("set-sort", "date")
    } else if cmd == ID_SORT_TYPE {
        ("set-sort", "type")
    } else if cmd == ID_SORT_SIZE {
        ("set-sort", "size")
    } else if cmd == ID_SORT_ASC {
        ("set-sort-dir", "asc")
    } else if cmd == ID_SORT_DESC {
        ("set-sort-dir", "desc")
    } else if cmd == ID_REFRESH {
        ("refresh", "")
    } else {
        return None;
    };
    Some(MenuResult { action: action.to_owned(), verb: verb.to_owned() })
}

/// No number is both a command of the shell and one of the application's own.
pub proof fn law_own_items_are_apart(cmd: u32)
    ensures
        own_result(cmd) is Some ==> cmd > ID_LAST,
{
}

/// The state of the view that the marks in the menu show.
pub struct ViewState {
    pub view: String,
    pub sort_key: String,
    pub sort_asc: bool,
}

#[verifier::ext_equal]
pub struct StateView {
    pub view: Seq<char>,
    pub sort_key: Seq<char>,
    pub sort_asc: bool,
}

impl View for ViewState {
    type V = StateView;

    open spec fn view(&self) -> StateView {
        StateView { view: self.view@, sort_key: self.sort_key@, sort_asc: self.sort_asc }
    }
}

/// The given state, or details by ascending name where there is none.
pub fn state_or_default(state: Option<ViewState>) -> (r: ViewState)
    ensures
        r@ == (match state {
            Some(st) => st@,
            None => StateView { view: "details"@, sort_key: "name"@, sort_asc: true },
        }),
{
    match state {
        Some(st) => st,
        None => ViewState {
            view: "details".to_owned(),
            sort_key: "name".to_owned(),
            sort_asc: true,
        },
    }
}

/// The menus that are filled: the one that is shown, and two that open from it.
#[derive(Clone, Copy, PartialEq, Eq, Structural)]
pub enum Menu {
    Top,
    ViewModes,
    SortOrders,
}

/// One change to a menu.
#[derive(Clone, Copy)]
pub enum MenuOp {
    /// Appends an item.
    Item { menu: Menu, id: u32, label: &'static str },
    /// Appends a separator.
    Separator { menu: Menu },
    /// Appends an item that opens another menu.
    Popup { menu: Menu, opens: Menu, label: &'static str },
    /// Marks one item of a range, and no other.
    Radio { menu: Menu, first: u32, last: u32, checked: u32 },
}

pub enum OpView {
    Item { menu: Menu, id: u32, label: Seq<char> },
    Separator { menu: Menu },
    Popup { menu: Menu, opens: Menu, label: Seq<char> },
    Radio { menu: Menu, first: u32, last: u32, checked: u32 },
}

impl View for MenuOp {
    type V = OpView;

    open spec fn view(&self) -> OpView {
        match *self {
            MenuOp::Item { menu, id, label } => OpView::Item { menu, id, label: label@ },
            MenuOp::Separator { menu } => OpView::Separator { menu },
            MenuOp::Popup { menu, opens, label } => OpView::Popup { menu, opens, label: label@ },
            MenuOp::Radio { menu, first, last, checked } => OpView::Radio {
                menu,
                first,
                last,
                checked,
            },
        }
    }
}

pub open spec fn op_views(v: Seq<MenuOp>) -> Seq<OpView> {
    v.map_values(|o: MenuOp| o@)
}

/// The position of a view mode; that of the details where there is no such mode.
pub open spec fn view_position(view: Seq<char>) -> int {
    if view == "xl-icons"@ {
        0
    } else if view == "l-icons"@ {
        1
    } else if view == "m-icons"@ {
        2
    } else if view == "s-icons"@ {
        3
    } else if view == "list"@ {
        4
    } else if view == "details"@ {
        5
    } else if view == "tiles"@ {
        6
    } else if view == "content"@ {
        7
    } else {
        5
    }
}

fn view_index(view: &str) -> (r: u32)
    ensures
        r == view_position(view@),
        r <= 7,
{
    if str_eq(view, "xl-icons") {
        0
    } else if str_eq(view, "l-icons") {
        1
    } else if str_eq(view, "m-icons") {
        2
    } else if str_eq(view, "s-icons") {
        3
    } else if str_eq(view, "list") {
        4
    } else if str_eq(view, "details") {
        5
    } else if str_eq(view, "tiles") {
        6
    } else if str_eq(view, "content") {
        7
    } else {
        5
    }
}

/// The item of the column that is sorted by; that of the name for an unknown column.
pub open spec fn sort_item(key: Seq<char>) -> u32 {
    if key == "date"@ {
        ID_SORT_DATE
    } else if key == "type"@ {
        ID_SORT_TYPE
    } else if key == "size"@ {
        ID_SORT_SIZE
    } else {
        ID_SORT_NAME
    }
}

fn sort_item_id(key: &str) -> (r: u32)
    ensures
        r == sort_item(key@),
{
    if str_eq(key, "date") {
        ID_SORT_DATE
    } else if str_eq(key, "type") {
        ID_SORT_TYPE
    } else if str_eq(key, "size") {
        ID_SORT_SIZE
    } else {
        ID_SORT_NAME
    }
}

/// The items of the view modes.
pub open spec fn view_items() -> Seq<OpView> {
    Seq::new(
        8,
        |i: int|
            OpView::Item {
                menu: Menu::ViewModes,
                id: (ID_VIEW_BASE + i) as u32,
                label: view_label(i),
            },
    )
}

/// The items of the sort orders, with their marks.
pub open spec fn sort_items(state: StateView) -> Seq<OpView> {
    seq![
        OpView::Item { menu: Menu::SortOrders, id: ID_SORT_NAME, label: "名称(N)"@ },
        OpView::Item { menu: Menu::SortOrders, id: ID_SORT_DATE, label: "修改日期(M)"@ },
        OpView::Item { menu: Menu::SortOrders, id: ID_SORT_TYPE, label: "类型(T)"@ },
        OpView::Item { menu: Menu::SortOrders, id: ID_SORT_SIZE, label: "大小(S)"@ },
        OpView::Radio {
            menu: Menu::SortOrders,
            first: ID_SORT_NAME,
            last: ID_SORT_SIZE,
            checked: sort_item(state.sort_key),
        },
        OpView::Separator { menu: Menu::SortOrders },
        OpView::Item { menu: Menu::SortOrders, id: ID_SORT_ASC, label: "递增(A)"@ },
        OpView::Item { menu: Menu::SortOrders, id: ID_SORT_DESC, label: "递减(D)"@ },
        OpView::Radio {
            menu: Menu::SortOrders,
            first: ID_SORT_ASC,
            last: ID_SORT_DESC,
            checked: if state.sort_asc {
                ID_SORT_ASC
            } else {
                ID_SORT_DESC
            },
        },
    ]
}

/// What is put at the head of a folder's own menu: the view modes, the sort orders and refresh.
pub open spec fn head_items(state: StateView) -> Seq<OpView> {
    view_items() + seq![
        OpView::Radio {
            menu: Menu::ViewModes,
            first: ID_VIEW_BASE,
            last: ID_VIEW_LAST,
            checked: (ID_VIEW_BASE + view_position(state.view)) as u32,
        },
    ] + sort_items(state) + seq![
        OpView::Popup { menu: Menu::Top, opens: Menu::ViewModes, label: "查看(V)"@ },
        OpView::Popup { menu: Menu::Top, opens: Menu::SortOrders, label: "排序方式(O)"@ },
        OpView::Item { menu: Menu::Top, id: ID_REFRESH, label: "刷新(E)"@ },
        OpView::Separator { menu: Menu::Top },
    ]
}

/// What is put at the head of a folder's own menu: the view modes, the sort orders and refresh.
pub fn inject_view_items(state: &ViewState) -> (r: Vec<MenuOp>)
    ensures
        op_views(r@) == head_items(state@),
{
    let mut ops: Vec<MenuOp> = Vec::new();
    let mut i: u32 = 0;
    while i < 8
        invariant
            i <= 8,
            op_views(ops@) =~= view_items().take(i as int),
        decreases 8 - i,
    {
        let ghost before = ops@;
        ops.push(
            MenuOp::Item {
                menu: Menu::ViewModes,
                id: ID_VIEW_BASE + i,
                label: view_mode_label(i),
            },
        );
        assert(ops@.last()@ == view_items()[i as int]);
        assert(op_views(ops@) =~= op_views(before).push(view_items()[i as int]));
        i += 1;
    }
    ops.push(
        MenuOp::Radio {
            menu: Menu::ViewModes,
            first: ID_VIEW_BASE,
            last: ID_VIEW_LAST,
            checked: ID_VIEW_BASE + view_index(state.view.as_str()),
        },
    );
    let ghost marked = ops@;
    let menu = Menu::SortOrders;
    ops.push(MenuOp::Item { menu, id: ID_SORT_NAME, label: "名称(N)" });
    ops.push(MenuOp::Item { menu, id: ID_SORT_DATE, label: "修改日期(M)" });
    ops.push(MenuOp::Item { menu, id: ID_SORT_TYPE, label: "类型(T)" });
    ops.push(MenuOp::Item { menu, id: ID_SORT_SIZE, label: "大小(S)" });
    let checked: u32 = sort_item_id(state.sort_key.as_str());
    ops.push(MenuOp::Radio { menu, first: ID_SORT_NAME, last: ID_SORT_SIZE, checked });
    ops.push(MenuOp::Separator { menu });
    ops.push(MenuOp::Item { menu, id: ID_SORT_ASC, label: "递增(A)" });
    ops.push(MenuOp::Item { menu, id: ID_SORT_DESC, label: "递减(D)" });
    let checked: u32 = if state.sort_asc {
        ID_SORT_ASC
    } else {
        ID_SORT_DESC
    };
    ops.push(MenuOp::Radio { menu, first: ID_SORT_ASC, last: ID_SORT_DESC, checked });
    let ghost sorts = ops@;
    assert(op_views(sorts) =~= op_views(marked) + sort_items(state@));
    let menu = Menu::Top;
    ops.push(MenuOp::Popup { menu, opens: Menu::ViewModes, label: "查看(V)" });
    ops.push(MenuOp::Popup { menu, opens: Menu::SortOrders, label: "排序方式(O)" });
    ops.push(MenuOp::Item { menu, id: ID_REFRESH, label: "刷新(E)" });
    ops.push(MenuOp::Separator { menu });
    proof {
        let radio = OpView::Radio {
            menu: Menu::ViewModes,
            first: ID_VIEW_BASE,
            last: ID_VIEW_LAST,
            checked: (ID_VIEW_BASE + view_position(state@.view)) as u32,
        };
        assert(view_items().take(8) =~= view_items());
        assert(marked.last()@ == radio);
        assert(op_views(marked) =~= view_items() + seq![radio]);
        let tail = head_items(state@).skip(18);
        assert(tail.len() == 4);
        assert(op_views(ops@) =~= op_views(sorts) + tail);
        assert(op_views(ops@) =~= head_items(state@));
    }
    ops
}

/// Every item that is put into a menu leads to something when it is chosen, and every mark is set
/// on an item of its range.
pub proof fn law_injected_items_are_answered(state: StateView, i: int)
    requires
        0 <= i < head_items(state).len(),
    ensures
        match head_items(state)[i] {
            OpView::Item { id, .. } => own_result(id) is Some,
            OpView::Radio { first, last, checked, .. } => first <= checked <= last,
            _ => true,
        },
{
    let v = view_items();
    if i < 8 {
        assert(head_items(state)[i] == v[i]);
    } else if i >= 9 && i < 18 {
        assert(head_items(state)[i] == sort_items(state)[i - 9]);
    }
}

/// The view mode that is marked is the one that choosing the marked item sets, where the state
/// names a view mode.
pub proof fn law_marked_view_is_set(view: Seq<char>, i: int)
    requires
        0 <= i < 8,
        view == view_mode(i),
    ensures
        own_result((ID_VIEW_BASE + view_position(view)) as u32) == Some(
            ResultView { action: "set-view"@, verb: view },
        ),
{
}

// ----- showing a menu -----

/// Whose menu is asked for.
#[derive(Clone, Copy, PartialEq, Eq, Structural)]
pub enum MenuSource {
    /// The items that are selected.
    Items,
    /// The folder itself.
    Background,
    /// Nobody's: nothing is selected, and no folder is given.
    Nobody,
}

/// Whose menu is asked for: that of the selection, else that of the folder.
pub open spec fn source_of(selected: nat, has_background: bool) -> MenuSource {
    if selected > 0 {
        MenuSource::Items
    } else if has_background {
        MenuSource::Background
    } else {
        MenuSource::Nobody
    }
}

/// Whose menu is asked for: that of the selection, else that of the folder.
pub fn menu_source(selection: &[String], background: &Option<String>) -> (r: MenuSource)
    ensures
        r == source_of(selection@.len(), *background is Some),
{
    if selection.len() > 0 {
        MenuSource::Items
    } else if background.is_some() {
        MenuSource::Background
    } else {
        MenuSource::Nobody
    }
}

/// How far the opening of a menu has come: which call is to be made next.
#[derive(Clone, Copy, PartialEq, Eq, Structural)]
pub enum OpenPhase {
    /// The menu object is to be bound.
    Binding,
    /// The popup is to be created.
    Creating,
    /// The popup is to be filled.
    Filling,
    /// The popup is filled.
    Ready,
    /// A call has failed; no popup is left.
    Failed,
}

impl OpenPhase {
    /// Whether a popup exists, which somebody must destroy.
    pub open spec fn has_popup(self) -> bool {
        self == OpenPhase::Filling || self == OpenPhase::Ready
    }
}

/// The phase after a call that has succeeded or failed.
pub open spec fn after_call(phase: OpenPhase, ok: bool) -> OpenPhase {
    match phase {
        OpenPhase::Binding => if ok {
            OpenPhase::Creating
        } else {
            OpenPhase::Failed
        },
        OpenPhase::Creating => if ok {
            OpenPhase::Filling
        } else {
            OpenPhase::Failed
        },
        OpenPhase::Filling => if ok {
            OpenPhase::Ready
        } else {
            OpenPhase::Failed
        },
        OpenPhase::Ready => OpenPhase::Ready,
        OpenPhase::Failed => OpenPhase::Failed,
    }
}

/// The phase after a call that has succeeded or failed, and whether the popup is to be destroyed.
pub fn open_step(phase: OpenPhase, ok: bool) -> (r: (OpenPhase, bool))
    ensures
        r.0 == after_call(phase, ok),
        r.1 == (phase.has_popup() && !r.0.has_popup()),
{
    match phase {
        OpenPhase::Binding => if ok {
            (OpenPhase::Creating, false)
        } else {
            (OpenPhase::Failed, false)
        },
        OpenPhase::Creating => if ok {
            (OpenPhase::Filling, false)
        } else {
            (OpenPhase::Failed, false)
        },
        OpenPhase::Filling => if ok {
            (OpenPhase::Ready, false)
        } else {
            (OpenPhase::Failed, true)
        },
        OpenPhase::Ready => (OpenPhase::Ready, false),
        OpenPhase::Failed => (OpenPhase::Failed, false),
    }
}

/// The verb in a buffer that was asked for; empty where asking has failed or no zero unit ends it.
pub open spec fn verb_text(ok: bool, buf: Seq<u16>) -> Seq<char> {
    if ok && wide::nul_index(buf) < buf.len() {
        wide::decoded(wide::before_nul(buf))
    } else {
        Seq::empty()
    }
}

/// The verb in a buffer that was asked for; empty where asking has failed or no zero unit ends it.
pub fn get_verb(ok: bool, buf: &[u16]) -> (r: String)
    ensures
        r@ == verb_text(ok, buf@),
{
    if !ok {
        return String::new();
    }
    let end = find_nul(buf);
    if end < buf.len() {
        let head = &buf[0..end];
        assert(head@ =~= wide::before_nul(buf@));
        decode(head)
    } else {
        String::new()
    }
}

/// What a command of the shell leads to. `rename` is left to the front end, and so is `open` on a
/// single folder, which is entered in the application; any other command is invoked.
pub open spec fn command_result(
    verb: Seq<char>,
    selected: nat,
    attributes: Option<u32>,
    invoked: bool,
) -> ResultView {
    if verb == "rename"@ {
        ResultView { action: "rename"@, verb }
    } else if verb == "open"@ && selected == 1 && (attributes matches Some(a) && shell_items::is_real_folder(
        a,
    )) {
        ResultView { action: "navigate"@, verb }
    } else {
        ResultView {
            action: if invoked {
                "invoked"@
            } else {
                "none"@
            },
            verb,
        }
    }
}

/// What a run of a menu waits for.
pub enum MenuPhase {
    /// Whether the call that opens the menu further has succeeded.
    Opening(OpenPhase),
    /// Which item the user chooses.
    Tracking,
    /// The verb of the command at the offset.
    Asking(u32),
    /// The attributes of the only selected item.
    Inspecting(u32, String),
    /// Whether the command could be invoked.
    Invoking(String),
    /// Nothing: the run is over.
    Over,
}

pub enum PhaseView {
    Opening(OpenPhase),
    Tracking,
    Asking(u32),
    Inspecting(u32, Seq<char>),
    Invoking(Seq<char>),
    Over,
}

impl View for MenuPhase {
    type V = PhaseView;

    open spec fn view(&self) -> PhaseView {
        match self {
            MenuPhase::Opening(p) => PhaseView::Opening(*p),
            MenuPhase::Tracking => PhaseView::Tracking,
            MenuPhase::Asking(offset) => PhaseView::Asking(*offset),
            MenuPhase::Inspecting(offset, verb) => PhaseView::Inspecting(*offset, verb@),
            MenuPhase::Invoking(verb) => PhaseView::Invoking(verb@),
            MenuPhase::Over => PhaseView::Over,
        }
    }
}

/// What a run of a menu is told.
pub enum MenuEvent {
    /// A call has succeeded or failed.
    Done(bool),
    /// The number that the user has chosen; 0 for none.
    Chosen(u32),
    /// The verb of the command.
    Verb(String),
    /// The attributes of the item, where they could be read.
    Attributes(Option<u32>),
}

pub enum EventView {
    Done(bool),
    Chosen(u32),
    Verb(Seq<char>),
    Attributes(Option<u32>),
}

impl View for MenuEvent {
    type V = EventView;

    open spec fn view(&self) -> EventView {
        match self {
            MenuEvent::Done(ok) => EventView::Done(*ok),
            MenuEvent::Chosen(cmd) => EventView::Chosen(*cmd),
            MenuEvent::Verb(verb) => EventView::Verb(verb@),
            MenuEvent::Attributes(a) => EventView::Attributes(*a),
        }
    }
}

/// What is to be done next in a run of a menu.
pub enum MenuAction {
    /// Bind the menu of the selection or of the folder.
    Bind(MenuSource),
    /// Create a popup.
    Create,
    /// Fill the popup, after the items of `inject_view_items` where `inject` holds.
    Fill { inject: bool },
    /// Show the popup, and wait for a choice.
    Track,
    /// Ask for the verb of the command at the offset.
    AskVerb(u32),
    /// Ask for the attributes of the selected item.
    AskAttributes,
    /// Invoke the command at the offset.
    Invoke(u32),
    /// Answer the front end.
    Finish(MenuResult),
}

pub enum ActionView {
    Bind(MenuSource),
    Create,
    Fill { inject: bool },
    Track,
    AskVerb(u32),
    AskAttributes,
    Invoke(u32),
    Finish(ResultView),
}

impl View for MenuAction {
    type V = ActionView;

    open spec fn view(&self) -> ActionView {
        match self {
            MenuAction::Bind(s) => ActionView::Bind(*s),
            MenuAction::Create => ActionView::Create,
            MenuAction::Fill { inject } => ActionView::Fill { inject: *inject },
            MenuAction::Track => ActionView::Track,
            MenuAction::AskVerb(offset) => ActionView::AskVerb(*offset),
            MenuAction::AskAttributes => ActionView::AskAttributes,
            MenuAction::Invoke(offset) => ActionView::Invoke(*offset),
            MenuAction::Finish(r) => ActionView::Finish(r@),
        }
    }
}

/// A run of a menu, from the request to the answer.
pub struct MenuRun {
    /// The number of selected items.
    pub selected: usize,
    pub phase: MenuPhase,
    /// Whether a popup exists.
    pub popup: bool,
}

#[verifier::ext_equal]
pub struct RunView {
    pub selected: nat,
    pub phase: PhaseView,
    pub popup: bool,
}

impl View for MenuRun {
    type V = RunView;

    open spec fn view(&self) -> RunView {
        RunView { selected: self.selected as nat, phase: self.phase@, popup: self.popup }
    }
}

/// A run, and what it asks to be done: first, where `destroy` holds, the popup is destroyed.
pub struct Turn {
    pub run: MenuRun,
    pub destroy: bool,
    pub action: MenuAction,
}

#[verifier::ext_equal]
pub struct TurnView {
    pub run: RunView,
    pub destroy: bool,
    pub action: ActionView,
}

impl View for Turn {
    type V = TurnView;

    open spec fn view(&self) -> TurnView {
        TurnView { run: self.run@, destroy: self.destroy, action: self.action@ }
    }
}

/// The turn that ends a run: a popup that exists is destroyed.
pub open spec fn end_of(run: RunView, result: ResultView) -> TurnView {
    TurnView {
        run: RunView { phase: PhaseView::Over, popup: false, ..run },
        destroy: run.popup,
        action: ActionView::Finish(result),
    }
}

pub open spec fn turn_to(run: RunView, phase: PhaseView, action: ActionView) -> TurnView {
    TurnView { run: RunView { phase, ..run }, destroy: false, action }
}

/// The first turn of showing a menu.
pub open spec fn first_turn(selected: nat, has_background: bool) -> TurnView {
    let run = RunView { selected, phase: PhaseView::Over, popup: false };
    match source_of(selected, has_background) {
        MenuSource::Nobody => end_of(run, nothing()),
        source => turn_to(
            run,
            PhaseView::Opening(OpenPhase::Binding),
            ActionView::Bind(source),
        ),
    }
}

/// Whether an event is what a run waits for.
pub open spec fn awaited(phase: PhaseView, event: EventView) -> bool {
    match phase {
        PhaseView::Opening(p) => event is Done && (p == OpenPhase::Binding || p
            == OpenPhase::Creating || p == OpenPhase::Filling),
        PhaseView::Tracking => event is Chosen,
        PhaseView::Asking(_) => event is Verb,
        PhaseView::Inspecting(..) => event is Attributes,
        PhaseView::Invoking(_) => event is Done,
        PhaseView::Over => false,
    }
}

/// The turn after an event.
pub open spec fn next_turn(run: RunView, event: EventView) -> TurnView {
    match (run.phase, event) {
        (PhaseView::Opening(p), EventView::Done(ok)) => match after_call(p, ok) {
            OpenPhase::Creating => turn_to(
                run,
                PhaseView::Opening(OpenPhase::Creating),
                ActionView::Create,
            ),
            OpenPhase::Filling => turn_to(
                RunView { popup: true, ..run },
                PhaseView::Opening(OpenPhase::Filling),
                ActionView::Fill { inject: run.selected == 0 },
            ),
            OpenPhase::Ready => turn_to(run, PhaseView::Tracking, ActionView::Track),
            _ => end_of(run, nothing()),
        },
        (PhaseView::Tracking, EventView::Chosen(cmd)) => {
            // The popup is gone as soon as the user has chosen.
            let closed = RunView { popup: false, ..run };
            let turn = if cmd < ID_FIRST {
                end_of(closed, nothing())
            } else if own_result(cmd) is Some {
                end_of(closed, own_result(cmd)->0)
            } else {
                turn_to(
                    closed,
                    PhaseView::Asking((cmd - ID_FIRST) as u32),
                    ActionView::AskVerb((cmd - ID_FIRST) as u32),
                )
            };
            TurnView { destroy: run.popup, ..turn }
        },
        (PhaseView::Asking(offset), EventView::Verb(verb)) => if verb == "rename"@ {
            end_of(run, ResultView { action: "rename"@, verb })
        } else if verb == "open"@ && run.selected == 1 {
            turn_to(run, PhaseView::Inspecting(offset, verb), ActionView::AskAttributes)
        } else {
            turn_to(run, PhaseView::Invoking(verb), ActionView::Invoke(offset))
        },
        (PhaseView::Inspecting(offset, verb), EventView::Attributes(a)) => if a matches Some(a)
            && shell_items::is_real_folder(a) {
            end_of(run, ResultView { action: "navigate"@, verb })
        } else {
            turn_to(run, PhaseView::Invoking(verb), ActionView::Invoke(offset))
        },
        (PhaseView::Invoking(verb), EventView::Done(ok)) => end_of(
            run,
            ResultView {
                action: if ok {
                    "invoked"@
                } else {
                    "none"@
                },
                verb,
            },
        ),
        _ => end_of(run, nothing()),
    }
}

fn end_turn(run: MenuRun, result: MenuResult) -> (r: Turn)
    ensures
        r@ == end_of(run@, result@),
{
    Turn {
        run: MenuRun { selected: run.selected, phase: MenuPhase::Over, popup: false },
        destroy: run.popup,
        action: MenuAction::Finish(result),
    }
}

fn turn(run: MenuRun, phase: MenuPhase, action: MenuAction) -> (r: Turn)
    ensures
        r@ == turn_to(run@, phase@, action@),
{
    Turn {
        run: MenuRun { selected: run.selected, phase, popup: run.popup },
        destroy: false,
        action,
    }
}

/// The first turn of showing a menu: of the selection, or of the folder where nothing is selected.
pub fn start_menu(selection: &[String], background: &Option<String>) -> (r: Turn)
    ensures
        r@ == first_turn(selection@.len(), *background is Some),
{
    let run = MenuRun { selected: selection.len(), phase: MenuPhase::Over, popup: false };
    match menu_source(selection, background) {
        MenuSource::Nobody => end_turn(run, none_result()),
        MenuSource::Items => turn(
            run,
            MenuPhase::Opening(OpenPhase::Binding),
            MenuAction::Bind(MenuSource::Items),
        ),
        MenuSource::Background => turn(
            run,
            MenuPhase::Opening(OpenPhase::Binding),
            MenuAction::Bind(MenuSource::Background),
        ),
    }
}

fn opened(run: MenuRun, phase: OpenPhase, ok: bool) -> (r: Turn)
    requires
        run@.phase == PhaseView::Opening(phase),
    ensures
        r@ == next_turn(run@, EventView::Done(ok)),
{
    let (next, _) = open_step(phase, ok);
    match next {
        OpenPhase::Creating => turn(
            run,
            MenuPhase::Opening(OpenPhase::Creating),
            MenuAction::Create,
        ),
        OpenPhase::Filling => {
            let inject = run.selected == 0;
            turn(
                MenuRun { selected: run.selected, phase: MenuPhase::Over, popup: true },
                MenuPhase::Opening(OpenPhase::Filling),
                MenuAction::Fill { inject },
            )
        },
        OpenPhase::Ready => turn(run, MenuPhase::Tracking, MenuAction::Track),
        _ => end_turn(run, none_result()),
    }
}

fn chosen(run: MenuRun, cmd: u32) -> (r: Turn)
    requires
        run@.phase is Tracking,
    ensures
        r@ == next_turn(run@, EventView::Chosen(cmd)),
{
    let destroy = run.popup;
    let closed = MenuRun { selected: run.selected, phase: MenuPhase::Tracking, popup: false };
    let t = if cmd < ID_FIRST {
        end_turn(closed, none_result())
    } else {
        match custom_result(cmd) {
            Some(own) => end_turn(closed, own),
            None => turn(
                closed,
                MenuPhase::Asking(cmd - ID_FIRST),
                MenuAction::AskVerb(cmd - ID_FIRST),
            ),
        }
    };
    Turn { run: t.run, destroy, action: t.action }
}

/// The next turn of showing a menu.
pub fn show_menu(run: MenuRun, event: MenuEvent) -> (r: Turn)
    requires
        awaited(run@.phase, event@),
    ensures
        r@ == next_turn(run@, event@),
{
    let selected = run.selected;
    let popup = run.popup;
    match (run.phase, event) {
        (MenuPhase::Opening(phase), MenuEvent::Done(ok)) => opened(
            MenuRun { selected, phase: MenuPhase::Opening(phase), popup },
            phase,
            ok,
        ),
        (MenuPhase::Tracking, MenuEvent::Chosen(cmd)) => chosen(
            MenuRun { selected, phase: MenuPhase::Tracking, popup },
            cmd,
        ),
        (MenuPhase::Asking(offset), MenuEvent::Verb(verb)) => {
            let run = MenuRun { selected, phase: MenuPhase::Over, popup };
            if str_eq(verb.as_str(), "rename") {
                end_turn(run, MenuResult { action: "rename".to_owned(), verb })
            } else if str_eq(verb.as_str(), "open") && selected == 1 {
                turn(run, MenuPhase::Inspecting(offset, verb), MenuAction::AskAttributes)
            } else {
                turn(run, MenuPhase::Invoking(verb), MenuAction::Invoke(offset))
            }
        },
        (MenuPhase::Inspecting(offset, verb), MenuEvent::Attributes(a)) => {
            let run = MenuRun { selected, phase: MenuPhase::Over, popup };
            let enter = match a {
                Some(a) => real_folder(a),
                None => false,
            };
            if enter {
                end_turn(run, MenuResult { action: "navigate".to_owned(), verb })
            } else {
                turn(run, MenuPhase::Invoking(verb), MenuAction::Invoke(offset))
            }
        },
        (MenuPhase::Invoking(verb), MenuEvent::Done(ok)) => {
            let run = MenuRun { selected, phase: MenuPhase::Over, popup };
            let action = if ok {
                "invoked"
            } else {
                "none"
            };
            end_turn(run, MenuResult { action: action.to_owned(), verb })
        },
        _ => end_turn(
            MenuRun { selected, phase: MenuPhase::Over, popup },
            none_result(),
        ),
    }
}

/// What the shell and the user answer while a menu is shown.
pub struct Answers {
    pub bound: bool,
    pub created: bool,
    pub filled: bool,
    pub chosen: u32,
    pub verb: Seq<char>,
    pub attributes: Option<u32>,
    pub invoked: bool,
}

/// The event that answers an action.
pub open spec fn answer(a: Answers, action: ActionView) -> EventView {
    match action {
        ActionView::Bind(_) => EventView::Done(a.bound),
        ActionView::Create => EventView::Done(a.created),
        ActionView::Fill { .. } => EventView::Done(a.filled),
        ActionView::Track => EventView::Chosen(a.chosen),
        ActionView::AskVerb(_) => EventView::Verb(a.verb),
        ActionView::AskAttributes => EventView::Attributes(a.attributes),
        ActionView::Invoke(_) => EventView::Done(a.invoked),
        ActionView::Finish(_) => EventView::Done(true),
    }
}

/// The turn in which a run ends, when each action gets its answer, within `n` turns.
pub open spec fn last_turn(t: TurnView, a: Answers, n: nat) -> TurnView
    decreases n,
{
    if n == 0 || t.action is Finish {
        t
    } else {
        last_turn(next_turn(t.run, answer(a, t.action)), a, (n - 1) as nat)
    }
}

/// What showing a menu answers to the front end.
pub open spec fn menu_outcome(selected: nat, has_background: bool, a: Answers) -> ResultView {
    if source_of(selected, has_background) == MenuSource::Nobody || !a.bound || !a.created
        || !a.filled || a.chosen < ID_FIRST {
        nothing()
    } else if own_result(a.chosen) is Some {
        own_result(a.chosen)->0
    } else {
        command_result(a.verb, selected, a.attributes, a.invoked)
    }
}

/// A menu is answered after seven turns at the latest, with what the answers of the shell and of
/// the user make of it, and no popup is left.
pub proof fn law_menu_is_answered(selected: nat, has_background: bool, a: Answers)
    ensures
        ({
            let end = last_turn(first_turn(selected, has_background), a, 7);
            &&& end.action == ActionView::Finish(menu_outcome(selected, has_background, a))
            &&& !end.run.popup
        }),
{
    reveal_with_fuel(last_turn, 8);
}

/// Every action is answered by an event that the run waits for.
pub proof fn law_answers_are_awaited(run: RunView, event: EventView, a: Answers)
    requires
        awaited(run.phase, event),
    ensures
        ({
            let t = next_turn(run, event);
            t.action is Finish || awaited(t.run.phase, answer(a, t.action))
        }),
{
}

/// A popup that exists is destroyed, or still exists; none is destroyed that does not exist.
pub proof fn law_popup_is_accounted_for(run: RunView, event: EventView)
    requires
        awaited(run.phase, event),
        run.phase == PhaseView::Opening(OpenPhase::Creating) ==> !run.popup,
    ensures
        ({
            let t = next_turn(run, event);
            &&& t.destroy ==> run.popup && !t.run.popup
            &&& run.popup && !t.run.popup ==> t.destroy
            &&& t.action is Finish ==> !t.run.popup
        }),
{
}

// ----- invoking a verb without a menu -----

/// Whether a text holds the zero character.
pub open spec fn has_nul(s: Seq<char>) -> bool {
    exists|i: int| 0 <= i < s.len() && s[i] == '\0'
}

/// The zero-terminated bytes of a verb; those of the empty one where a zero stands inside it.
pub open spec fn verb_bytes(verb: Seq<char>) -> Seq<u8> {
    if has_nul(verb) {
        seq![0u8]
    } else {
        encode_utf8(verb).push(0)
    }
}

fn narrow_verb(verb: &str) -> (r: Vec<u8>)
    ensures
        r@ == verb_bytes(verb@),
{
    let mut out: Vec<u8> = Vec::new();
    let v = chars_of(verb);
    if let Some(i) = find_first(v.as_slice(), '\0') {
        proof {
            text::lemma_first_index(v@, '\0');
            assert(v@[i as int] == '\0');
        }
        out.push(0);
        assert(out@ =~= seq![0u8]);
        return out;
    }
    proof {
        text::lemma_first_index(v@, '\0');
        assert(!has_nul(verb@));
    }
    let bytes = verb.as_bytes();
    let mut i: usize = 0;
    while i < bytes.len()
        invariant
            i <= bytes.len(),
            out@ =~= bytes@.take(i as int),
        decreases bytes.len() - i,
    {
        out.push(bytes[i]);
        i += 1;
    }
    out.push(0);
    assert(out@ =~= bytes@.push(0));
    out
}

/// How a verb is invoked: on whose menu, and in which spellings.
pub struct VerbPlan {
    pub source: MenuSource,
    pub wide: Vec<u16>,
    pub narrow: Vec<u8>,
}

/// How a verb is invoked on the selection, or on the folder where nothing is selected; none where
/// there is neither.
pub fn invoke_verb_direct(selection: &[String], background: &Option<String>, verb: &str) -> (r:
    Option<VerbPlan>)
    ensures
        match r {
            Some(p) => {
                &&& p.source == source_of(selection@.len(), *background is Some)
                &&& p.source != MenuSource::Nobody
                &&& p.wide@ == wide::utf16(verb@).push(0)
                &&& p.narrow@ == verb_bytes(verb@)
            },
            None => source_of(selection@.len(), *background is Some) == MenuSource::Nobody,
        },
{
    let source = menu_source(selection, background);
    match source {
        MenuSource::Nobody => None,
        _ => Some(VerbPlan { source, wide: to_wide(verb), narrow: narrow_verb(verb) }),
    }
}

/// What is to be done with the enumerated items of quick access.
#[derive(Clone, Copy, PartialEq, Eq, Structural)]
pub enum QuickStep {
    /// The item is not there.
    Missing,
    /// The item at this position is the one.
    Invoke(usize),
    /// Ask for more items.
    More,
}

/// The position of the first text that equals `s`; the length where none does.
pub open spec fn first_equal(v: Seq<Seq<char>>, s: Seq<char>) -> int
    decreases v.len(),
{
    if v.len() == 0 || v[0] == s {
        0
    } else {
        1 + first_equal(v.drop_first(), s)
    }
}

proof fn lemma_first_equal_is(v: Seq<Seq<char>>, s: Seq<char>, k: int)
    requires
        0 <= k <= v.len(),
        k < v.len() ==> v[k] == s,
        forall|i: int| 0 <= i < k ==> v[i] != s,
    ensures
        first_equal(v, s) == k,
    decreases v.len(),
{
    if v.len() > 0 && v[0] != s {
        let d = v.drop_first();
        assert forall|i: int| 0 <= i < k - 1 implies d[i] != s by {
            assert(d[i] == v[i + 1]);
        }
        lemma_first_equal_is(d, s, k - 1);
    }
}

/// What is to be done after `fetched` items of quick access came, with these parsing names: verbs
/// that unpin work only on the item that quick access itself enumerates.
pub fn quick_access_verb(fetched: u32, names: &[String], path: &str) -> (r: QuickStep)
    ensures
        r == (if fetched == 0 {
            QuickStep::Missing
        } else if first_equal(text::texts(names@), path@) < names@.len() {
            QuickStep::Invoke(first_equal(text::texts(names@), path@) as usize)
        } else {
            QuickStep::More
        }),
{
    if fetched == 0 {
        return QuickStep::Missing;
    }
    let ghost all = text::texts(names@);
    let mut i: usize = 0;
    while i < names.len()
        invariant
            i <= names.len(),
            fetched != 0,
            all == text::texts(names@),
            forall|j: int| 0 <= j < i ==> all[j] != path@,
        decreases names.len() - i,
    {
        assert(all[i as int] == names@[i as int]@);
        if str_eq(names[i].as_str(), path) {
            proof {
                lemma_first_equal_is(all, path@, i as int);
            }
            return QuickStep::Invoke(i);
        }
        i += 1;
    }
    proof {
        lemma_first_equal_is(all, path@, i as int);
    }
    QuickStep::More
}

// ----- system actions -----

/// What an action of the "more" menu starts.
pub enum SystemAction {
    /// A program, with its parameters where it has any.
    Run { file: &'static str, params: Option<String> },
    /// The shell's own command that connects to a media server.
    AddMediaServer,
    /// Nothing: the action is not on the list.
    Unknown,
}

pub enum SystemView {
    Run { file: Seq<char>, params: Option<Seq<char>> },
    AddMediaServer,
    Unknown,
}

impl View for SystemAction {
    type V = SystemView;

    open spec fn view(&self) -> SystemView {
        match self {
            SystemAction::Run { file, params } => SystemView::Run {
                file: file@,
                params: text::opt_view(*params),
            },
            SystemAction::AddMediaServer => SystemView::AddMediaServer,
            SystemAction::Unknown => SystemView::Unknown,
        }
    }
}

/// Whether an action asks for the cleanup of one drive: it ends with a colon and the drive's letter.
pub open spec fn cleans_one_drive(action: Seq<char>) -> bool {
    &&& text::begins(action, "clean-drive:"@)
    &&& action.len() == "clean-drive:"@.len() + 1
    &&& is_drive_letter(action.last())
}

/// Whether a character is an ASCII letter.
pub open spec fn is_drive_letter(c: char) -> bool {
    'a' <= c && c <= 'z' || 'A' <= c && c <= 'Z'
}

/// Whether a character is an ASCII letter.
pub fn drive_letter(c: char) -> (r: bool)
    ensures
        r == is_drive_letter(c),
{
    'a' <= c && c <= 'z' || 'A' <= c && c <= 'Z'
}

/// The parameters of an action that `rundll32.exe` performs.
pub open spec fn rundll_params(action: Seq<char>) -> Option<Seq<char>> {
    if action == "map-drive"@ {
        Some("shell32.dll,SHHelpShortcuts_RunDLL Connect"@)
    } else if action == "disconnect-drive"@ {
        Some("shell32.dll,SHHelpShortcuts_RunDLL Disconnect"@)
    } else if action == "add-network-place"@ {
        Some("shwebsvc.dll,AddNetPlaceRunDll"@)
    } else if action == "folder-options"@ {
        Some("shell32.dll,Options_RunDLL 0"@)
    } else {
        None
    }
}

/// What an action of the "more" menu starts.
pub open spec fn action_of(action: Seq<char>) -> SystemView {
    if action == "clean-drive"@ {
        SystemView::Run { file: "cleanmgr.exe"@, params: None }
    } else if cleans_one_drive(action) {
        SystemView::Run {
            file: "cleanmgr.exe"@,
            params: Some("/d "@ + seq![action.last()] + ":"@),
        }
    } else if action == "optimize-drives"@ {
        SystemView::Run { file: "dfrgui.exe"@, params: None }
    } else if action == "add-media-server"@ {
        SystemView::AddMediaServer
    } else if rundll_params(action) is Some {
        SystemView::Run { file: "rundll32.exe"@, params: rundll_params(action) }
    } else {
        SystemView::Unknown
    }
}

/// What an action of the "more" menu starts.
pub fn system_action(action: &str) -> (r: SystemAction)
    ensures
        r@ == action_of(action@),
{
    if str_eq(action, "clean-drive") {
        return SystemAction::Run { file: "cleanmgr.exe", params: None };
    }
    if let Some(rest) = strip_prefix(action, "clean-drive:") {
        if rest.unicode_len() == 1 {
            let c = rest.get_char(0);
            assert(c == action@.last());
            if drive_letter(c) {
                let mut s = "/d ".to_owned();
                s.push(c);
                s.append(":");
                assert(s@ =~= "/d "@ + seq![c] + ":"@);
                return SystemAction::Run { file: "cleanmgr.exe", params: Some(s) };
            }
        }
    }
    if str_eq(action, "optimize-drives") {
        return SystemAction::Run { file: "dfrgui.exe", params: None };
    }
    if str_eq(action, "add-media-server") {
        return SystemAction::AddMediaServer;
    }
    let params = if str_eq(action, "map-drive") {
        "shell32.dll,SHHelpShortcuts_RunDLL Connect"
    } else if str_eq(action, "disconnect-drive") {
        "shell32.dll,SHHelpShortcuts_RunDLL Disconnect"
    } else if str_eq(action, "add-network-place") {
        "shwebsvc.dll,AddNetPlaceRunDll"
    } else if str_eq(action, "folder-options") {
        "shell32.dll,Options_RunDLL 0"
    } else {
        return SystemAction::Unknown;
    };
    SystemAction::Run { file: "rundll32.exe", params: Some(params.to_owned()) }
}

/// Whether the shell has started a program: what it gives back is above 32.
pub fn has_started(handle: usize) -> (r: bool)
    ensures
        r == (handle > 32),
{
    handle > 32
}

/// The number of a drive, from 0 for A, out of the low byte of its letter; none where that is no
/// letter.
pub open spec fn drive_number(letter: char) -> Option<u32> {
    let low = text::ascii_upper(letter) as u32 % 256;
    if 65 <= low <= 90 {
        Some((low - 65) as u32)
    } else {
        None
    }
}

/// The number of the drive to format.
pub fn format_drive(letter: char) -> (r: Option<u32>)
    ensures
        r == drive_number(letter),
{
    let low: u32 = upper_char(letter) as u32 % 256;
    if 65 <= low && low <= 90 {
        Some(low - 65)
    } else {
        None
    }
}

/// That a file operation can be undone.
pub const FOF_ALLOWUNDO: u32 = 0x40;

/// The flags to set for a deletion: what goes into the recycle bin can be undone, what is deleted
/// for good cannot, and the system asks before it does so.
pub fn delete_items(permanent: bool) -> (r: u32)
    ensures
        r == (if permanent {
            0
        } else {
            FOF_ALLOWUNDO
        }),
        r & FOF_ALLOWUNDO != 0 <==> !permanent,
{
    assert(0u32 & 0x40 == 0 && 0x40u32 & 0x40 == 0x40) by (bit_vector);
    if permanent {
        0
    } else {
        FOF_ALLOWUNDO
    }
}

/// Whether there are files to paste: dropped files, or shell items where that format has a number.
pub fn clipboard_has_files(has_drop: bool, idlist: u32, has_idlist: bool) -> (r: bool)
    ensures
        r == (has_drop || (idlist != 0 && has_idlist)),
{
    has_drop || (idlist != 0 && has_idlist)
}

// ----- items of a menu -----

/// The text of a menu item that was read into a buffer, as the system gives it.
pub fn native_text(len: i32, buf: &[u16]) -> (r: String)
    requires
        len <= buf@.len(),
    ensures
        r@ == (if len <= 0 {
            Seq::empty()
        } else {
            wide::decoded(buf@.take(len as int))
        }),
{
    if len <= 0 {
        return String::new();
    }
    counted_text(buf, len as usize)
}

/// The text of a menu item as it is shown: without the marks of access keys.
pub open spec fn item_text(native: Seq<char>) -> Seq<char> {
    text::without(native, '&')
}

/// The text of a menu item as it is shown.
pub fn menu_item_text(native: &str) -> (r: String)
    ensures
        r@ == item_text(native@),
{
    remove_char(native, '&')
}

/// Whether a handle in a menu item is a bitmap of its own: small numbers stand for stock marks.
pub fn is_own_bitmap(handle: usize) -> (r: bool)
    ensures
        r == (handle > 16),
{
    handle > 16
}

/// The offset of a command of the shell; none for numbers that it does not give.
pub fn verb_offset(id: u32) -> (r: Option<u32>)
    ensures
        r == (if ID_FIRST <= id <= ID_LAST {
            Some((id - ID_FIRST) as u32)
        } else {
            None
        }),
{
    if ID_FIRST <= id && id <= ID_LAST {
        Some(id - ID_FIRST)
    } else {
        None
    }
}

/// Whether a number stands for a separator or for a menu without one.
pub open spec fn is_blank_id(id: u32) -> bool {
    id == 0 || id == u32::MAX
}

// ----- the "new" menu -----

/// Whether a menu item is the one that opens the "new" menu.
pub open spec fn is_new_label(s: Seq<char>) -> bool {
    (exists|i: int| text::occurs_at(s, "新建"@, i)) || text::begins(s, "New"@)
}

/// The first item that opens another menu and is called "new"; the length where there is none.
pub open spec fn new_position(items: Seq<(bool, Seq<char>)>) -> int
    decreases items.len(),
{
    if items.len() == 0 || (items[0].0 && is_new_label(items[0].1)) {
        0
    } else {
        1 + new_position(items.drop_first())
    }
}

/// An item of a folder's menu: whether it opens another menu, and its text as the system gives it.
pub struct TopItem {
    pub has_sub: bool,
    pub text: String,
}

pub open spec fn top_views(v: Seq<TopItem>) -> Seq<(bool, Seq<char>)> {
    v.map_values(|t: TopItem| (t.has_sub, item_text(t.text@)))
}

proof fn lemma_new_position_is(items: Seq<(bool, Seq<char>)>, k: int)
    requires
        0 <= k <= items.len(),
        k < items.len() ==> items[k].0 && is_new_label(items[k].1),
        forall|i: int| 0 <= i < k ==> !((#[trigger] items[i]).0 && is_new_label(items[i].1)),
    ensures
        new_position(items) == k,
    decreases items.len(),
{
    if items.len() > 0 && !(items[0].0 && is_new_label(items[0].1)) {
        let d = items.drop_first();
        assert forall|i: int| 0 <= i < k - 1 implies !((#[trigger] d[i]).0 && is_new_label(
            d[i].1,
        )) by {
            assert(d[i] == items[i + 1]);
        }
        lemma_new_position_is(d, k - 1);
    }
}

/// The position of the "new" menu among the items of a folder's menu.
pub fn find_new_menu(items: &[TopItem]) -> (r: Option<usize>)
    ensures
        match r {
            Some(i) => i < items@.len() && i == new_position(top_views(items@)),
            None => new_position(top_views(items@)) == items@.len(),
        },
{
    let ghost all = top_views(items@);
    let mut i: usize = 0;
    while i < items.len()
        invariant
            i <= items.len(),
            all == top_views(items@),
            forall|j: int| 0 <= j < i ==> !((#[trigger] all[j]).0 && is_new_label(all[j].1)),
        decreases items.len() - i,
    {
        let item = &items[i];
        let shown = menu_item_text(item.text.as_str());
        assert(all[i as int] == (item.has_sub, shown@));
        if item.has_sub && (contains_text(shown.as_str(), "新建") || starts_with(
            shown.as_str(),
            "New",
        )) {
            proof {
                lemma_new_position_is(all, i as int);
            }
            return Some(i);
        }
        i += 1;
    }
    proof {
        lemma_new_position_is(all, i as int);
    }
    None
}

/// An entry of the "new" menu.
pub struct NewMenuEntry {
    pub id: u32,
    pub label: String,
    pub icon: Option<String>,
    /// Whether the entry is a separator, which keeps the groups of the native menu.
    pub separator: bool,
}

#[verifier::ext_equal]
pub struct NewEntryView {
    pub id: u32,
    pub label: Seq<char>,
    pub icon: Option<Seq<char>>,
    pub separator: bool,
}

impl View for NewMenuEntry {
    type V = NewEntryView;

    open spec fn view(&self) -> NewEntryView {
        NewEntryView {
            id: self.id,
            label: self.label@,
            icon: text::opt_view(self.icon),
            separator: self.separator,
        }
    }
}

pub open spec fn new_views(v: Seq<NewMenuEntry>) -> Seq<NewEntryView> {
    v.map_values(|e: NewMenuEntry| e@)
}

/// What the native menu holds at one position, its text as the system gives it.
pub struct NewItem {
    pub id: u32,
    pub text: String,
    pub icon: Option<String>,
}

#[verifier::ext_equal]
pub struct NewItemView {
    pub id: u32,
    pub text: Seq<char>,
    pub icon: Option<Seq<char>>,
}

impl View for NewItem {
    type V = NewItemView;

    open spec fn view(&self) -> NewItemView {
        NewItemView { id: self.id, text: self.text@, icon: text::opt_view(self.icon) }
    }
}

pub open spec fn new_item_views(v: Seq<NewItem>) -> Seq<NewItemView> {
    v.map_values(|e: NewItem| e@)
}

pub open spec fn new_separator() -> NewEntryView {
    NewEntryView { id: 0, label: ""@, icon: None, separator: true }
}

/// The entries of the items: separators only between entries, and one at a time; no entry without
/// a label.
pub open spec fn listed_new(items: Seq<NewItemView>) -> Seq<NewEntryView>
    decreases items.len(),
{
    if items.len() == 0 {
        Seq::empty()
    } else {
        let before = listed_new(items.drop_last());
        let item = items.last();
        if is_blank_id(item.id) {
            if before.len() > 0 && !before.last().separator {
                before.push(new_separator())
            } else {
                before
            }
        } else if item_text(item.text).len() == 0 {
            before
        } else {
            before.push(
                NewEntryView {
                    id: item.id,
                    label: item_text(item.text),
                    icon: item.icon,
                    separator: false,
                },
            )
        }
    }
}

/// The list without the separators at its end.
pub open spec fn closed_new(v: Seq<NewEntryView>) -> Seq<NewEntryView>
    decreases v.len(),
{
    if v.len() > 0 && v.last().separator {
        closed_new(v.drop_last())
    } else {
        v
    }
}

fn new_entries(items: &[NewItem]) -> (r: Vec<NewMenuEntry>)
    ensures
        new_views(r@) == closed_new(listed_new(new_item_views(items@))),
{
    let ghost all = new_item_views(items@);
    let mut out: Vec<NewMenuEntry> = Vec::new();
    let mut i: usize = 0;
    while i < items.len()
        invariant
            i <= items.len(),
            all == new_item_views(items@),
            new_views(out@) =~= listed_new(all.take(i as int)),
        decreases items.len() - i,
    {
        let ghost before = out@;
        let item = &items[i];
        proof {
            assert(all.take(i + 1).drop_last() =~= all.take(i as int));
            assert(all.take(i + 1).last() == item@);
            assert(new_views(before).len() == before.len());
            if before.len() > 0 {
                assert(new_views(before).last() == before.last()@);
            }
        }
        let label = menu_item_text(item.text.as_str());
        if item.id == 0 || item.id == u32::MAX {
            let n = out.len();
            if n > 0 && !out[n - 1].separator {
                out.push(
                    NewMenuEntry { id: 0, label: "".to_owned(), icon: None, separator: true },
                );
                assert(out@.last()@ =~= new_separator());
                assert(new_views(out@) =~= new_views(before).push(new_separator()));
            }
        } else if !label.as_str().is_empty() {
            out.push(
                NewMenuEntry {
                    id: item.id,
                    label,
                    icon: copy_opt(&item.icon),
                    separator: false,
                },
            );
            assert(new_views(out@) =~= new_views(before).push(out@.last()@));
        }
        i += 1;
    }
    assert(all.take(all.len() as int) =~= all);
    while out.len() > 0 && out[out.len() - 1].separator
        invariant
            closed_new(new_views(out@)) == closed_new(listed_new(all)),
        decreases out.len(),
    {
        let ghost before = out@;
        out.pop();
        assert(new_views(out@) =~= new_views(before).drop_last());
    }
    proof {
        if out@.len() > 0 {
            assert(new_views(out@).last() == out@.last()@);
        }
    }
    out
}

/// Whether separators stand only between entries, and one at a time.
pub open spec fn is_tidy(marks: Seq<bool>) -> bool {
    &&& marks.len() > 0 ==> !marks[0] && !marks.last()
    &&& forall|i: int, j: int| 0 <= i && j == i + 1 && j < marks.len() ==> !(marks[i] && marks[j])
}

pub open spec fn new_marks(v: Seq<NewEntryView>) -> Seq<bool> {
    v.map_values(|e: NewEntryView| e.separator)
}

proof fn lemma_listed_new(items: Seq<NewItemView>)
    ensures
        ({
            let v = listed_new(items);
            &&& v.len() > 0 ==> !v[0].separator
            &&& forall|i: int, j: int|
                0 <= i && j == i + 1 && j < v.len() ==> !((#[trigger] v[i]).separator
                    && (#[trigger] v[j]).separator)
            &&& forall|i: int|
                0 <= i < v.len() ==> is_sound_new(#[trigger] v[i])
        }),
    decreases items.len(),
{
    if items.len() > 0 {
        lemma_listed_new(items.drop_last());
        text::lemma_without(items.last().text, '&');
        reveal_strlit("");
        let before = listed_new(items.drop_last());
        let v = listed_new(items);
        assert forall|i: int| 0 <= i < v.len() implies is_sound_new(#[trigger] v[i]) by {
            if i < before.len() {
                assert(v[i] == before[i]);
            }
        }
    }
}

/// Whether a separator of the "new" menu holds nothing, and any other entry a number of a command
/// and a label without marks of access keys.
pub open spec fn is_sound_new(e: NewEntryView) -> bool {
    if e.separator {
        e.id == 0 && e.label.len() == 0 && e.icon is None
    } else {
        !is_blank_id(e.id) && e.label.len() > 0 && !e.label.contains('&')
    }
}

/// In the "new" menu separators stand only between entries, and one at a time, and hold nothing;
/// every other entry has the number of a command and a label without marks of access keys.
pub proof fn law_new_menu_is_tidy(items: Seq<NewItemView>)
    ensures
        ({
            let v = closed_new(listed_new(items));
            &&& is_tidy(new_marks(v))
            &&& forall|i: int| 0 <= i < v.len() ==> is_sound_new(#[trigger] v[i])
        }),
{
    lemma_listed_new(items);
    let all = listed_new(items);
    let v = closed_new(all);
    lemma_closed_new(all);
    assert forall|i: int, j: int| 0 <= i && j == i + 1 && j < v.len() implies !(new_marks(v)[i]
        && new_marks(v)[j]) by {
        assert(v[i] == all[i] && v[j] == all[j]);
    }
    if v.len() > 0 {
        assert(v[0] == all[0]);
        assert(new_marks(v).last() == v.last().separator);
    }
    assert forall|i: int| 0 <= i < v.len() implies is_sound_new(#[trigger] v[i]) by {
        assert(v[i] == all[i]);
    }
}

proof fn lemma_closed_new(all: Seq<NewEntryView>)
    ensures
        closed_new(all).len() <= all.len(),
        forall|i: int| 0 <= i < closed_new(all).len() ==> closed_new(all)[i] == all[i],
        closed_new(all).len() > 0 ==> !closed_new(all).last().separator,
    decreases all.len(),
{
    if all.len() > 0 && all.last().separator {
        let d = all.drop_last();
        lemma_closed_new(d);
        assert forall|i: int| 0 <= i < closed_new(all).len() implies closed_new(all)[i]
            == all[i] by {
            assert(closed_new(d)[i] == d[i]);
        }
    }
}

// ----- the tree of a context menu -----

/// An entry of a context menu, with the entries that it opens.
pub struct CtxNode {
    pub id: u32,
    pub label: String,
    pub accel: String,
    pub verb: String,
    pub icon: Option<String>,
    pub separator: bool,
    pub children: Vec<CtxNode>,
}

#[verifier::ext_equal]
pub struct CtxView {
    pub id: u32,
    pub label: Seq<char>,
    pub accel: Seq<char>,
    pub verb: Seq<char>,
    pub icon: Option<Seq<char>>,
    pub separator: bool,
    pub children: Seq<CtxView>,
}

/// The content of an entry.
pub open spec fn ctx_view(n: CtxNode) -> CtxView
    decreases n,
{
    CtxView {
        id: n.id,
        label: n.label@,
        accel: n.accel@,
        verb: n.verb@,
        icon: text::opt_view(n.icon),
        separator: n.separator,
        children: ctx_views(n.children@),
    }
}

/// The contents of entries.
pub open spec fn ctx_views(v: Seq<CtxNode>) -> Seq<CtxView>
    decreases v,
{
    Seq::new(
        v.len(),
        |i: int|
            if 0 <= i < v.len() {
                ctx_view(v[i])
            } else {
                arbitrary()
            },
    )
}

/// What the native menu holds at one position, its text as the system gives it. The verb matters
/// only for commands of the shell.
pub struct RawItem {
    pub id: u32,
    pub text: String,
    pub verb: String,
    pub icon: Option<String>,
    pub sub: Option<RawSub>,
}

/// A menu that opens from an item: what it holds, and what it holds once it has been asked to fill
/// itself, which matters only where it held nothing to show.
pub struct RawSub {
    pub items: Vec<RawItem>,
    pub refilled: Vec<RawItem>,
}

pub open spec fn ctx_separator() -> CtxView {
    CtxView {
        id: 0,
        label: ""@,
        accel: ""@,
        verb: ""@,
        icon: None,
        separator: true,
        children: Seq::empty(),
    }
}

/// The label before the first tab of a text; all of it where there is none.
pub open spec fn label_part(s: Seq<char>) -> Seq<char> {
    s.take(text::first_index(s, '\t'))
}

/// The access key after the first tab of a text; empty where there is none.
pub open spec fn accel_part(s: Seq<char>) -> Seq<char> {
    let k = text::first_index(s, '\t');
    if k < s.len() {
        s.skip(k + 1)
    } else {
        Seq::empty()
    }
}

/// Whether what the items of a menu at a depth open is shown: four levels are, at most.
pub fn shows_submenus(depth: u32) -> (r: bool)
    ensures
        r == (depth < 3),
{
    depth < 3
}

/// The entries that an item opens: four levels are shown at most.
pub open spec fn opened_by(item: RawItem, depth: nat) -> Seq<CtxView>
    decreases
            (if depth < 3 {
                3 - depth
            } else {
                0
            }),
            0nat,
            0nat,
{
    match item.sub {
        Some(sub) => if depth < 3 {
            let first = tree(sub.items@, depth + 1);
            if first.len() == 0 {
                tree(sub.refilled@, depth + 1)
            } else {
                first
            }
        } else {
            Seq::empty()
        },
        None => Seq::empty(),
    }
}

/// The entry of an item that is neither a separator nor without a text.
pub open spec fn entry_of(item: RawItem, depth: nat) -> CtxView
    decreases
            (if depth < 3 {
                3 - depth
            } else {
                0
            }),
            0nat,
            1nat,
{
    CtxView {
        id: item.id,
        label: label_part(item_text(item.text@)),
        accel: accel_part(item_text(item.text@)),
        verb: if ID_FIRST <= item.id <= ID_LAST {
            item.verb@
        } else {
            Seq::empty()
        },
        icon: text::opt_view(item.icon),
        separator: false,
        children: opened_by(item, depth),
    }
}

/// The entries of the items: separators only between entries, and one at a time; no entry for an
/// item without a text.
pub open spec fn listed(items: Seq<RawItem>, depth: nat) -> Seq<CtxView>
    decreases
            (if depth < 3 {
                3 - depth
            } else {
                0
            }),
            items.len() + 1,
            0nat,
{
    if items.len() == 0 {
        Seq::empty()
    } else {
        let before = listed(items.drop_last(), depth);
        let item = items.last();
        if item.sub is None && is_blank_id(item.id) {
            if before.len() > 0 && !before.last().separator {
                before.push(ctx_separator())
            } else {
                before
            }
        } else if item_text(item.text@).len() == 0 {
            before
        } else {
            before.push(entry_of(item, depth))
        }
    }
}

/// The list without the separators at its end.
pub open spec fn closed(v: Seq<CtxView>) -> Seq<CtxView>
    decreases v.len(),
{
    if v.len() > 0 && v.last().separator {
        closed(v.drop_last())
    } else {
        v
    }
}

/// The entries that are shown for a menu at a depth.
pub open spec fn tree(items: Seq<RawItem>, depth: nat) -> Seq<CtxView>
    decreases
            (if depth < 3 {
                3 - depth
            } else {
                0
            }),
            items.len() + 1,
            1nat,
{
    closed(listed(items, depth))
}

fn split_label(s: &str) -> (r: (String, String))
    ensures
        r.0@ == label_part(s@),
        r.1@ == accel_part(s@),
{
    let v = chars_of(s);
    let n = v.len();
    match find_first(v.as_slice(), '\t') {
        Some(k) => {
            let label = string_of(&v.as_slice()[0..k]);
            let accel = string_of(&v.as_slice()[k + 1..n]);
            assert(label@ =~= label_part(s@));
            assert(accel@ =~= accel_part(s@));
            (label, accel)
        },
        None => {
            assert(label_part(s@) =~= s@);
            (s.to_owned(), String::new())
        },
    }
}

/// The entries that are shown for a menu at a depth.
pub fn enum_menu_tree(items: &Vec<RawItem>, depth: u32) -> (r: Vec<CtxNode>)
    ensures
        ctx_views(r@) == tree(items@, depth as nat),
    decreases
            (if depth < 3 {
                3 - depth
            } else {
                0
            }),
{
    let mut out: Vec<CtxNode> = Vec::new();
    let mut i: usize = 0;
    while i < items.len()
        invariant
            i <= items.len(),
            ctx_views(out@) =~= listed(items@.take(i as int), depth as nat),
        decreases items.len() - i,
    {
        let ghost before = out@;
        let item = &items[i];
        proof {
            assert(items@.take(i + 1).drop_last() =~= items@.take(i as int));
            assert(items@.take(i + 1).last() == item);
            assert(ctx_views(before).len() == before.len());
            if before.len() > 0 {
                assert(ctx_views(before).last() == ctx_view(before.last()));
            }
        }
        let shown = menu_item_text(item.text.as_str());
        if item.sub.is_none() && (item.id == 0 || item.id == u32::MAX) {
            let n = out.len();
            if n > 0 && !out[n - 1].separator {
                let node = CtxNode {
                    id: 0,
                    label: "".to_owned(),
                    accel: "".to_owned(),
                    verb: "".to_owned(),
                    icon: None,
                    separator: true,
                    children: Vec::new(),
                };
                assert(ctx_view(node).children =~= Seq::empty());
                assert(ctx_view(node) =~= ctx_separator());
                out.push(node);
                assert(ctx_views(out@) =~= ctx_views(before).push(ctx_separator()));
            }
        } else if !shown.as_str().is_empty() {
            let (label, accel) = split_label(shown.as_str());
            let mut children: Vec<CtxNode> = Vec::new();
            assert(ctx_views(children@) =~= Seq::empty());
            if let Some(sub) = &item.sub {
                if shows_submenus(depth) {
                    children = enum_menu_tree(&sub.items, depth + 1);
                    assert(ctx_views(children@).len() == children@.len());
                    if children.is_empty() {
                        children = enum_menu_tree(&sub.refilled, depth + 1);
                    }
                }
            }
            let verb = if ID_FIRST <= item.id && item.id <= ID_LAST {
                item.verb.clone()
            } else {
                String::new()
            };
            let node = CtxNode {
                id: item.id,
                label,
                accel,
                verb,
                icon: copy_opt(&item.icon),
                separator: false,
                children,
            };
            assert(ctx_view(node) =~= entry_of(*item, depth as nat));
            out.push(node);
            assert(ctx_views(out@) =~= ctx_views(before).push(entry_of(*item, depth as nat)));
        }
        i += 1;
    }
    assert(items@.take(items@.len() as int) =~= items@);
    while out.len() > 0 && out[out.len() - 1].separator
        invariant
            closed(ctx_views(out@)) == tree(items@, depth as nat),
        decreases out.len(),
    {
        let ghost before = out@;
        assert(ctx_views(before).last() == ctx_view(before.last()));
        out.pop();
        assert(ctx_views(out@) =~= ctx_views(before).drop_last());
    }
    proof {
        if out@.len() > 0 {
            assert(ctx_views(out@).last() == ctx_view(out@.last()));
        }
    }
    out
}

pub open spec fn ctx_marks(v: Seq<CtxView>) -> Seq<bool> {
    v.map_values(|e: CtxView| e.separator)
}

/// Whether a separator holds nothing, and any other entry a label without tabs and marks of access
/// keys, and a verb only where its number is one of the shell's.
pub open spec fn is_sound(e: CtxView) -> bool {
    if e.separator {
        e.id == 0 && e.label.len() == 0 && e.accel.len() == 0 && e.verb.len() == 0 && e.icon is None
            && e.children.len() == 0
    } else {
        &&& !e.label.contains('\t')
        &&& !e.label.contains('&')
        &&& !(ID_FIRST <= e.id <= ID_LAST) ==> e.verb.len() == 0
    }
}

/// Whether entries and all that they open, down to `levels` levels, are sound, have separators only
/// between entries and one at a time, and open nothing below.
pub open spec fn tidy_tree(v: Seq<CtxView>, levels: nat) -> bool
    decreases levels,
{
    &&& is_tidy(ctx_marks(v))
    &&& forall|i: int| 0 <= i < v.len() ==> is_sound(#[trigger] v[i])
    &&& forall|i: int|
        0 <= i < v.len() ==> (if levels == 0 {
            (#[trigger] v[i]).children.len() == 0
        } else {
            tidy_tree(v[i].children, (levels - 1) as nat)
        })
}

/// How many levels are shown below a menu at a depth.
pub open spec fn levels_below(depth: nat) -> nat {
    if depth < 3 {
        (3 - depth) as nat
    } else {
        0
    }
}

/// Whether what entries open is tidy, down to the last level that is shown.
spec fn opens_tidily(e: CtxView, depth: nat) -> bool {
    if depth < 3 {
        tidy_tree(e.children, levels_below(depth + 1))
    } else {
        e.children.len() == 0
    }
}

proof fn lemma_entry(item: RawItem, depth: nat)
    ensures
        is_sound(entry_of(item, depth)),
        opens_tidily(entry_of(item, depth), depth),
    decreases levels_below(depth), 0nat,
{
    let e = entry_of(item, depth);
    let shown = item_text(item.text@);
    text::lemma_without(item.text@, '&');
    text::lemma_first_index(shown, '\t');
    assert forall|c: char| e.label.contains(c) implies shown.contains(c) && c != '\t' by {
        let i = choose|i: int| 0 <= i < e.label.len() && e.label[i] == c;
        assert(shown[i] == c);
    }
    assert(e.children == opened_by(item, depth));
    if depth < 3 {
        lemma_nothing_is_tidy(levels_below(depth + 1));
        if let Some(sub) = item.sub {
            lemma_tree_is_tidy(sub.items@, depth + 1);
            lemma_tree_is_tidy(sub.refilled@, depth + 1);
        }
    }
}

proof fn lemma_listed(items: Seq<RawItem>, depth: nat)
    ensures
        ({
            let v = listed(items, depth);
            &&& v.len() > 0 ==> !v[0].separator
            &&& forall|i: int, j: int|
                0 <= i && j == i + 1 && j < v.len() ==> !((#[trigger] v[i]).separator
                    && (#[trigger] v[j]).separator)
            &&& forall|i: int|
                0 <= i < v.len() ==> is_sound(#[trigger] v[i]) && opens_tidily(v[i], depth)
        }),
    decreases levels_below(depth), items.len() + 1,
{
    if items.len() > 0 {
        lemma_listed(items.drop_last(), depth);
        let before = listed(items.drop_last(), depth);
        let v = listed(items, depth);
        let item = items.last();
        lemma_entry(item, depth);
        lemma_nothing_is_tidy(levels_below(depth + 1));
        reveal_strlit("");
        assert forall|i: int| 0 <= i < v.len() implies is_sound(#[trigger] v[i]) && opens_tidily(
            v[i],
            depth,
        ) by {
            if i < before.len() {
                assert(v[i] == before[i]);
            } else {
                assert(v[i] == ctx_separator() || v[i] == entry_of(item, depth));
            }
        }
    }
}

proof fn lemma_nothing_is_tidy(levels: nat)
    ensures
        tidy_tree(Seq::empty(), levels),
{
    assert(is_tidy(ctx_marks(Seq::empty())));
}

proof fn lemma_closed(all: Seq<CtxView>)
    ensures
        closed(all).len() <= all.len(),
        forall|i: int| 0 <= i < closed(all).len() ==> closed(all)[i] == all[i],
        closed(all).len() > 0 ==> !closed(all).last().separator,
    decreases all.len(),
{
    if all.len() > 0 && all.last().separator {
        let d = all.drop_last();
        lemma_closed(d);
        assert forall|i: int| 0 <= i < closed(all).len() implies closed(all)[i] == all[i] by {
            assert(closed(d)[i] == d[i]);
        }
    }
}

proof fn lemma_tree_is_tidy(items: Seq<RawItem>, depth: nat)
    ensures
        tidy_tree(tree(items, depth), levels_below(depth)),
    decreases levels_below(depth), items.len() + 2,
{
    lemma_listed(items, depth);
    let all = listed(items, depth);
    let v = tree(items, depth);
    lemma_closed(all);
    let marks = ctx_marks(v);
    assert forall|i: int, j: int| 0 <= i && j == i + 1 && j < marks.len() implies !(marks[i]
        && marks[j]) by {
        assert(v[i] == all[i] && v[j] == all[j]);
    }
    if v.len() > 0 {
        assert(v[0] == all[0]);
        assert(marks.last() == v.last().separator);
    }
    assert forall|i: int| 0 <= i < v.len() implies is_sound(#[trigger] v[i]) && opens_tidily(
        v[i],
        depth,
    ) by {
        assert(v[i] == all[i]);
    }
}

/// In the tree of a menu at any depth, on every level, separators stand only between entries, one
/// at a time, and hold nothing; labels are without tabs and marks of access keys; only the shell's
/// own commands have a verb. From the fourth level on no entry opens anything.
pub proof fn law_menu_tree_is_tidy(items: Seq<RawItem>, depth: nat)
    ensures
        tidy_tree(tree(items, depth), levels_below(depth)),
        depth >= 3 ==> forall|i: int|
            0 <= i < tree(items, depth).len() ==> (#[trigger] tree(items, depth)[i]).children.len()
                == 0,
{
    lemma_tree_is_tidy(items, depth);
}

// ----- menus that wait for a choice -----

/// A context menu that is shown as a tree: its popup, by handle, and what is selected.
pub struct CtxMenu {
    pub popup: u64,
    pub selection: Vec<String>,
}

/// The context menu that waits for a choice, if there is one.
pub struct PendingCtx {
    pub menu: Option<CtxMenu>,
}

/// The popup of the "new" menu that waits for a choice, by handle, if there is one.
pub struct PendingNew {
    pub menu: Option<u64>,
}

/// Gives up the context menu that waits; its popup, where there is one, is to be destroyed.
pub fn close_ctx(pending: &mut PendingCtx) -> (r: Option<u64>)
    ensures
        r == (match old(pending).menu {
            Some(m) => Some(m.popup),
            None => None,
        }),
        final(pending).menu is None,
{
    let m = pending.menu.take();
    match m {
        Some(m) => Some(m.popup),
        None => None,
    }
}

/// The tree of a context menu, which waits for a choice from now on. One that waited before has
/// been given up.
pub fn get_ctx_menu(
    pending: &mut PendingCtx,
    popup: u64,
    selection: Vec<String>,
    items: &Vec<RawItem>,
) -> (r: Vec<CtxNode>)
    requires
        old(pending).menu is None,
    ensures
        final(pending).menu == Some(CtxMenu { popup, selection }),
        ctx_views(r@) == tree(items@, 0),
{
    pending.menu = Some(CtxMenu { popup, selection });
    enum_menu_tree(items, 0)
}

/// The first turn of a command that was chosen in the tree.
pub open spec fn ctx_turn(menu: Option<CtxMenu>, id: u32) -> TurnView {
    match menu {
        Some(m) => turn_to(
            RunView { selected: m.selection@.len(), phase: PhaseView::Over, popup: true },
            PhaseView::Asking((id - ID_FIRST) as u32),
            ActionView::AskVerb((id - ID_FIRST) as u32),
        ),
        None => end_of(
            RunView { selected: 0, phase: PhaseView::Over, popup: false },
            nothing(),
        ),
    }
}

/// The first turn of a command that was chosen in the tree, and the menu that it belongs to, which
/// waits no longer. The turns that follow are those of `show_menu`.
pub fn invoke_ctx(pending: &mut PendingCtx, id: u32) -> (r: (Turn, Option<CtxMenu>))
    requires
        old(pending).menu is Some ==> id >= ID_FIRST,
    ensures
        r.0@ == ctx_turn(old(pending).menu, id),
        r.1 == old(pending).menu,
        final(pending).menu is None,
{
    let m = pending.menu.take();
    match m {
        Some(m) => {
            let run = MenuRun {
                selected: m.selection.len(),
                phase: MenuPhase::Over,
                popup: true,
            };
            let t = turn(
                run,
                MenuPhase::Asking(id - ID_FIRST),
                MenuAction::AskVerb(id - ID_FIRST),
            );
            (t, Some(m))
        },
        None => {
            let run = MenuRun { selected: 0, phase: MenuPhase::Over, popup: false };
            (end_turn(run, none_result()), None)
        },
    }
}

/// A command that was chosen in the tree is answered as one that was chosen in the native menu, and
/// its popup is destroyed in the last turn.
pub proof fn law_ctx_command_is_answered(menu: CtxMenu, id: u32, a: Answers)
    requires
        id >= ID_FIRST,
    ensures
        ({
            let end = last_turn(ctx_turn(Some(menu), id), a, 3);
            &&& end.action == ActionView::Finish(
                command_result(a.verb, menu.selection@.len(), a.attributes, a.invoked),
            )
            &&& end.destroy && !end.run.popup
        }),
{
    reveal_with_fuel(last_turn, 4);
}

/// Gives up the "new" menu that waits; its popup, where there is one, is to be destroyed.
pub fn clear_pending_new(pending: &mut PendingNew) -> (r: Option<u64>)
    ensures
        r == old(pending).menu,
        final(pending).menu is None,
{
    pending.menu.take()
}

/// The entries of the "new" menu, which waits for a choice from now on: `popup` is the folder's
/// menu that holds it, and missing where there is no "new" menu, and then none waits. One that
/// waited before has been given up.
pub fn get_new_menu(pending: &mut PendingNew, popup: Option<u64>, items: &[NewItem]) -> (r: Vec<
    NewMenuEntry,
>)
    requires
        old(pending).menu is None,
    ensures
        final(pending).menu == popup,
        new_views(r@) == (if popup is Some {
            closed_new(listed_new(new_item_views(items@)))
        } else {
            Seq::empty()
        }),
{
    if popup.is_none() {
        let none: Vec<NewMenuEntry> = Vec::new();
        assert(new_views(none@) =~= Seq::empty());
        return none;
    }
    pending.menu = popup;
    new_entries(items)
}

/// The popup of the "new" menu and the offset of the entry that was chosen in it; none where no
/// menu waits. The menu waits no longer.
pub fn invoke_new(pending: &mut PendingNew, id: u32) -> (r: Option<(u64, u32)>)
    requires
        old(pending).menu is Some ==> id >= ID_FIRST,
    ensures
        r == (match old(pending).menu {
            Some(popup) => Some((popup, (id - ID_FIRST) as u32)),
            None => None,
        }),
        final(pending).menu is None,
{
    let m = pending.menu.take();
    match m {
        Some(popup) => Some((popup, id - ID_FIRST)),
        None => None,
    }
}

// ----- laws -----

/// Whether a number is one of the application's own: a view, a sort column, a direction, or the
/// refresh.
pub open spec fn is_own_number(n: u32) -> bool {
    0x9000 <= n <= 0x9007 || 0x9010 <= n <= 0x9015 || n == 0x9020
}

/// In a run of a menu, whatever the shell answers, every verb that is asked for and every command
/// that is invoked is the one at the offset of the number that the user chose, which is counted
/// from 1; and neither is done for one of the application's own numbers, nor where nothing was
/// chosen.
pub proof fn law_chosen_command_is_run(selected: nat, has_background: bool, a: Answers, n: nat)
    requires
        n <= 7,
    ensures
        ({
            let t = last_turn(first_turn(selected, has_background), a, n);
            &&& t.action matches ActionView::AskVerb(offset) ==> offset + 1 == a.chosen
                && !is_own_number(a.chosen)
            &&& t.action matches ActionView::Invoke(offset) ==> offset + 1 == a.chosen
                && !is_own_number(a.chosen)
        }),
{
    reveal_with_fuel(last_turn, 8);
}

/// From a chosen number on, the offset stays the same through the verb and the attributes up to the
/// invocation, whatever is answered.
pub proof fn law_offset_is_kept(run: RunView, c: u32, verb: Seq<char>, attributes: Option<u32>)
    requires
        run.phase == PhaseView::Tracking,
        c >= 1,
        !is_own_number(c),
    ensures
        ({
            let asked = next_turn(run, EventView::Chosen(c));
            let told = next_turn(asked.run, EventView::Verb(verb));
            let seen = next_turn(told.run, EventView::Attributes(attributes));
            &&& asked.action matches ActionView::AskVerb(offset) && offset + 1 == c
            &&& told.action is Finish || told.action is AskAttributes || told.action
                == ActionView::Invoke((c - 1) as u32)
            &&& told.action is AskAttributes ==> seen.action is Finish || seen.action
                == ActionView::Invoke((c - 1) as u32)
            &&& asked.run.selected == run.selected && told.run.selected == run.selected
        }),
{
}

/// An entry that was chosen in the tree is the command at the offset of its number, of the menu
/// that waits; without one nothing is asked.
pub proof fn law_ctx_offset(menu: CtxMenu, id: u32, verb: Seq<char>)
    requires
        id >= 1,
    ensures
        ({
            let asked = ctx_turn(Some(menu), id);
            let told = next_turn(asked.run, EventView::Verb(verb));
            &&& asked.action matches ActionView::AskVerb(offset) && offset + 1 == id
            &&& told.action matches ActionView::Invoke(offset) ==> offset + 1 == id
            &&& asked.run.selected == menu.selection@.len() && asked.run.popup && !asked.destroy
        }),
        ({
            let t = ctx_turn(None, id);
            &&& t.action == ActionView::Finish(ResultView { action: "none"@, verb: ""@ })
            &&& !t.destroy
        }),
{
}

/// What a command of the shell comes to: renaming is left to the front end; opening a single real
/// folder navigates to it; anything else is invoked, and the answer says whether that worked. The
/// verb is always told.
pub proof fn law_command_result(
    verb: Seq<char>,
    selected: nat,
    attributes: Option<u32>,
    invoked: bool,
)
    ensures
        ({
            let r = command_result(verb, selected, attributes, invoked);
            let folder = attributes matches Some(x) && x & 0x2000_0000 != 0 && x & 0x40_0000 == 0;
            &&& r.verb == verb
            &&& verb == "rename"@ ==> r.action == "rename"@
            &&& verb != "rename"@ && verb == "open"@ && selected == 1 && folder ==> r.action
                == "navigate"@
            &&& verb != "rename"@ && !(verb == "open"@ && selected == 1 && folder) ==> r.action == (
            if invoked {
                "invoked"@
            } else {
                "none"@
            })
        }),
{
}

/// What a whole menu comes to: nothing where it could not be shown or nothing was chosen; the
/// application's own item where one was chosen; else what the command comes to.
pub proof fn law_menu_outcome(selected: nat, has_background: bool, a: Answers)
    ensures
        ({
            let r = menu_outcome(selected, has_background, a);
            let shown = (selected > 0 || has_background) && a.bound && a.created && a.filled;
            &&& !shown || a.chosen == 0 ==> r == (ResultView { action: "none"@, verb: ""@ })
            &&& shown && is_own_number(a.chosen) ==> Some(r) == own_result(a.chosen)
            &&& shown && a.chosen != 0 && !is_own_number(a.chosen) ==> r == command_result(
                a.verb,
                selected,
                a.attributes,
                a.invoked,
            )
        }),
{
}

/// A menu is opened step by step: the selection's, else the folder's; the popup of a folder begins
/// with the application's own items and that of a selection does not; a step that fails ends the
/// run, with the popup destroyed where there is one.
pub proof fn law_menu_opens(selected: nat, has_background: bool, run: RunView)
    ensures
        ({
            let t = first_turn(selected, has_background);
            &&& selected > 0 ==> t.action == ActionView::Bind(MenuSource::Items)
            &&& selected == 0 && has_background ==> t.action == ActionView::Bind(
                MenuSource::Background,
            )
            &&& selected == 0 && !has_background ==> t.action is Finish
            &&& !t.destroy && !t.run.popup && t.run.selected == selected
        }),
        run.phase == PhaseView::Opening(OpenPhase::Binding) ==> {
            let t = next_turn(run, EventView::Done(true));
            &&& t.action == ActionView::Create && t.run.popup == run.popup
            &&& next_turn(run, EventView::Done(false)).action is Finish
        },
        run.phase == PhaseView::Opening(OpenPhase::Creating) ==> {
            let t = next_turn(run, EventView::Done(true));
            &&& t.action == (ActionView::Fill { inject: run.selected == 0 }) && t.run.popup
            &&& next_turn(run, EventView::Done(false)).action is Finish
        },
        run.phase == PhaseView::Opening(OpenPhase::Filling) ==> {
            let t = next_turn(run, EventView::Done(true));
            let f = next_turn(run, EventView::Done(false));
            &&& t.action == ActionView::Track && t.run.popup == run.popup
            &&& f.action is Finish && f.destroy == run.popup
        },
{
}

/// The steps of opening come in their order; one that fails leads nowhere else, and what is ready or
/// has failed stays so. A popup exists while it is filled and when it is ready.
pub proof fn law_opening_steps(p: OpenPhase, ok: bool)
    ensures
        !ok && p != OpenPhase::Ready ==> after_call(p, ok) == OpenPhase::Failed,
        ok && p == OpenPhase::Binding ==> after_call(p, ok) == OpenPhase::Creating,
        ok && p == OpenPhase::Creating ==> after_call(p, ok) == OpenPhase::Filling,
        ok && p == OpenPhase::Filling ==> after_call(p, ok) == OpenPhase::Ready,
        p == OpenPhase::Ready || p == OpenPhase::Failed ==> after_call(p, ok) == p,
        p.has_popup() <==> p == OpenPhase::Filling || p == OpenPhase::Ready,
{
}

/// The application's own items: eight views, four sort columns, two directions and the refresh.
pub proof fn law_own_results(n: u32)
    ensures
        own_result(n) is Some <==> is_own_number(n),
        0x9000 <= n <= 0x9007 ==> own_result(n) == Some(
            ResultView { action: "set-view"@, verb: view_mode(n - 0x9000) },
        ),
        n == 0x9010 ==> own_result(n) == Some(ResultView { action: "set-sort"@, verb: "name"@ }),
        n == 0x9011 ==> own_result(n) == Some(ResultView { action: "set-sort"@, verb: "date"@ }),
        n == 0x9012 ==> own_result(n) == Some(ResultView { action: "set-sort"@, verb: "type"@ }),
        n == 0x9013 ==> own_result(n) == Some(ResultView { action: "set-sort"@, verb: "size"@ }),
        n == 0x9014 ==> own_result(n) == Some(ResultView { action: "set-sort-dir"@, verb: "asc"@ }),
        n == 0x9015 ==> own_result(n) == Some(ResultView { action: "set-sort-dir"@, verb: "desc"@ }),
        n == 0x9020 ==> own_result(n) == Some(ResultView { action: "refresh"@, verb: ""@ }),
{
}

/// The views in Explorer's order, each with its label.
pub proof fn law_view_order()
    ensures
        view_mode(0) == "xl-icons"@ && view_label(0) == "超大图标"@,
        view_mode(1) == "l-icons"@ && view_label(1) == "大图标"@,
        view_mode(2) == "m-icons"@ && view_label(2) == "中图标"@,
        view_mode(3) == "s-icons"@ && view_label(3) == "小图标"@,
        view_mode(4) == "list"@ && view_label(4) == "列表"@,
        view_mode(5) == "details"@ && view_label(5) == "详细信息"@,
        view_mode(6) == "tiles"@ && view_label(6) == "平铺"@,
        view_mode(7) == "content"@ && view_label(7) == "内容"@,
{
}

/// The mark among the views is on the one that the state names, and on the details where it names
/// none of them.
pub proof fn law_view_mark(view: Seq<char>)
    ensures
        0 <= view_position(view) < 8,
        (exists|i: int| 0 <= i < 8 && view == #[trigger] view_mode(i)) ==> view_mode(
            view_position(view),
        ) == view,
        !(exists|i: int| 0 <= i < 8 && view == #[trigger] view_mode(i)) ==> view_mode(
            view_position(view),
        ) == "details"@,
{
    assert(view_mode(0) == "xl-icons"@ && view_mode(1) == "l-icons"@ && view_mode(2) == "m-icons"@
        && view_mode(3) == "s-icons"@ && view_mode(4) == "list"@ && view_mode(5) == "details"@
        && view_mode(6) == "tiles"@ && view_mode(7) == "content"@);
}

/// Choosing the sort column that is marked sets the column that the state names; a state that names
/// no other counts as sorted by name.
pub proof fn law_sort_mark(key: Seq<char>)
    ensures
        0x9010 <= sort_item(key) <= 0x9013,
        key == "name"@ || key == "date"@ || key == "type"@ || key == "size"@ ==> own_result(
            sort_item(key),
        ) == Some(ResultView { action: "set-sort"@, verb: key }),
        key != "name"@ && key != "date"@ && key != "type"@ && key != "size"@ ==> own_result(
            sort_item(key),
        ) == Some(ResultView { action: "set-sort"@, verb: "name"@ }),
{
    reveal_strlit("name");
    reveal_strlit("date");
    reveal_strlit("type");
    reveal_strlit("size");
    assert("name"@[0] == 'n' && "date"@[0] == 'd' && "type"@[0] == 't' && "size"@[0] == 's');
}

/// What stands at the head of a folder's menu: a menu of the eight views with the mark on the
/// state's, a menu of the four sort columns and the two directions with marks on the state's, both
/// opened from the top, then the refresh and a separator.
pub proof fn law_head_of_menu(state: StateView, i: int)
    ensures
        ({
            let h = head_items(state);
            &&& h.len() == 22
            &&& 0 <= i < 8 ==> h[i] == (OpView::Item {
                menu: Menu::ViewModes,
                id: (0x9000 + i) as u32,
                label: view_label(i),
            })
            &&& h[8] == (OpView::Radio {
                menu: Menu::ViewModes,
                first: 0x9000,
                last: 0x9007,
                checked: (0x9000 + view_position(state.view)) as u32,
            })
            &&& h[9] == (OpView::Item { menu: Menu::SortOrders, id: 0x9010, label: "名称(N)"@ })
            &&& h[10] == (OpView::Item { menu: Menu::SortOrders, id: 0x9011, label: "修改日期(M)"@ })
            &&& h[11] == (OpView::Item { menu: Menu::SortOrders, id: 0x9012, label: "类型(T)"@ })
            &&& h[12] == (OpView::Item { menu: Menu::SortOrders, id: 0x9013, label: "大小(S)"@ })
            &&& h[13] == (OpView::Radio {
                menu: Menu::SortOrders,
                first: 0x9010,
                last: 0x9013,
                checked: sort_item(state.sort_key),
            })
            &&& h[14] == (OpView::Separator { menu: Menu::SortOrders })
            &&& h[15] == (OpView::Item { menu: Menu::SortOrders, id: 0x9014, label: "递增(A)"@ })
            &&& h[16] == (OpView::Item { menu: Menu::SortOrders, id: 0x9015, label: "递减(D)"@ })
            &&& h[17] matches OpView::Radio { menu, first, last, checked } && menu
                == Menu::SortOrders && first == 0x9014 && last == 0x9015 && (checked == 0x9014
                <==> state.sort_asc) && (checked == 0x9015 <==> !state.sort_asc)
            &&& h[18] == (OpView::Popup {
                menu: Menu::Top,
                opens: Menu::ViewModes,
                label: "查看(V)"@,
            })
            &&& h[19] == (OpView::Popup {
                menu: Menu::Top,
                opens: Menu::SortOrders,
                label: "排序方式(O)"@,
            })
            &&& h[20] == (OpView::Item { menu: Menu::Top, id: 0x9020, label: "刷新(E)"@ })
            &&& h[21] == (OpView::Separator { menu: Menu::Top })
        }),
{
}

/// A verb is what stands before the first zero of the buffer; it is empty where it could not be
/// asked, or no zero ends it.
pub proof fn law_verb_text(units: Seq<u16>, rest: Seq<u16>)
    requires
        !units.contains(0),
    ensures
        verb_text(true, units + seq![0u16] + rest) == wide::decoded(units),
        verb_text(true, units).len() == 0,
        verb_text(false, units + seq![0u16] + rest).len() == 0,
{
    let all = units + seq![0u16] + rest;
    wide::law_before_nul(units, rest);
    assert(wide::nul_index(all) == units.len());
    assert(all.take(units.len() as int) =~= units);
    assert(wide::nul_index(units) == units.len());
}

/// A verb is handed on as its UTF-8 bytes and a zero; one that holds a zero itself is handed on as
/// no verb at all.
pub proof fn law_verb_bytes(verb: Seq<char>)
    ensures
        !verb.contains('\0') ==> verb_bytes(verb) == encode_utf8(verb).push(0),
        verb.contains('\0') ==> verb_bytes(verb) == seq![0u8],
{
}

/// The first of equal texts is found, and none where there is none.
pub proof fn law_first_equal(before: Seq<Seq<char>>, s: Seq<char>, behind: Seq<Seq<char>>)
    requires
        !before.contains(s),
    ensures
        first_equal(before + seq![s] + behind, s) == before.len(),
        first_equal(before, s) == before.len(),
    decreases before.len(),
{
    let all = before + seq![s] + behind;
    if before.len() > 0 {
        assert(before.contains(before[0]));
        assert(all.drop_first() =~= before.drop_first() + seq![s] + behind);
        assert(!before.drop_first().contains(s)) by {
            if before.drop_first().contains(s) {
                let i = choose|i: int|
                    0 <= i < before.drop_first().len() && before.drop_first()[i] == s;
                assert(before[i + 1] == s);
            }
        }
        law_first_equal(before.drop_first(), s, behind);
    }
}

/// The list of actions is closed: the cleanup of no drive or of one by its letter, and seven more
/// by their names; nothing else starts anything.
pub proof fn law_system_actions(action: Seq<char>, letter: char)
    ensures
        action_of("clean-drive"@) == (SystemView::Run { file: "cleanmgr.exe"@, params: None }),
        (65 <= letter as u32 <= 90 || 97 <= letter as u32 <= 122) ==> action_of(
            "clean-drive:"@.push(letter),
        ) == (SystemView::Run {
            file: "cleanmgr.exe"@,
            params: Some("/d "@.push(letter) + ":"@),
        }),
        action_of("optimize-drives"@) == (SystemView::Run { file: "dfrgui.exe"@, params: None }),
        action_of("add-media-server"@) == SystemView::AddMediaServer,
        action_of("map-drive"@) == (SystemView::Run {
            file: "rundll32.exe"@,
            params: Some("shell32.dll,SHHelpShortcuts_RunDLL Connect"@),
        }),
        action_of("disconnect-drive"@) == (SystemView::Run {
            file: "rundll32.exe"@,
            params: Some("shell32.dll,SHHelpShortcuts_RunDLL Disconnect"@),
        }),
        action_of("add-network-place"@) == (SystemView::Run {
            file: "rundll32.exe"@,
            params: Some("shwebsvc.dll,AddNetPlaceRunDll"@),
        }),
        action_of("folder-options"@) == (SystemView::Run {
            file: "rundll32.exe"@,
            params: Some("shell32.dll,Options_RunDLL 0"@),
        }),
        action_of(action) is Unknown || set![
            "clean-drive"@, "optimize-drives"@, "add-media-server"@, "map-drive"@,
            "disconnect-drive"@, "add-network-place"@, "folder-options"@,
        ].contains(action) || (action.len() == 13 && action.drop_last() == "clean-drive:"@ && (65
            <= action.last() as u32 <= 90 || 97 <= action.last() as u32 <= 122)),
{
    reveal_strlit("clean-drive");
    reveal_strlit("clean-drive:");
    reveal_strlit("optimize-drives");
    reveal_strlit("add-media-server");
    reveal_strlit("map-drive");
    reveal_strlit("disconnect-drive");
    reveal_strlit("add-network-place");
    reveal_strlit("folder-options");
    assert("clean-drive"@.len() == 11 && "clean-drive:"@.len() == 12 && "optimize-drives"@.len()
        == 15 && "add-media-server"@.len() == 16 && "map-drive"@.len() == 9
        && "disconnect-drive"@.len() == 16 && "add-network-place"@.len() == 17
        && "folder-options"@.len() == 14);
    assert("add-media-server"@[0] == 'a' && "disconnect-drive"@[0] == 'd');
    let one = "clean-drive:"@.push(letter);
    lemma_drive_letter(letter);
    assert(one.take(12) =~= "clean-drive:"@);
    assert("/d "@ + seq![letter] + ":"@ =~= "/d "@.push(letter) + ":"@);
    if cleans_one_drive(action) {
        lemma_drive_letter(action.last());
        assert(action.drop_last() =~= action.take(12));
    }
}

proof fn lemma_drive_letter(c: char)
    ensures
        is_drive_letter(c) <==> (65 <= c as u32 <= 90 || 97 <= c as u32 <= 122),
{
}

/// The drives are numbered by their letters in the order of the alphabet, in either case, and only
/// characters whose low byte is a capital, or ASCII letters, name one.
pub proof fn law_drive_numbers(letter: char, k: u32)
    ensures
        k < 26 && (letter as u32 == 65 + k || letter as u32 == 97 + k) ==> drive_number(letter)
            == Some(k),
        (letter as u32) < 128 && !(65 <= letter as u32 <= 90 || 97 <= letter as u32 <= 122)
            ==> drive_number(letter) is None,
        letter as u32 >= 128 ==> (drive_number(letter) == Some(k) <==> k < 26 && letter as u32 % 256
            == 65 + k),
{
}

/// What an item shows is cut at the first tab: the label stands before it and the shortcut behind
/// it.
pub proof fn law_label_and_shortcut(label: Seq<char>, accel: Seq<char>)
    requires
        !label.contains('\t'),
    ensures
        label_part(label + seq!['\t'] + accel) == label,
        accel_part(label + seq!['\t'] + accel) == accel,
        label_part(label) == label,
        accel_part(label).len() == 0,
    decreases label.len(),
{
    let s = label + seq!['\t'] + accel;
    text::lemma_first_index(s, '\t');
    text::lemma_first_index(label, '\t');
    let k = text::first_index(s, '\t');
    if k < label.len() {
        assert(label[k] == '\t');
    }
    if k > label.len() {
        assert(s[label.len() as int] == '\t');
    }
    if text::first_index(label, '\t') < label.len() {
        assert(label[text::first_index(label, '\t')] == '\t');
    }
    assert(s.take(label.len() as int) =~= label);
    assert(s.skip(label.len() as int + 1) =~= accel);
    assert(label.take(label.len() as int) =~= label);
}

/// The submenu of new files is the first item that opens a menu and is labelled so: the Chinese
/// word stands anywhere in its label, or the English one begins it.
pub proof fn law_new_label(a: Seq<char>, b: Seq<char>, s: Seq<char>)
    ensures
        is_new_label(a + "新建"@ + b),
        is_new_label("New"@ + b),
        is_new_label(s) ==> (s.len() >= 3 && s[0] == 'N' && s[1] == 'e' && s[2] == 'w')
            || s.contains('新') && s.contains('建'),
{
    reveal_strlit("New");
    reveal_strlit("新建");
    if exists|i: int| text::occurs_at(s, "新建"@, i) {
        let i = choose|i: int| text::occurs_at(s, "新建"@, i);
        assert(s.subrange(i, i + 2)[0] == s[i] && s.subrange(i, i + 2)[1] == s[i + 1]);
    } else if text::begins(s, "New"@) {
        assert(s.take(3)[0] == s[0] && s.take(3)[1] == s[1] && s.take(3)[2] == s[2]);
    }
    text::law_begins_and_occurs(a, "新建"@, b);
    text::law_begins_and_occurs(Seq::empty(), "New"@, b);
    assert(Seq::<char>::empty() + "New"@ + b =~= "New"@ + b);
    let t = a + "新建"@ + b;
    assert(t.subrange(a.len() as int, (a.len() + "新建"@.len()) as int) =~= "新建"@);
    assert(text::occurs_at(t, "新建"@, a.len() as int));
    assert(("New"@ + b).take("New"@.len() as int) =~= "New"@);
}

/// The first such item is taken, and none where there is none.
pub proof fn law_first_new_item(
    before: Seq<(bool, Seq<char>)>,
    label: Seq<char>,
    behind: Seq<(bool, Seq<char>)>,
)
    requires
        is_new_label(label),
        forall|i: int| 0 <= i < before.len() && is_new_label(#[trigger] before[i].1) ==> !before[i].0,
    ensures
        new_position(before + seq![(true, label)] + behind) == before.len(),
        new_position(before) == before.len(),
    decreases before.len(),
{
    let all = before + seq![(true, label)] + behind;
    if before.len() > 0 {
        assert(all[0] == before[0]);
        assert(is_new_label(before[0].1) ==> !before[0].0);
        assert(all.drop_first() =~= before.drop_first() + seq![(true, label)] + behind);
        assert forall|i: int|
            0 <= i < before.drop_first().len() && is_new_label(
                #[trigger] before.drop_first()[i].1,
            ) implies !before.drop_first()[i].0 by {
            assert(before.drop_first()[i] == before[i + 1]);
        }
        law_first_new_item(before.drop_first(), label, behind);
    } else {
        assert(all[0] == (true, label));
    }
}

/// The menu of new files lists its commands in their order, each with its own number, its text
/// without ampersands and its icon. A line is drawn where a command follows one that came before
/// it, never twice.
pub proof fn law_new_menu_is_listed(items: Seq<NewItemView>, item: NewItemView)
    ensures
        ({
            let before = listed_new(items);
            let now = listed_new(items.push(item));
            let line = item.id == 0 || item.id == 0xFFFF_FFFF;
            let label = text::without(item.text, '&');
            &&& !line && label.len() > 0 ==> now == before.push(
                NewEntryView { id: item.id, label, icon: item.icon, separator: false },
            )
            &&& !line && label.len() == 0 ==> now == before
            &&& line && before.len() > 0 && !before.last().separator ==> now == before.push(
                NewEntryView { id: 0, label: ""@, icon: None, separator: true },
            )
            &&& line && (before.len() == 0 || before.last().separator) ==> now == before
        }),
        listed_new(Seq::empty()).len() == 0,
{
    assert(items.push(item).drop_last() =~= items);
}

/// What closes a menu is left out if it is a line, and nothing else.
pub proof fn law_menus_are_closed(
    v: Seq<NewEntryView>,
    e: NewEntryView,
    w: Seq<CtxView>,
    n: CtxView,
)
    ensures
        e.separator ==> closed_new(v.push(e)) == closed_new(v),
        !e.separator ==> closed_new(v.push(e)) == v.push(e),
        closed_new(Seq::empty()).len() == 0,
        n.separator ==> closed(w.push(n)) == closed(w),
        !n.separator ==> closed(w.push(n)) == w.push(n),
        closed(Seq::empty()).len() == 0,
{
    assert(v.push(e).drop_last() =~= v);
    assert(w.push(n).drop_last() =~= w);
}

/// The tree of a menu lists its items in their order, as the menu of new files does; an item that
/// opens a menu is listed under any number.
pub proof fn law_tree_is_listed(items: Seq<RawItem>, item: RawItem, depth: nat)
    ensures
        ({
            let before = listed(items, depth);
            let now = listed(items.push(item), depth);
            let line = item.sub is None && (item.id == 0 || item.id == 0xFFFF_FFFF);
            let shown = text::without(item.text@, '&').len() > 0;
            &&& !line && shown ==> now == before.push(entry_of(item, depth))
            &&& !line && !shown ==> now == before
            &&& line && before.len() > 0 && !before.last().separator ==> now == before.push(
                CtxView {
                    id: 0,
                    label: ""@,
                    accel: ""@,
                    verb: ""@,
                    icon: None,
                    separator: true,
                    children: Seq::empty(),
                },
            )
            &&& line && (before.len() == 0 || before.last().separator) ==> now == before
        }),
        listed(Seq::empty(), depth).len() == 0,
        tree(items, depth) == closed(listed(items, depth)),
{
    assert(items.push(item).drop_last() =~= items);
}

/// An entry of the tree is its item: its number, its text cut at the tab, its icon, and its verb
/// where the number is one of the shell's commands.
pub proof fn law_entry_of_tree(item: RawItem, depth: nat, label: Seq<char>, accel: Seq<char>)
    requires
        !label.contains('\t'),
    ensures
        ({
            let e = entry_of(item, depth);
            &&& e.id == item.id
            &&& text::without(item.text@, '&') == label + seq!['\t'] + accel ==> e.label == label
                && e.accel == accel
            &&& text::without(item.text@, '&') == label ==> e.label == label && e.accel.len() == 0
            &&& 1 <= item.id <= 0x7FFF ==> e.verb == item.verb@
            &&& item.id == 0 || item.id > 0x7FFF ==> e.verb.len() == 0
            &&& e.icon is Some <==> item.icon is Some
            &&& item.icon matches Some(i) ==> e.icon == Some(i@)
            &&& !e.separator
        }),
{
    law_label_and_shortcut(label, accel);
}

/// What opens from an item is the tree of what its menu holds; where that shows nothing, of what it
/// holds once it has filled itself. The fourth level opens nothing.
pub proof fn law_menu_below(item: RawItem, depth: nat)
    ensures
        ({
            let below = entry_of(item, depth).children;
            &&& item.sub is None || depth >= 3 ==> below.len() == 0
            &&& item.sub matches Some(sub) ==> (depth < 3 && tree(sub.items@, depth + 1).len() > 0
                ==> below == tree(sub.items@, depth + 1))
            &&& item.sub matches Some(sub) ==> (depth < 3 && tree(sub.items@, depth + 1).len() == 0
                ==> below == tree(sub.refilled@, depth + 1))
        }),
{
}

} // verus!
