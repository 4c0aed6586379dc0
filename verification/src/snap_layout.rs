//! The two windows that lie over the caption: one over the maximize button, so that the system offers
//! its snap layouts there, and a strip along the top edge while the main window is maximized.

use vstd::prelude::*;

verus! {

pub const HTCAPTION: i64 = 2;

pub const HTMINBUTTON: i64 = 8;

pub const HTMAXBUTTON: i64 = 9;

pub const HTCLOSE: i64 = 20;

pub const WM_SETCURSOR: u32 = 0x20;

pub const WM_NCHITTEST: u32 = 0x84;

pub const WM_NCLBUTTONDOWN: u32 = 0xA1;

pub const WM_NCLBUTTONUP: u32 = 0xA2;

pub const WM_NCLBUTTONDBLCLK: u32 = 0xA3;

pub const WM_NCMOUSELEAVE: u32 = 0x2A2;

pub const SC_MINIMIZE: u32 = 0xF020;

pub const SC_MAXIMIZE: u32 = 0xF030;

pub const SC_CLOSE: u32 = 0xF060;

pub const SC_RESTORE: u32 = 0xF120;

pub const SUBCLASS_ID: usize = 0x5AB;

pub const STRIP_SUBCLASS_ID: usize = 0x5AD;

/// The button of the strip over which the pointer is: none, minimize or close.
pub const BUTTON_NONE: u8 = 0;

pub const BUTTON_MIN: u8 = 1;

pub const BUTTON_CLOSE: u8 = 3;

/// What is known of the caption: where its buttons are, in pixels of the main window's client area,
/// which windows lie over it, and what the front end was last told.
#[derive(Clone, Copy)]
pub struct SnapState {
    pub max_x: i32,
    pub max_y: i32,
    pub max_w: i32,
    pub max_h: i32,
    pub min_x: i32,
    pub min_w: i32,
    pub close_x: i32,
    pub close_w: i32,
    /// Whether the window over the maximize button exists.
    pub has_overlay: bool,
    /// Whether the strip exists.
    pub has_strip: bool,
    /// Whether the pointer is over the maximize button.
    pub hover: bool,
    /// The button of the strip over which the pointer is.
    pub strip_button: u8,
    pub maximized: bool,
}

/// Nothing is known, and no window exists.
pub fn initial_state() -> (r: SnapState)
    ensures
        !r.has_overlay,
        !r.has_strip,
        !r.hover,
        r.strip_button == BUTTON_NONE,
        !r.maximized,
        r.max_w == 0,
        r.min_w == 0,
        r.close_w == 0,
        r.max_x == 0,
        r.max_y == 0,
        r.max_h == 0,
        r.min_x == 0,
        r.close_x == 0,
{
    SnapState {
        max_x: 0,
        max_y: 0,
        max_w: 0,
        max_h: 0,
        min_x: 0,
        min_w: 0,
        close_x: 0,
        close_w: 0,
        has_overlay: false,
        has_strip: false,
        hover: false,
        strip_button: BUTTON_NONE,
        maximized: false,
    }
}

// ----- what the front end is told -----

/// Notes whether the pointer is over the maximize button; true where the front end is to be told.
pub fn set_hover(state: &mut SnapState, hover: bool) -> (r: bool)
    ensures
        r == (old(state).hover != hover),
        *final(state) == (SnapState { hover, ..*old(state) }),
{
    let changed = state.hover != hover;
    state.hover = hover;
    changed
}

/// What the front end calls a button of the strip.
pub open spec fn button_name(b: u8) -> Seq<char> {
    if b == BUTTON_MIN {
        "min"@
    } else if b == BUTTON_CLOSE {
        "close"@
    } else {
        ""@
    }
}

/// Notes the button of the strip over which the pointer is; its name where the front end is to be
/// told.
pub fn set_strip_btn(state: &mut SnapState, b: u8) -> (r: Option<&'static str>)
    ensures
        match r {
            Some(name) => old(state).strip_button != b && name@ == button_name(b),
            None => old(state).strip_button == b,
        },
        *final(state) == (SnapState { strip_button: b, ..*old(state) }),
{
    let changed = state.strip_button != b;
    state.strip_button = b;
    if changed {
        Some(
            if b == BUTTON_MIN {
                "min"
            } else if b == BUTTON_CLOSE {
                "close"
            } else {
                ""
            },
        )
    } else {
        None
    }
}

// ----- messages -----

/// One thing to do for a message.
#[derive(Clone, Copy, PartialEq, Eq, Structural)]
pub enum Effect {
    /// Note with `set_hover` whether the pointer is over the maximize button.
    Hover(bool),
    /// Note with `set_strip_btn` the button over which the pointer is.
    Button(u8),
    /// Ask the system to tell when the pointer leaves.
    TrackLeave,
    /// Send the main window a system command.
    Command(u32),
    /// Post the message to the main window.
    Post,
    /// Show the arrow.
    Arrow,
}

/// Who answers a message, and with what.
#[derive(Clone, Copy, PartialEq, Eq, Structural)]
pub enum Reply {
    Value(i64),
    System,
}

/// What a message leads to: things to do, in their order, and the answer.
pub struct Reaction {
    pub effects: Vec<Effect>,
    pub reply: Reply,
}

#[verifier::ext_equal]
pub struct ReactionView {
    pub effects: Seq<Effect>,
    pub reply: Reply,
}

impl View for Reaction {
    type V = ReactionView;

    open spec fn view(&self) -> ReactionView {
        ReactionView { effects: self.effects@, reply: self.reply }
    }
}

pub open spec fn reaction(effects: Seq<Effect>, reply: Reply) -> ReactionView {
    ReactionView { effects, reply }
}

/// The command of the maximize button.
pub open spec fn toggle(zoomed: bool) -> u32 {
    if zoomed {
        SC_RESTORE
    } else {
        SC_MAXIMIZE
    }
}

/// What a message to the window over the maximize button leads to. All of that window is the
/// button; releasing the mouse on it maximizes or restores the main window.
pub open spec fn snap_reaction(hover: bool, msg: u32, wparam: i64, zoomed: bool) -> ReactionView {
    if msg == WM_NCHITTEST {
        reaction(
            if hover {
                Seq::empty()
            } else {
                seq![Effect::Hover(true), Effect::TrackLeave]
            },
            Reply::Value(HTMAXBUTTON),
        )
    } else if msg == WM_NCMOUSELEAVE {
        reaction(seq![Effect::Hover(false)], Reply::System)
    } else if (msg == WM_NCLBUTTONDOWN || msg == WM_NCLBUTTONDBLCLK) && wparam == HTMAXBUTTON {
        reaction(Seq::empty(), Reply::Value(0))
    } else if msg == WM_NCLBUTTONUP && wparam == HTMAXBUTTON {
        reaction(
            seq![Effect::Command(toggle(zoomed)), Effect::Hover(false)],
            Reply::Value(0),
        )
    } else if msg == WM_SETCURSOR {
        reaction(seq![Effect::Arrow], Reply::Value(1))
    } else {
        reaction(Seq::empty(), Reply::System)
    }
}

fn toggle_command(zoomed: bool) -> (r: u32)
    ensures
        r == toggle(zoomed),
{
    if zoomed {
        SC_RESTORE
    } else {
        SC_MAXIMIZE
    }
}

/// What a message to the window over the maximize button leads to.
pub fn snap_subclass_proc(state: &SnapState, msg: u32, wparam: i64, zoomed: bool) -> (r: Reaction)
    ensures
        r@ == snap_reaction(state.hover, msg, wparam, zoomed),
{
    let mut effects: Vec<Effect> = Vec::new();
    let reply = if msg == WM_NCHITTEST {
        if !state.hover {
            effects.push(Effect::Hover(true));
            effects.push(Effect::TrackLeave);
        }
        Reply::Value(HTMAXBUTTON)
    } else if msg == WM_NCMOUSELEAVE {
        effects.push(Effect::Hover(false));
        Reply::System
    } else if (msg == WM_NCLBUTTONDOWN || msg == WM_NCLBUTTONDBLCLK) && wparam == HTMAXBUTTON {
        Reply::Value(0)
    } else if msg == WM_NCLBUTTONUP && wparam == HTMAXBUTTON {
        effects.push(Effect::Command(toggle_command(zoomed)));
        effects.push(Effect::Hover(false));
        Reply::Value(0)
    } else if msg == WM_SETCURSOR {
        effects.push(Effect::Arrow);
        Reply::Value(1)
    } else {
        Reply::System
    };
    let r = Reaction { effects, reply };
    assert(r@ =~= snap_reaction(state.hover, msg, wparam, zoomed));
    r
}

/// Whether `x` is on a button.
pub open spec fn on_button(x: int, left: int, width: int) -> bool {
    width > 0 && left <= x < left + width
}

/// What the strip stands for at `x`: a button, or the caption.
pub open spec fn zone_at(s: SnapState, x: int) -> i64 {
    if on_button(x, s.close_x as int, s.close_w as int) {
        HTCLOSE
    } else if on_button(x, s.max_x as int, s.max_w as int) {
        HTMAXBUTTON
    } else if on_button(x, s.min_x as int, s.min_w as int) {
        HTMINBUTTON
    } else {
        HTCAPTION
    }
}

fn within(x: i32, left: i32, width: i32) -> (r: bool)
    ensures
        r == on_button(x as int, left as int, width as int),
{
    width > 0 && x >= left && (x as i64) < left as i64 + width as i64
}

/// What the strip stands for at `x`: a button, or the caption.
pub fn strip_zone(s: &SnapState, x: i32) -> (r: i64)
    ensures
        r == zone_at(*s, x as int),
{
    if within(x, s.close_x, s.close_w) {
        HTCLOSE
    } else if within(x, s.max_x, s.max_w) {
        HTMAXBUTTON
    } else if within(x, s.min_x, s.min_w) {
        HTMINBUTTON
    } else {
        HTCAPTION
    }
}

/// The signed number in sixteen bits.
pub open spec fn signed16(n: int) -> int {
    if n < 0x8000 {
        n
    } else {
        n - 0x1_0000
    }
}

/// The point in the low half of a message parameter: x in the low word, y in the high one.
pub fn message_point(lparam: u64) -> (r: (i32, i32))
    ensures
        r.0 == signed16(lparam as int % 0x1_0000),
        r.1 == signed16(lparam as int / 0x1_0000 % 0x1_0000),
{
    let x: i32 = (lparam % 0x1_0000) as i32;
    let y: i32 = (lparam / 0x1_0000 % 0x1_0000) as i32;
    (
        if x < 0x8000 {
            x
        } else {
            x - 0x1_0000
        },
        if y < 0x8000 {
            y
        } else {
            y - 0x1_0000
        },
    )
}

/// The button of the strip that a zone is.
pub open spec fn zone_button(zone: i64) -> u8 {
    if zone == HTMINBUTTON {
        BUTTON_MIN
    } else if zone == HTCLOSE {
        BUTTON_CLOSE
    } else {
        BUTTON_NONE
    }
}

/// The command of a button of the strip; none for the caption.
pub open spec fn zone_command(zone: i64, zoomed: bool) -> Option<u32> {
    if zone == HTCLOSE {
        Some(SC_CLOSE)
    } else if zone == HTMINBUTTON {
        Some(SC_MINIMIZE)
    } else if zone == HTMAXBUTTON {
        Some(toggle(zoomed))
    } else {
        None
    }
}

/// What a message to the strip leads to; `x` is the pointer's place in it. A press on the caption is
/// the main window's, so that it can be dragged; one on a button waits for the release.
pub open spec fn strip_reaction(
    s: SnapState,
    msg: u32,
    wparam: i64,
    x: int,
    zoomed: bool,
) -> ReactionView {
    if msg == WM_NCHITTEST {
        let zone = zone_at(s, x);
        reaction(
            seq![
                Effect::Hover(zone == HTMAXBUTTON),
                Effect::Button(zone_button(zone)),
                Effect::TrackLeave,
            ],
            Reply::Value(zone),
        )
    } else if msg == WM_NCMOUSELEAVE {
        reaction(seq![Effect::Hover(false), Effect::Button(BUTTON_NONE)], Reply::System)
    } else if msg == WM_NCLBUTTONDOWN || msg == WM_NCLBUTTONDBLCLK {
        reaction(
            if wparam == HTCAPTION {
                seq![Effect::Post]
            } else {
                Seq::empty()
            },
            Reply::Value(0),
        )
    } else if msg == WM_NCLBUTTONUP {
        match zone_command(wparam, zoomed) {
            Some(cmd) => reaction(
                seq![Effect::Hover(false), Effect::Button(BUTTON_NONE), Effect::Command(cmd)],
                Reply::Value(0),
            ),
            None => reaction(Seq::empty(), Reply::System),
        }
    } else if msg == WM_SETCURSOR {
        reaction(seq![Effect::Arrow], Reply::Value(1))
    } else {
        reaction(Seq::empty(), Reply::System)
    }
}

fn strip_hit(state: &SnapState, x: i32) -> (r: Reaction)
    ensures
        r@ == strip_reaction(*state, WM_NCHITTEST, 0, x as int, false),
{
    let mut effects: Vec<Effect> = Vec::new();
    let zone = strip_zone(state, x);
    effects.push(Effect::Hover(zone == HTMAXBUTTON));
    effects.push(
        Effect::Button(
            if zone == HTMINBUTTON {
                BUTTON_MIN
            } else if zone == HTCLOSE {
                BUTTON_CLOSE
            } else {
                BUTTON_NONE
            },
        ),
    );
    effects.push(Effect::TrackLeave);
    let r = Reaction { effects, reply: Reply::Value(zone) };
    assert(r@ =~= strip_reaction(*state, WM_NCHITTEST, 0, x as int, false));
    r
}

fn strip_release(wparam: i64, zoomed: bool) -> (r: Reaction)
    ensures
        forall|s: SnapState, x: int|
            r@ == #[trigger] strip_reaction(s, WM_NCLBUTTONUP, wparam, x, zoomed),
{
    let mut effects: Vec<Effect> = Vec::new();
    let cmd: u32 = if wparam == HTCLOSE {
        SC_CLOSE
    } else if wparam == HTMINBUTTON {
        SC_MINIMIZE
    } else if wparam == HTMAXBUTTON {
        toggle_command(zoomed)
    } else {
        let r = Reaction { effects, reply: Reply::System };
        assert(r@ =~= reaction(Seq::empty(), Reply::System));
        return r;
    };
    effects.push(Effect::Hover(false));
    effects.push(Effect::Button(BUTTON_NONE));
    effects.push(Effect::Command(cmd));
    let r = Reaction { effects, reply: Reply::Value(0) };
    assert(r@ =~= reaction(
        seq![Effect::Hover(false), Effect::Button(BUTTON_NONE), Effect::Command(cmd)],
        Reply::Value(0),
    ));
    r
}

/// What a message to the strip leads to.
pub fn strip_subclass_proc(state: &SnapState, msg: u32, wparam: i64, x: i32, zoomed: bool) -> (r:
    Reaction)
    ensures
        r@ == strip_reaction(*state, msg, wparam, x as int, zoomed),
{
    if msg == WM_NCHITTEST {
        return strip_hit(state, x);
    }
    if msg == WM_NCLBUTTONUP {
        return strip_release(wparam, zoomed);
    }
    let mut effects: Vec<Effect> = Vec::new();
    let reply = if msg == WM_NCMOUSELEAVE {
        effects.push(Effect::Hover(false));
        effects.push(Effect::Button(BUTTON_NONE));
        Reply::System
    } else if msg == WM_NCLBUTTONDOWN || msg == WM_NCLBUTTONDBLCLK {
        if wparam == HTCAPTION {
            effects.push(Effect::Post);
        }
        Reply::Value(0)
    } else if msg == WM_SETCURSOR {
        effects.push(Effect::Arrow);
        Reply::Value(1)
    } else {
        Reply::System
    };
    let r = Reaction { effects, reply };
    assert(r@ =~= strip_reaction(*state, msg, wparam, x as int, zoomed));
    r
}

/// The state after what a message asks for has been noted.
pub open spec fn after_effects(s: SnapState, effects: Seq<Effect>) -> SnapState
    decreases effects.len(),
{
    if effects.len() == 0 {
        s
    } else {
        let before = after_effects(s, effects.drop_last());
        match effects.last() {
            Effect::Hover(hover) => SnapState { hover, ..before },
            Effect::Button(b) => SnapState { strip_button: b, ..before },
            _ => before,
        }
    }
}

/// After a hit test of the strip the front end knows of exactly the button under the pointer.
pub proof fn law_hit_is_noted(s: SnapState, x: int, wparam: i64, zoomed: bool)
    ensures
        ({
            let t = after_effects(s, strip_reaction(s, WM_NCHITTEST, wparam, x, zoomed).effects);
            &&& t.hover == (zone_at(s, x) == HTMAXBUTTON)
            &&& t.strip_button == zone_button(zone_at(s, x))
            &&& !(t.hover && t.strip_button != BUTTON_NONE)
        }),
{
    reveal_with_fuel(after_effects, 4);
    let e = strip_reaction(s, WM_NCHITTEST, wparam, x, zoomed).effects;
    assert(e.drop_last().drop_last().drop_last() =~= Seq::empty());
    assert(e.drop_last().drop_last().last() == e[0]);
    assert(e.drop_last().last() == e[1]);
    assert(e.last() == e[2]);
}

/// Once the pointer has left the strip, or a button of it was released, no button is noted.
pub proof fn law_leaving_clears(s: SnapState, msg: u32, wparam: i64, x: int, zoomed: bool)
    requires
        msg == WM_NCMOUSELEAVE || (msg == WM_NCLBUTTONUP && zone_command(wparam, zoomed) is Some),
    ensures
        ({
            let t = after_effects(s, strip_reaction(s, msg, wparam, x, zoomed).effects);
            !t.hover && t.strip_button == BUTTON_NONE
        }),
{
    reveal_with_fuel(after_effects, 4);
    let e = strip_reaction(s, msg, wparam, x, zoomed).effects;
    if msg == WM_NCMOUSELEAVE {
        assert(e.drop_last().drop_last() =~= Seq::empty());
        assert(e.drop_last().last() == e[0]);
    } else {
        assert(e.drop_last().drop_last().drop_last() =~= Seq::empty());
        assert(e.drop_last().drop_last().last() == e[0]);
        assert(e.drop_last().last() == e[1]);
        assert(e.last() == e[2]);
    }
}

/// A button answers to its whole width and to nothing else, as long as no other button overlaps it:
/// the close button first, then the maximize button, then the minimize button.
pub proof fn law_zones(s: SnapState, x: int)
    ensures
        zone_at(s, x) == HTCLOSE <==> on_button(x, s.close_x as int, s.close_w as int),
        zone_at(s, x) == HTMAXBUTTON <==> on_button(x, s.max_x as int, s.max_w as int)
            && !on_button(x, s.close_x as int, s.close_w as int),
        zone_at(s, x) == HTCAPTION <==> !on_button(x, s.close_x as int, s.close_w as int)
            && !on_button(x, s.max_x as int, s.max_w as int) && !on_button(
            x,
            s.min_x as int,
            s.min_w as int,
        ),
{
}

/// Only the release of the mouse on a button sends the main window a command, and it sends one.
pub proof fn law_only_release_commands(s: SnapState, msg: u32, wparam: i64, x: int, zoomed: bool)
    ensures
        ({
            let e = strip_reaction(s, msg, wparam, x, zoomed).effects;
            (exists|i: int| 0 <= i < e.len() && (#[trigger] e[i]) is Command) <==> (msg
                == WM_NCLBUTTONUP && zone_command(wparam, zoomed) is Some)
        }),
{
    let e = strip_reaction(s, msg, wparam, x, zoomed).effects;
    if msg == WM_NCLBUTTONUP && zone_command(wparam, zoomed) is Some {
        assert(e[2] is Command);
    }
}

// ----- places -----

/// What is to be done with the strip.
#[derive(Clone, Copy, PartialEq, Eq, Structural)]
pub enum StripAction {
    /// Nothing: it does not exist.
    Nothing,
    /// Place it along the top edge, and show it.
    Show,
    Hide,
}

/// What is to be done with the strip: it is shown only while the main window is maximized.
pub open spec fn strip_action(s: SnapState) -> StripAction {
    if !s.has_strip {
        StripAction::Nothing
    } else if s.maximized {
        StripAction::Show
    } else {
        StripAction::Hide
    }
}

/// What is to be done with the strip: it is shown only while the main window is maximized.
pub fn sync_strip(s: &SnapState) -> (r: StripAction)
    ensures
        r == strip_action(*s),
{
    if !s.has_strip {
        StripAction::Nothing
    } else if s.maximized {
        StripAction::Show
    } else {
        StripAction::Hide
    }
}

/// The height of the strip: that of the band in which the system resizes, and at least 1.
pub fn place_strip(frame: i32, padding: i32) -> (r: i32)
    requires
        i32::MIN <= frame + padding <= i32::MAX,
    ensures
        r == (if frame + padding >= 1 {
            frame + padding
        } else {
            1
        }),
{
    let h: i32 = frame + padding;
    if h >= 1 {
        h
    } else {
        1
    }
}

/// Notes where the maximize button is; true where the windows are to be placed anew.
pub fn set_rect(state: &mut SnapState, x: i32, y: i32, w: i32, h: i32) -> (r: bool)
    ensures
        *final(state) == (SnapState { max_x: x, max_y: y, max_w: w, max_h: h, ..*old(state) }),
        r == old(state).has_overlay,
{
    state.max_x = x;
    state.max_y = y;
    state.max_w = w;
    state.max_h = h;
    state.has_overlay
}

/// Notes where the minimize and the close button are.
pub fn set_caption_rects(state: &mut SnapState, min_x: i32, min_w: i32, close_x: i32, close_w: i32)
    ensures
        *final(state) == (SnapState { min_x, min_w, close_x, close_w, ..*old(state) }),
{
    state.min_x = min_x;
    state.min_w = min_w;
    state.close_x = close_x;
    state.close_w = close_w;
}

/// Notes whether the main window is maximized, and tells what is to be done with the strip.
pub fn set_maximized(state: &mut SnapState, maximized: bool) -> (r: StripAction)
    ensures
        *final(state) == (SnapState { maximized, ..*old(state) }),
        r == strip_action(*final(state)),
{
    state.maximized = maximized;
    sync_strip(state)
}

/// Whether the windows are to be created: once, and when the main window exists.
pub fn init(state: &SnapState, has_parent: bool) -> (r: bool)
    ensures
        r == (!state.has_overlay && has_parent),
{
    !state.has_overlay && has_parent
}

/// Notes which of the two windows could be created, and tells what is to be done with the strip.
pub fn windows_created(state: &mut SnapState, overlay: bool, strip: bool) -> (r: StripAction)
    ensures
        *final(state) == (SnapState {
            has_overlay: old(state).has_overlay || overlay,
            has_strip: old(state).has_strip || strip,
            ..*old(state)
        }),
        r == strip_action(*final(state)),
{
    if overlay {
        state.has_overlay = true;
    }
    if strip {
        state.has_strip = true;
    }
    sync_strip(state)
}

/// The zones of the strip by their numbers: the close button, the maximize button and the minimize
/// button, each where it lies, and the caption elsewhere. Where buttons lie over one another the
/// first of these is meant.
pub proof fn law_zone_numbers(s: SnapState, x: int)
    ensures
        ({
            let close = s.close_w > 0 && s.close_x <= x && x < s.close_x + s.close_w;
            let max = s.max_w > 0 && s.max_x <= x && x < s.max_x + s.max_w;
            let min = s.min_w > 0 && s.min_x <= x && x < s.min_x + s.min_w;
            &&& zone_at(s, x) == 20 <==> close
            &&& zone_at(s, x) == 9 <==> max && !close
            &&& zone_at(s, x) == 8 <==> min && !close && !max
            &&& zone_at(s, x) == 2 <==> !close && !max && !min
        }),
{
}

/// A button is told by its name, and what is no other button has none.
pub proof fn law_button_names(b: u8)
    ensures
        button_name(1) == "min"@,
        button_name(3) == "close"@,
        b != 1 && b != 3 ==> button_name(b) == ""@,
        zone_button(8) == 1,
        zone_button(20) == 3,
        zone_button(9) == 0 && zone_button(2) == 0,
{
}

/// A click closes, minimizes, or restores a maximized window and maximizes any other; the caption
/// does none of these.
pub proof fn law_zone_commands(zone: i64, zoomed: bool)
    ensures
        zone_command(20, zoomed) == Some(0xF060u32),
        zone_command(8, zoomed) == Some(0xF020u32),
        zone_command(9, true) == Some(0xF120u32),
        zone_command(9, false) == Some(0xF030u32),
        zone != 20 && zone != 8 && zone != 9 ==> zone_command(zone, zoomed) is None,
{
}

/// Half of a packed point is a signed number of two bytes.
pub proof fn law_signed16(n: int)
    requires
        0 <= n < 0x1_0000,
    ensures
        -0x8000 <= signed16(n) < 0x8000,
        (signed16(n) - n) % 0x1_0000 == 0,
{
}

/// The window over the maximize button answers for it: it is one to the system, its hover is noted
/// once, a click on it is kept from the system, and its release toggles the window.
pub proof fn law_overlay(hover: bool, msg: u32, wparam: i64, zoomed: bool)
    ensures
        ({
            let r = snap_reaction(hover, msg, wparam, zoomed);
            &&& msg == 0x84 ==> r.reply == Reply::Value(9)
            &&& msg == 0x84 && hover ==> r.effects.len() == 0
            &&& msg == 0x84 && !hover ==> r.effects == seq![
                Effect::Hover(true),
                Effect::TrackLeave,
            ]
            &&& msg == 0x2A2 ==> r.effects == seq![Effect::Hover(false)] && r.reply == Reply::System
            &&& (msg == 0xA1 || msg == 0xA3) && wparam == 9 ==> r.effects.len() == 0 && r.reply
                == Reply::Value(0)
            &&& msg == 0xA2 && wparam == 9 ==> r.effects == seq![
                Effect::Command(
                    if zoomed {
                        0xF120u32
                    } else {
                        0xF030u32
                    },
                ),
                Effect::Hover(false),
            ] && r.reply == Reply::Value(0)
            &&& msg == 0x20 ==> r.effects == seq![Effect::Arrow] && r.reply == Reply::Value(1)
            &&& msg != 0x84 && msg != 0x2A2 && msg != 0x20 && !((msg == 0xA1 || msg == 0xA2 || msg
                == 0xA3) && wparam == 9) ==> r.effects.len() == 0 && r.reply == Reply::System
        }),
{
}

/// The strip over a maximized window answers for its zones: the zone under the pointer is told and
/// noted, a press on the caption goes on to the main window and any other is kept, and the release
/// of a button does what the button is for.
pub proof fn law_strip(s: SnapState, msg: u32, wparam: i64, x: int, zoomed: bool)
    ensures
        ({
            let r = strip_reaction(s, msg, wparam, x, zoomed);
            let zone = zone_at(s, x);
            &&& msg == 0x84 ==> r.reply == Reply::Value(zone) && r.effects == seq![
                Effect::Hover(zone == 9),
                Effect::Button(
                    if zone == 8 {
                        1u8
                    } else if zone == 20 {
                        3u8
                    } else {
                        0u8
                    },
                ),
                Effect::TrackLeave,
            ]
            &&& msg == 0x2A2 ==> r.effects == seq![Effect::Hover(false), Effect::Button(0)]
                && r.reply == Reply::System
            &&& (msg == 0xA1 || msg == 0xA3) && wparam == 2 ==> r.effects == seq![Effect::Post]
                && r.reply == Reply::Value(0)
            &&& (msg == 0xA1 || msg == 0xA3) && wparam != 2 ==> r.effects.len() == 0 && r.reply
                == Reply::Value(0)
            &&& msg == 0xA2 ==> (zone_command(wparam, zoomed) matches Some(c) ==> r.effects == seq![
                Effect::Hover(false),
                Effect::Button(0),
                Effect::Command(c),
            ] && r.reply == Reply::Value(0))
            &&& msg == 0xA2 && zone_command(wparam, zoomed) is None ==> r.effects.len() == 0
                && r.reply == Reply::System
            &&& msg == 0x20 ==> r.effects == seq![Effect::Arrow] && r.reply == Reply::Value(1)
            &&& msg != 0x84 && msg != 0x2A2 && msg != 0xA1 && msg != 0xA2 && msg != 0xA3 && msg
                != 0x20 ==> r.effects.len() == 0 && r.reply == Reply::System
        }),
{
}

/// What was done to the pointer's place is kept, the last of it counts, and nothing else of the
/// state changes.
pub proof fn law_effects_are_kept(s: SnapState, effects: Seq<Effect>, e: Effect)
    ensures
        after_effects(s, Seq::empty()) == s,
        ({
            let before = after_effects(s, effects);
            let now = after_effects(s, effects.push(e));
            &&& e matches Effect::Hover(h) ==> now == (SnapState { hover: h, ..before })
            &&& e matches Effect::Button(b) ==> now == (SnapState { strip_button: b, ..before })
            &&& !(e is Hover) && !(e is Button) ==> now == before
        }),
{
    assert(effects.push(e).drop_last() =~= effects);
}

/// The strip is shown exactly while the window is maximized, where there is one.
pub proof fn law_strip_is_shown(s: SnapState)
    ensures
        strip_action(s) == StripAction::Show <==> s.has_strip && s.maximized,
        strip_action(s) == StripAction::Hide <==> s.has_strip && !s.maximized,
        strip_action(s) == StripAction::Nothing <==> !s.has_strip,
{
}

} // verus!
