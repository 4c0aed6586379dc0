//! The messages of the helper window on the shell's thread: which of them matter, and who answers.

use vstd::prelude::*;

use crate::shell_watch::WM_SHNOTIFY;

verus! {

pub const WM_DRAWITEM: u32 = 0x2B;

pub const WM_MEASUREITEM: u32 = 0x2C;

pub const WM_INITMENUPOPUP: u32 = 0x117;

pub const WM_MENUSELECT: u32 = 0x11F;

pub const WM_MENUCHAR: u32 = 0x120;

/// Who a message of the helper window is for.
#[derive(Clone, Copy, PartialEq, Eq, Structural)]
pub enum MessageFor {
    /// The watch: a folder has changed.
    Watch,
    /// The menu that is shown: its submenus are filled and drawn through it.
    Menu,
    /// The system.
    System,
}

/// Who a message of the helper window is for.
pub open spec fn addressee(msg: u32) -> MessageFor {
    if msg == WM_SHNOTIFY {
        MessageFor::Watch
    } else if msg == WM_INITMENUPOPUP || msg == WM_DRAWITEM || msg == WM_MEASUREITEM || msg
        == WM_MENUCHAR || msg == WM_MENUSELECT {
        MessageFor::Menu
    } else {
        MessageFor::System
    }
}

/// Who a message of the helper window is for.
pub fn helper_wndproc(msg: u32) -> (r: MessageFor)
    ensures
        r == addressee(msg),
{
    if msg == WM_SHNOTIFY {
        MessageFor::Watch
    } else if msg == WM_INITMENUPOPUP || msg == WM_DRAWITEM || msg == WM_MEASUREITEM || msg
        == WM_MENUCHAR || msg == WM_MENUSELECT {
        MessageFor::Menu
    } else {
        MessageFor::System
    }
}

/// How far the forwarding of a message to the menu has come.
#[derive(Clone, Copy, PartialEq, Eq, Structural)]
pub enum Forward {
    /// The menu's newer interface is to be asked first.
    AskNewer,
    /// The menu's older interface is to be asked.
    AskOlder,
    /// This is the answer.
    Answer(i64),
    /// Nobody has answered: the system does.
    System,
}

/// The state after the menu was asked: `reply` is what it has answered, missing where it has not.
/// The older interface answers without a value, which stands for 0.
pub fn forward(state: Forward, reply: Option<i64>) -> (r: Forward)
    ensures
        r == (match state {
            Forward::AskNewer => match reply {
                Some(x) => Forward::Answer(x),
                None => Forward::AskOlder,
            },
            Forward::AskOlder => if reply is Some {
                Forward::Answer(0)
            } else {
                Forward::System
            },
            other => other,
        }),
{
    match state {
        Forward::AskNewer => match reply {
            Some(x) => Forward::Answer(x),
            None => Forward::AskOlder,
        },
        Forward::AskOlder => if reply.is_some() {
            Forward::Answer(0)
        } else {
            Forward::System
        },
        Forward::Answer(x) => Forward::Answer(x),
        Forward::System => Forward::System,
    }
}

/// The watch gets its own message, the menu those that fill and draw its submenus, and the system
/// every other.
pub proof fn law_addressees(msg: u32)
    ensures
        addressee(msg) == MessageFor::Watch <==> msg == 0x477,
        addressee(msg) == MessageFor::Menu <==> msg == 0x117 || msg == 0x2B || msg == 0x2C || msg
            == 0x120 || msg == 0x11F,
        addressee(msg) == MessageFor::System <==> msg != 0x477 && msg != 0x117 && msg != 0x2B
            && msg != 0x2C && msg != 0x120 && msg != 0x11F,
{
}

} // verus!
