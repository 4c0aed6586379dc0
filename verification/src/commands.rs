//! What the front end asks for, as far as it is decided here.

use vstd::prelude::*;

use crate::shell_menu::{self, drive_letter};
use crate::text::{self, chars_of, starts_with};

verus! {

/// An item whose icon is asked for.
pub struct IconReq {
    pub path: String,
    pub is_folder: bool,
    pub ext: String,
}

/// Whether an argument looks like a path: of the network, of the shell's namespace, or of a drive,
/// which begins with the drive's letter and a colon.
pub open spec fn looks_like_path(arg: Seq<char>) -> bool {
    ||| text::begins(arg, "\\\\"@)
    ||| text::begins(arg, "::"@)
    ||| arg.len() > 1 && shell_menu::is_drive_letter(arg[0]) && arg[1] == ':'
}

/// The path to start with: the first argument, where it looks like one.
pub fn get_start_path(arg: Option<String>) -> (r: Option<String>)
    ensures
        text::opt_view(r) == (match text::opt_view(arg) {
            Some(a) => if looks_like_path(a) {
                Some(a)
            } else {
                None
            },
            None => None,
        }),
{
    let a = match arg {
        Some(a) => a,
        None => return None,
    };
    let looks = {
        let s = a.as_str();
        starts_with(s, "\\\\") || starts_with(s, "::") || (s.unicode_len() > 1 && drive_letter(
            s.get_char(0),
        ) && s.get_char(1) == ':')
    };
    if looks {
        Some(a)
    } else {
        None
    }
}

/// The number of the drive to format, out of the first character of a text.
pub fn format_drive(letter: &str) -> (r: Option<u32>)
    ensures
        r == (if letter@.len() == 0 {
            None
        } else {
            shell_menu::drive_number(letter@[0])
        }),
{
    let v = chars_of(letter);
    if v.len() == 0 {
        None
    } else {
        shell_menu::format_drive(v[0])
    }
}

/// What may be a path to start with: a network path, a shell name, or one that begins with a drive;
/// nothing else.
pub proof fn law_start_paths(arg: Seq<char>)
    ensures
        looks_like_path(arg) <==> arg.len() >= 2 && ((arg[0] == '\\' && arg[1] == '\\') || (arg[0]
            == ':' && arg[1] == ':') || (arg[1] == ':' && (65 <= arg[0] as u32 <= 90 || 97
            <= arg[0] as u32 <= 122))),
{
    reveal_strlit("\\\\");
    reveal_strlit("::");
    if arg.len() >= 2 {
        let two = arg.take(2);
        assert(two[0] == arg[0] && two[1] == arg[1]);
        if arg[0] == '\\' && arg[1] == '\\' {
            assert(two =~= "\\\\"@);
        }
        if arg[0] == ':' && arg[1] == ':' {
            assert(two =~= "::"@);
        }
        lemma_is_letter(arg[0]);
    }
}

proof fn lemma_is_letter(c: char)
    ensures
        shell_menu::is_drive_letter(c) <==> (65 <= c as u32 <= 90 || 97 <= c as u32 <= 122),
{
}

} // verus!
