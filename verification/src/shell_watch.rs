//! Watching a folder for changes: one registration with the shell at a time.

use vstd::prelude::*;

verus! {

/// The message by which the shell tells the helper window of a change.
pub const WM_SHNOTIFY: u32 = 0x477;

/// Every event that the shell can tell of.
pub const SHCNE_ALLEVENTS: i32 = 0x7FFF_FFFF;

/// The event that tells the front end of a change.
pub const CHANGED_EVENT: &'static str = "fs-changed";

/// The number of the registration that is in force; 0 where there is none.
pub struct WatchState {
    pub id: u32,
}

/// Ends the watch. The registration that was in force, where there was one, is to be withdrawn.
pub fn unwatch(state: &mut WatchState) -> (r: Option<u32>)
    ensures
        r == (if old(state).id != 0 {
            Some(old(state).id)
        } else {
            None
        }),
        final(state).id == 0,
{
    let id = state.id;
    if id != 0 {
        state.id = 0;
        Some(id)
    } else {
        None
    }
}

/// Starts a watch in place of one that has been ended: `registered` is what the shell has given for
/// the folder, 0 where it refused, and missing where there is no such folder.
pub fn watch(state: &mut WatchState, registered: Option<u32>)
    requires
        old(state).id == 0,
    ensures
        final(state).id == (match registered {
            Some(id) => id,
            None => 0,
        }),
{
    if let Some(id) = registered {
        state.id = id;
    }
}

} // verus!
