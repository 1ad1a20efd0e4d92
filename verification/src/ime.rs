//! Choosing the window whose IME is switched, and the open-status request.
//!
//! Window handles are carried as plain integers; 0 is the null handle.

use vstd::prelude::*;

verus! {

/// `WM_IME_CONTROL`, the message sent to the default IME window.
pub const WM_IME_CONTROL: u32 = 0x0283;
/// `IMC_GETOPENSTATUS` command of `WM_IME_CONTROL` (imm.h).
pub const IMC_GETOPENSTATUS: usize = 0x0005;
/// `IMC_SETOPENSTATUS` command of `WM_IME_CONTROL` (imm.h).
pub const IMC_SETOPENSTATUS: usize = 0x0006;

/// The open status that stands for `on`: 1 for on, 0 for off.
pub open spec fn status_of(on: bool) -> isize {
    if on {
        1
    } else {
        0
    }
}

/// The window whose default IME window is asked for: none without a
/// foreground window; else the focus window of the foreground thread when it
/// could be read and is not null, and the foreground window otherwise.
pub fn ime_owner_window(foreground: usize, focus_known: bool, focus: usize) -> (w: Option<usize>)
    ensures
        foreground == 0 ==> w is None,
        foreground != 0 ==> w == Some(if focus_known && focus != 0 { focus } else { foreground }),
{
    if foreground == 0 {
        return None;
    }
    let chosen = if focus_known {
        focus
    } else {
        foreground
    };
    if chosen == 0 {
        Some(foreground)
    } else {
        Some(chosen)
    }
}

/// The IME counts as open when its open status is nonzero.
pub open spec fn is_open(status: isize) -> bool {
    status != 0
}

/// The status to send to reach `on` from `current`: none when the IME
/// already is in that state (open for any nonzero status), as the
/// requirement asks that pressing again in that state does nothing; else 1
/// for on and 0 for off.
pub open spec fn status_change(current: isize, on: bool) -> Option<isize> {
    if is_open(current) == on {
        None
    } else {
        Some(status_of(on))
    }
}

/// The open status once the change for `on` has been applied to `current`.
pub open spec fn status_after(current: isize, on: bool) -> isize {
    match status_change(current, on) {
        Some(t) => t,
        None => current,
    }
}

/// The `IMC_SETOPENSTATUS` value to send, given the current open status:
/// none when the IME already is in the wanted state (open means nonzero),
/// else 1 for on and 0 for off.
pub fn open_status_change(current: isize, on: bool) -> (set: Option<isize>)
    ensures
        set == status_change(current, on),
{
    let target: isize = if on {
        1
    } else {
        0
    };
    if (current != 0) == on {
        None
    } else {
        Some(target)
    }
}

/// A switch reaches the wanted state, and switching to the same state again
/// sends nothing.
pub proof fn lemma_switch_idempotent(current: isize, on: bool)
    ensures
        is_open(status_after(current, on)) == on,
        status_change(status_after(current, on), on) is None,
{
}

/// Switching on and switching off are opposite: after switching one way,
/// switching the other way always sends a change.
pub proof fn lemma_switch_reverses(current: isize, on: bool)
    ensures
        status_change(status_after(current, on), !on) == Some(status_of(!on)),
{
}

/// What is sent, in terms of the raw status: nothing exactly when the IME
/// already is open (nonzero status) and `on`, or closed (status 0) and not
/// `on`; otherwise 1 to open it or 0 to close it.
pub proof fn lemma_change_by_raw_status(current: isize, on: bool)
    ensures
        status_change(current, on) is None <==> ((current != 0) == on),
        status_change(current, on) matches Some(v) ==> (v == 1 <==> on) && (v == 0 <==> !on),
{
}

} // verus!
