//! The tray window: how its messages are dispatched, the context menu, the
//! update dialogs, the tooltip and the Explorer arguments.

use vstd::prelude::*;
use vstd::string::StringExecFns;
use crate::text::utf16_encode;
use crate::text::wide;
use crate::update::{Outcome, Trigger};
use crate::hook::{counts, is_alt, is_up, lemma_switch_exactly_on_clean_tap, requests, run, tapped, KeyEvent, KeyState, VK_RMENU};
use crate::ime::{is_open, status_after, status_change};

verus! {

/// First message number free for the application.
pub const WM_APP: u32 = 0x8000;
/// Callback message of the tray icon.
pub const WM_TRAYICON: u32 = 0x8001;
/// The hook asks for the menu-bar suppression input.
pub const WM_APP_SUPPRESS: u32 = 0x8002;
/// The hook asks for an IME switch (`wparam`: 1 on, 0 off).
pub const WM_APP_IME_TOGGLE: u32 = 0x8003;
/// The update worker hands over its result.
pub const WM_APP_UPDATE_RESULT: u32 = 0x8004;

pub const WM_NULL: u32 = 0x0000;
pub const WM_DESTROY: u32 = 0x0002;
pub const WM_COMMAND: u32 = 0x0111;
pub const WM_LBUTTONUP: u32 = 0x0202;
pub const WM_RBUTTONUP: u32 = 0x0205;

/// Menu command identifiers.
pub const IDM_AUTOSTART: usize = 1001;
pub const IDM_EXIT: usize = 1002;
pub const IDM_OPEN_LOCATION: usize = 1003;
pub const IDM_CHECKUPDATE: usize = 1004;

/// Menu item flags.
pub const MF_STRING: u32 = 0x0000;
pub const MF_UNCHECKED: u32 = 0x0000;
pub const MF_CHECKED: u32 = 0x0008;
pub const MF_SEPARATOR: u32 = 0x0800;

/// Message box styles and the "Yes" answer.
pub const MB_OK: u32 = 0x0000;
pub const MB_YESNO: u32 = 0x0004;
pub const MB_ICONWARNING: u32 = 0x0030;
pub const MB_ICONINFORMATION: u32 = 0x0040;
pub const IDYES: i32 = 6;

/// What the tray window does with a message.
#[derive(Clone, Copy, Debug, PartialEq, Eq)]
pub enum TrayAction {
    /// Inject the menu-bar suppression input.
    InjectSuppress,
    /// Switch the IME on (`true`) or off (`false`).
    SwitchIme(bool),
    /// Take the update result carried in `lparam` and show its dialog.
    ShowUpdateResult,
    /// Show the context menu.
    ShowMenu,
    /// Turn start-up registration on or off.
    ToggleAutostart,
    /// Open Explorer at the executable.
    OpenFileLocation,
    /// Start an update check.
    CheckForUpdate,
    /// Destroy the window (the "Exit" command).
    DestroyWindow,
    /// Post the quit message (the window is being destroyed).
    Quit,
    /// Handled, nothing to do.
    Nothing,
    /// Leave the message to the default window procedure.
    Default,
}

/// The low 16 bits of a message parameter.
pub open spec fn low_word(x: usize) -> usize {
    x & 0xFFFF
}

/// What the tray window does with `msg`; handled messages return 0, those
/// left to the default procedure return its result.
pub open spec fn tray_action(msg: u32, wparam: usize, lparam: isize) -> TrayAction {
    if msg == WM_APP_SUPPRESS {
        TrayAction::InjectSuppress
    } else if msg == WM_APP_IME_TOGGLE {
        TrayAction::SwitchIme(wparam != 0)
    } else if msg == WM_APP_UPDATE_RESULT {
        TrayAction::ShowUpdateResult
    } else if msg == WM_TRAYICON {
        let mouse = low_word(lparam as usize);
        if mouse == WM_RBUTTONUP as usize || mouse == WM_LBUTTONUP as usize {
            TrayAction::ShowMenu
        } else {
            TrayAction::Nothing
        }
    } else if msg == WM_COMMAND {
        let id = low_word(wparam);
        if id == IDM_AUTOSTART {
            TrayAction::ToggleAutostart
        } else if id == IDM_OPEN_LOCATION {
            TrayAction::OpenFileLocation
        } else if id == IDM_CHECKUPDATE {
            TrayAction::CheckForUpdate
        } else if id == IDM_EXIT {
            TrayAction::DestroyWindow
        } else {
            TrayAction::Default
        }
    } else if msg == WM_DESTROY {
        TrayAction::Quit
    } else {
        TrayAction::Default
    }
}

/// Decides what the tray window procedure does with a message.
pub fn wnd_proc_action(msg: u32, wparam: usize, lparam: isize) -> (a: TrayAction)
    ensures
        a == tray_action(msg, wparam, lparam),
{
    if msg == WM_APP_SUPPRESS {
        TrayAction::InjectSuppress
    } else if msg == WM_APP_IME_TOGGLE {
        TrayAction::SwitchIme(wparam != 0)
    } else if msg == WM_APP_UPDATE_RESULT {
        TrayAction::ShowUpdateResult
    } else if msg == WM_TRAYICON {
        let mouse = (lparam as usize) & 0xFFFF;
        if mouse == WM_RBUTTONUP as usize || mouse == WM_LBUTTONUP as usize {
            TrayAction::ShowMenu
        } else {
            TrayAction::Nothing
        }
    } else if msg == WM_COMMAND {
        let id = wparam & 0xFFFF;
        if id == IDM_AUTOSTART {
            TrayAction::ToggleAutostart
        } else if id == IDM_OPEN_LOCATION {
            TrayAction::OpenFileLocation
        } else if id == IDM_CHECKUPDATE {
            TrayAction::CheckForUpdate
        } else if id == IDM_EXIT {
            TrayAction::DestroyWindow
        } else {
            TrayAction::Default
        }
    } else if msg == WM_DESTROY {
        TrayAction::Quit
    } else {
        TrayAction::Default
    }
}

/// An IME request posted by the hook with `ime_toggle_wparam(on)` is
/// dispatched as a switch to `on`.
pub proof fn lemma_ime_request_round_trip(on: bool, lparam: isize)
    ensures
        tray_action(WM_APP_IME_TOGGLE, if on { 1usize } else { 0usize }, lparam)
            == TrayAction::SwitchIme(on),
{
}

/// From key to IME: after any events from start-up, the release of a
/// cleanly tapped Alt key asks for a switch (off for the left key, on for the
/// right one), the request posted to the tray window is dispatched as that
/// switch, the switch leaves the IME in that state, and nothing is sent when
/// the IME already was in it.
pub proof fn lemma_tap_reaches_ime(evs: Seq<KeyEvent>, ev: KeyEvent, lparam: isize, current: isize)
    requires
        counts(ev),
        is_up(ev),
        is_alt(ev.vk_code),
        tapped(evs, ev.vk_code),
    ensures
        ({
            let on = ev.vk_code == VK_RMENU;
            &&& requests(run(KeyState::initial(), evs), ev).ime_toggle == Some(on)
            &&& tray_action(WM_APP_IME_TOGGLE, if on { 1usize } else { 0usize }, lparam)
                == TrayAction::SwitchIme(on)
            &&& is_open(status_after(current, on)) == on
            &&& (is_open(current) == on ==> status_change(current, on) is None)
        }),
{
    lemma_switch_exactly_on_clean_tap(evs, ev);
}

/// The tray icon opens the menu exactly on the release of the left or the
/// right mouse button (low word of `lparam` 0x0202 or 0x0205); every other
/// tray mouse message, such as a button press or a double click, does
/// nothing.
pub proof fn lemma_menu_opens_on_release(wparam: usize, lparam: isize)
    ensures
        tray_action(0x8001, wparam, lparam) == (if ((lparam as usize) & 0xFFFF) == 0x0202usize
            || ((lparam as usize) & 0xFFFF) == 0x0205usize {
            TrayAction::ShowMenu
        } else {
            TrayAction::Nothing
        }),
{
}

/// Messages other than the tray callback, the three application requests,
/// `WM_COMMAND` and `WM_DESTROY` go to the default window procedure, and
/// `WM_DESTROY` ends the message loop.
pub proof fn lemma_other_messages_default(msg: u32, wparam: usize, lparam: isize)
    ensures
        !(0x8001 <= msg <= 0x8004 || msg == 0x0111 || msg == 0x0002) ==> tray_action(
            msg,
            wparam,
            lparam,
        ) == TrayAction::Default,
        tray_action(0x0002, wparam, lparam) == TrayAction::Quit,
        tray_action(0x8002, wparam, lparam) == TrayAction::InjectSuppress,
        tray_action(0x8004, wparam, lparam) == TrayAction::ShowUpdateResult,
{
}

/// Each menu command identifier reaches its own action, whatever the high
/// word of `wparam` holds.
pub proof fn lemma_menu_commands_dispatch(high: usize, lparam: isize)
    requires
        high % 0x10000 == 0,
    ensures
        tray_action(WM_COMMAND, high | IDM_AUTOSTART, lparam) == TrayAction::ToggleAutostart,
        tray_action(WM_COMMAND, high | IDM_OPEN_LOCATION, lparam) == TrayAction::OpenFileLocation,
        tray_action(WM_COMMAND, high | IDM_CHECKUPDATE, lparam) == TrayAction::CheckForUpdate,
        tray_action(WM_COMMAND, high | IDM_EXIT, lparam) == TrayAction::DestroyWindow,
{
    assert(((high | 1001usize) & 0xFFFFusize) == 1001usize) by (bit_vector)
        requires
            high % 0x10000 == 0,
    ;
    assert(((high | 1002usize) & 0xFFFFusize) == 1002usize) by (bit_vector)
        requires
            high % 0x10000 == 0,
    ;
    assert(((high | 1003usize) & 0xFFFFusize) == 1003usize) by (bit_vector)
        requires
            high % 0x10000 == 0,
    ;
    assert(((high | 1004usize) & 0xFFFFusize) == 1004usize) by (bit_vector)
        requires
            high % 0x10000 == 0,
    ;
}

/// One entry of the context menu: its flags, its command identifier and its
/// label (none for the separator).
#[derive(Clone, Debug, PartialEq, Eq)]
pub struct MenuItem {
    pub flags: u32,
    pub id: usize,
    pub label: Option<String>,
}

/// `item` has the given flags, identifier and label text.
pub open spec fn item_is(item: MenuItem, flags: u32, id: usize, label: Option<Seq<char>>) -> bool {
    &&& item.flags == flags
    &&& item.id == id
    &&& match (item.label, label) {
        (Some(l), Some(t)) => l@ == t,
        (None, None) => true,
        _ => false,
    }
}

fn menu_item(flags: u32, id: usize, label: &str) -> (item: MenuItem)
    ensures
        item_is(item, flags, id, Some(label@)),
{
    MenuItem { flags, id, label: Some(String::from_str(label)) }
}

/// The context menu, top to bottom: "start automatically" (checked while
/// start-up registration is on), "open the executable's folder", "check for
/// updates", a separator, and "exit".
pub fn menu_items(autostart_enabled: bool) -> (items: Vec<MenuItem>)
    ensures
        items.len() == 5,
        item_is(
            items[0],
            MF_STRING | (if autostart_enabled { MF_CHECKED } else { MF_UNCHECKED }),
            IDM_AUTOSTART,
            Some("自動起動"@),
        ),
        item_is(items[1], MF_STRING, IDM_OPEN_LOCATION, Some("実行ファイルの場所を開く"@)),
        item_is(items[2], MF_STRING, IDM_CHECKUPDATE, Some("アップデートを確認する"@)),
        item_is(items[3], MF_SEPARATOR, 0, None),
        item_is(items[4], MF_STRING, IDM_EXIT, Some("終了"@)),
{
    let autostart_flag = if autostart_enabled {
        MF_CHECKED
    } else {
        MF_UNCHECKED
    };
    let mut items: Vec<MenuItem> = Vec::new();
    items.push(menu_item(MF_STRING | autostart_flag, IDM_AUTOSTART, "自動起動"));
    items.push(menu_item(MF_STRING, IDM_OPEN_LOCATION, "実行ファイルの場所を開く"));
    items.push(menu_item(MF_STRING, IDM_CHECKUPDATE, "アップデートを確認する"));
    items.push(MenuItem { flags: MF_SEPARATOR, id: 0, label: None });
    items.push(menu_item(MF_STRING, IDM_EXIT, "終了"));
    items
}

/// What the "start automatically" command does: turn registration off when
/// it is on, and on when it is off.
#[derive(Clone, Copy, Debug, PartialEq, Eq)]
pub enum AutostartChange {
    Enable,
    Disable,
}

pub fn toggle_autostart(enabled: bool) -> (c: AutostartChange)
    ensures
        c == (if enabled { AutostartChange::Disable } else { AutostartChange::Enable }),
{
    if enabled {
        AutostartChange::Disable
    } else {
        AutostartChange::Enable
    }
}

/// A message box to show: its text, its caption, its style, and whether a
/// "Yes" answer opens the release page.
#[derive(Clone, Debug, PartialEq, Eq)]
pub struct Dialog {
    pub text: String,
    pub caption: String,
    pub style: u32,
    pub yes_opens_releases: bool,
}

/// The dialog for a check result: an available update is always shown;
/// "up to date" and "failed" only after a check from the menu.
pub open spec fn dialog_matches(
    d: Option<Dialog>,
    trigger: Trigger,
    outcome: Outcome,
    version: Seq<char>,
) -> bool {
    match outcome {
        Outcome::UpdateAvailable(latest) => d matches Some(d) && d.text@
            == "新しいバージョンがあります。\n\n現在: v"@ + version + "\n最新: "@ + latest@
            + "\n\n配布ページを開きますか？"@ && d.caption@ == "アップデート"@ && d.style
            == MB_YESNO | MB_ICONINFORMATION && d.yes_opens_releases,
        Outcome::UpToDate(latest) => if trigger == Trigger::Startup {
            d is None
        } else {
            d matches Some(d) && d.text@ == "最新のバージョンを使用しています。\n("@ + latest@
                + ")"@ && d.caption@ == "アップデート"@ && d.style == MB_OK | MB_ICONINFORMATION
                && !d.yes_opens_releases
        },
        Outcome::Failed => if trigger == Trigger::Startup {
            d is None
        } else {
            d matches Some(d) && d.text@
                == "アップデートの確認に失敗しました。\nネットワーク環境を確認し、配布ページを開きますか？"@
                && d.caption@ == "アップデート"@ && d.style == MB_YESNO | MB_ICONWARNING
                && d.yes_opens_releases
        },
    }
}

/// Which results are shown: after a check at start-up, a dialog appears
/// exactly when an update is available; after a check from the menu, always.
/// "Yes" can open the release page exactly for an available update and for
/// a failed check, and those dialogs ask Yes/No while "up to date" only
/// informs.
pub proof fn lemma_dialog_policy(d: Option<Dialog>, trigger: Trigger, outcome: Outcome, version: Seq<char>)
    requires
        dialog_matches(d, trigger, outcome, version),
    ensures
        trigger == Trigger::Startup ==> (d is Some <==> outcome is UpdateAvailable),
        trigger == Trigger::Manual ==> d is Some,
        d matches Some(dd) ==> (dd.yes_opens_releases <==> !(outcome is UpToDate)),
        d matches Some(dd) ==> (dd.style == 0x0044 || dd.style == 0x0034 || dd.style == 0x0040),
        d matches Some(dd) ==> (dd.style == 0x0040 <==> outcome is UpToDate),
{
    assert(MB_YESNO | MB_ICONINFORMATION == 0x0044u32) by (bit_vector);
    assert(MB_YESNO | MB_ICONWARNING == 0x0034u32) by (bit_vector);
    assert(MB_OK | MB_ICONINFORMATION == 0x0040u32) by (bit_vector);
}

/// The dialog to show for the result of a check started by `trigger`;
/// `version` is the running version. A check at start-up stays silent unless
/// an update is available.
pub fn update_dialog(trigger: Trigger, outcome: &Outcome, version: &str) -> (d: Option<Dialog>)
    ensures
        dialog_matches(d, trigger, *outcome, version@),
{
    let silent_unless_update = match trigger {
        Trigger::Startup => true,
        Trigger::Manual => false,
    };
    match outcome {
        Outcome::UpdateAvailable(latest) => {
            let mut text = String::from_str("新しいバージョンがあります。\n\n現在: v");
            text.append(version);
            text.append("\n最新: ");
            text.append(latest.as_str());
            text.append("\n\n配布ページを開きますか？");
            Some(
                Dialog {
                    text,
                    caption: String::from_str("アップデート"),
                    style: MB_YESNO | MB_ICONINFORMATION,
                    yes_opens_releases: true,
                },
            )
        },
        Outcome::UpToDate(latest) => {
            if silent_unless_update {
                None
            } else {
                let mut text = String::from_str("最新のバージョンを使用しています。\n(");
                text.append(latest.as_str());
                text.append(")");
                Some(
                    Dialog {
                        text,
                        caption: String::from_str("アップデート"),
                        style: MB_OK | MB_ICONINFORMATION,
                        yes_opens_releases: false,
                    },
                )
            }
        },
        Outcome::Failed => {
            if silent_unless_update {
                None
            } else {
                Some(
                    Dialog {
                        text: String::from_str(
                            "アップデートの確認に失敗しました。\nネットワーク環境を確認し、配布ページを開きますか？",
                        ),
                        caption: String::from_str("アップデート"),
                        style: MB_YESNO | MB_ICONWARNING,
                        yes_opens_releases: true,
                    },
                )
            }
        },
    }
}

/// Whether the answer to `dialog` opens the release page: only "Yes" to a
/// dialog that offers it.
pub fn answer_opens_releases(dialog: &Dialog, answer: i32) -> (b: bool)
    ensures
        b == (dialog.yes_opens_releases && answer == IDYES),
{
    dialog.yes_opens_releases && answer == IDYES
}

/// The tooltip field `tip` once `s` is written into it: the UTF-16 units of
/// `s`, cut to leave the last unit of the field alone, then what the field
/// held.
pub open spec fn tip_after(tip: Seq<u16>, s: Seq<char>) -> Seq<u16> {
    let units = utf16_encode(s);
    let max = tip.len() - 1;
    let n = if units.len() < max { units.len() as int } else { max as int };
    units.take(n) + tip.skip(n)
}

/// A tooltip written into a zeroed field is always null-terminated, however
/// long the text: the last unit stays 0, and so does the unit after a text
/// that fits.
pub proof fn lemma_tip_terminated(len: nat, s: Seq<char>)
    requires
        len >= 1,
    ensures
        tip_after(Seq::new(len, |i: int| 0u16), s)[len - 1] == 0,
        utf16_encode(s).len() < len ==> tip_after(Seq::new(len, |i: int| 0u16), s)[utf16_encode(
            s,
        ).len() as int] == 0,
        tip_after(Seq::new(len, |i: int| 0u16), s).len() == len,
{
}

/// Writes the tooltip `s` into the fixed UTF-16 field `tip`, cut to leave the
/// last unit free; the units after the text keep what they held (the field
/// comes zeroed, so the text ends up null-terminated).
pub fn set_tip(tip: &mut [u16], s: &str)
    requires
        old(tip)@.len() >= 1,
    ensures
        final(tip)@ == tip_after(old(tip)@, s@),
{
    let units = wide(s);
    let ghost enc = utf16_encode(s@);
    assert(units@.take(enc.len() as int) =~= enc);
    let max = tip.len() - 1;
    let n = if units.len() - 1 < max {
        units.len() - 1
    } else {
        max
    };
    let ghost start = tip@;
    let mut i: usize = 0;
    while i < n
        invariant
            i <= n <= max,
            max == start.len() - 1,
            n <= units.len() - 1,
            units@.len() == enc.len() + 1,
            forall|t: int| 0 <= t < enc.len() ==> units@[t] == enc[t],
            tip@ == enc.take(i as int) + start.skip(i as int),
        decreases n - i,
    {
        tip[i] = units[i];
        assert(tip@ =~= enc.take(i + 1) + start.skip(i + 1));
        i = i + 1;
    }
}

/// The Explorer arguments that open the folder of `exe` with it selected.
pub open spec fn select_params(exe: Seq<char>) -> Seq<char> {
    "/select,\""@ + exe + "\""@
}

pub fn open_location_params(exe: &str) -> (p: String)
    ensures
        p@ == select_params(exe@),
{
    let mut p = String::from_str("/select,\"");
    p.append(exe);
    p.append("\"");
    p
}

/// An integer resource identifier as the pointer-sized value that stands for
/// a resource name.
pub fn makeintresource(w: u16) -> (r: usize)
    ensures
        r == w as usize,
{
    w as usize
}

} // verus!
