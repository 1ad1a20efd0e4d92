use alt_ime_rs::hook::{
    ime_toggle_wparam, on_key_event, suppress_menu_inputs, HookRequests, KeyEvent, KeyInput, KeyState,
    KEYEVENTF_KEYUP, VK_LMENU, VK_RMENU, VK_SUPPRESS, WM_KEYDOWN, WM_KEYUP, WM_SYSKEYDOWN, WM_SYSKEYUP,
};

use windows_sys::Win32::UI::Input::KeyboardAndMouse as km;
use windows_sys::Win32::UI::WindowsAndMessaging as wm;

fn ev(wparam: u32, vk: u32) -> KeyEvent {
    KeyEvent { code: 0, wparam: wparam as usize, vk_code: vk }
}

fn feed(state: &mut KeyState, events: &[KeyEvent]) -> Vec<HookRequests> {
    events.iter().map(|e| on_key_event(state, *e)).collect()
}

const VK_TAB: u32 = 0x09;

#[test]
fn hook_constants_match_windows_sys() {
    assert_eq!(VK_LMENU, km::VK_LMENU as u32);
    assert_eq!(VK_RMENU, km::VK_RMENU as u32);
    assert_eq!(KEYEVENTF_KEYUP, km::KEYEVENTF_KEYUP);
    assert_eq!(WM_KEYDOWN, wm::WM_KEYDOWN);
    assert_eq!(WM_KEYUP, wm::WM_KEYUP);
    assert_eq!(WM_SYSKEYDOWN, wm::WM_SYSKEYDOWN);
    assert_eq!(WM_SYSKEYUP, wm::WM_SYSKEYUP);
}

#[test]
fn left_alt_tap_switches_off() {
    let mut s = KeyState::new();
    let r = feed(&mut s, &[ev(WM_SYSKEYDOWN, VK_LMENU), ev(WM_KEYUP, VK_LMENU)]);
    assert_eq!(r[0], HookRequests { suppress_menu: true, ime_toggle: None });
    assert_eq!(r[1], HookRequests { suppress_menu: false, ime_toggle: Some(false) });
    assert_eq!(s, KeyState { lalt_clean: false, ralt_clean: false });
}

#[test]
fn right_alt_tap_switches_on() {
    let mut s = KeyState::new();
    let r = feed(&mut s, &[ev(WM_KEYDOWN, VK_RMENU), ev(WM_SYSKEYUP, VK_RMENU)]);
    assert!(r[0].suppress_menu);
    assert_eq!(r[1].ime_toggle, Some(true));
}

#[test]
fn alt_tab_switches_nothing() {
    let mut s = KeyState::new();
    let r = feed(
        &mut s,
        &[ev(WM_SYSKEYDOWN, VK_LMENU), ev(WM_SYSKEYDOWN, VK_TAB), ev(WM_SYSKEYUP, VK_TAB), ev(WM_KEYUP, VK_LMENU)],
    );
    assert!(r.iter().all(|x| x.ime_toggle.is_none()));
    assert!(!r[1].suppress_menu);
}

#[test]
fn other_key_release_does_not_cancel() {
    let mut s = KeyState::new();
    let r = feed(&mut s, &[ev(WM_KEYDOWN, VK_LMENU), ev(WM_KEYUP, VK_TAB), ev(WM_KEYUP, VK_LMENU)]);
    assert_eq!(r[2].ime_toggle, Some(false));
}

#[test]
fn injected_key_is_ignored() {
    let mut s = KeyState::new();
    let r = feed(
        &mut s,
        &[
            ev(WM_SYSKEYDOWN, VK_LMENU),
            ev(WM_SYSKEYDOWN, VK_SUPPRESS),
            ev(WM_SYSKEYUP, VK_SUPPRESS),
            ev(WM_SYSKEYUP, VK_LMENU),
        ],
    );
    assert_eq!(r[1], HookRequests { suppress_menu: false, ime_toggle: None });
    assert_eq!(r[3].ime_toggle, Some(false));
}

#[test]
fn negative_code_is_ignored() {
    let mut s = KeyState { lalt_clean: true, ralt_clean: true };
    let r = on_key_event(&mut s, KeyEvent { code: -1, wparam: WM_KEYDOWN as usize, vk_code: VK_TAB });
    assert_eq!(r, HookRequests { suppress_menu: false, ime_toggle: None });
    assert_eq!(s, KeyState { lalt_clean: true, ralt_clean: true });
}

#[test]
fn second_release_switches_nothing() {
    let mut s = KeyState::new();
    let r = feed(&mut s, &[ev(WM_KEYDOWN, VK_RMENU), ev(WM_KEYUP, VK_RMENU), ev(WM_KEYUP, VK_RMENU)]);
    assert_eq!(r[1].ime_toggle, Some(true));
    assert_eq!(r[2].ime_toggle, None);
}

#[test]
fn both_alts_held_switch_each() {
    let mut s = KeyState::new();
    let r = feed(
        &mut s,
        &[ev(WM_KEYDOWN, VK_RMENU), ev(WM_KEYDOWN, VK_LMENU), ev(WM_KEYUP, VK_LMENU), ev(WM_KEYUP, VK_RMENU)],
    );
    assert_eq!(r[2].ime_toggle, Some(false));
    assert_eq!(r[3].ime_toggle, Some(true));
}

#[test]
fn key_repeat_keeps_tap() {
    let mut s = KeyState::new();
    let r = feed(
        &mut s,
        &[ev(WM_SYSKEYDOWN, VK_LMENU), ev(WM_SYSKEYDOWN, VK_LMENU), ev(WM_KEYUP, VK_LMENU)],
    );
    assert!(r[1].suppress_menu);
    assert_eq!(r[2].ime_toggle, Some(false));
}

#[test]
fn toggle_wparam_values() {
    assert_eq!(ime_toggle_wparam(true), 1);
    assert_eq!(ime_toggle_wparam(false), 0);
}

#[test]
fn suppress_inputs_press_then_release() {
    assert_eq!(
        suppress_menu_inputs(),
        vec![KeyInput { vk: 0x07, flags: 0 }, KeyInput { vk: 0x07, flags: KEYEVENTF_KEYUP }]
    );
}
