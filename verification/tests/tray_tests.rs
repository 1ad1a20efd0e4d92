use alt_ime_rs::hook::ime_toggle_wparam;
use alt_ime_rs::tray::{
    answer_opens_releases, makeintresource, menu_items, open_location_params, set_tip, toggle_autostart,
    update_dialog, wnd_proc_action, AutostartChange, TrayAction, IDM_AUTOSTART, IDM_CHECKUPDATE, IDM_EXIT,
    IDM_OPEN_LOCATION, IDYES, MB_ICONINFORMATION, MB_ICONWARNING, MB_OK, MB_YESNO, MF_CHECKED, MF_SEPARATOR,
    MF_STRING, MF_UNCHECKED, WM_APP, WM_APP_IME_TOGGLE, WM_APP_SUPPRESS, WM_APP_UPDATE_RESULT, WM_COMMAND,
    WM_DESTROY, WM_LBUTTONUP, WM_NULL, WM_RBUTTONUP, WM_TRAYICON,
};
use alt_ime_rs::update::{Outcome, Trigger};
use alt_ime_rs::wide;
use windows_sys::Win32::UI::WindowsAndMessaging as wm;

#[test]
fn tray_constants_match_windows_sys() {
    assert_eq!(WM_APP, wm::WM_APP);
    assert_eq!(WM_COMMAND, wm::WM_COMMAND);
    assert_eq!(WM_DESTROY, wm::WM_DESTROY);
    assert_eq!(WM_LBUTTONUP, wm::WM_LBUTTONUP);
    assert_eq!(WM_RBUTTONUP, wm::WM_RBUTTONUP);
    assert_eq!(WM_NULL, wm::WM_NULL);
    assert_eq!(MF_CHECKED, wm::MF_CHECKED);
    assert_eq!(MF_UNCHECKED, wm::MF_UNCHECKED);
    assert_eq!(MF_STRING, wm::MF_STRING);
    assert_eq!(MF_SEPARATOR, wm::MF_SEPARATOR);
    assert_eq!(MB_OK, wm::MB_OK);
    assert_eq!(MB_YESNO, wm::MB_YESNO);
    assert_eq!(MB_ICONINFORMATION, wm::MB_ICONINFORMATION);
    assert_eq!(MB_ICONWARNING, wm::MB_ICONWARNING);
    assert_eq!(IDYES, wm::IDYES);
    assert_eq!(WM_TRAYICON, WM_APP + 1);
}

#[test]
fn dispatch_app_messages() {
    assert_eq!(wnd_proc_action(WM_APP_SUPPRESS, 0, 0), TrayAction::InjectSuppress);
    assert_eq!(wnd_proc_action(WM_APP_IME_TOGGLE, ime_toggle_wparam(true), 0), TrayAction::SwitchIme(true));
    assert_eq!(wnd_proc_action(WM_APP_IME_TOGGLE, ime_toggle_wparam(false), 0), TrayAction::SwitchIme(false));
    assert_eq!(wnd_proc_action(WM_APP_UPDATE_RESULT, 0, 1234), TrayAction::ShowUpdateResult);
}

#[test]
fn dispatch_tray_clicks() {
    assert_eq!(wnd_proc_action(WM_TRAYICON, 1, WM_RBUTTONUP as isize), TrayAction::ShowMenu);
    assert_eq!(wnd_proc_action(WM_TRAYICON, 1, WM_LBUTTONUP as isize), TrayAction::ShowMenu);
    assert_eq!(wnd_proc_action(WM_TRAYICON, 1, 0x0001_0205), TrayAction::ShowMenu);
    assert_eq!(wnd_proc_action(WM_TRAYICON, 1, 0x0200), TrayAction::Nothing);
}

#[test]
fn dispatch_commands() {
    assert_eq!(wnd_proc_action(WM_COMMAND, IDM_AUTOSTART, 0), TrayAction::ToggleAutostart);
    assert_eq!(wnd_proc_action(WM_COMMAND, IDM_OPEN_LOCATION, 0), TrayAction::OpenFileLocation);
    assert_eq!(wnd_proc_action(WM_COMMAND, IDM_CHECKUPDATE, 0), TrayAction::CheckForUpdate);
    assert_eq!(wnd_proc_action(WM_COMMAND, IDM_EXIT | 0x1_0000, 0), TrayAction::DestroyWindow);
    assert_eq!(wnd_proc_action(WM_COMMAND, 42, 0), TrayAction::Default);
    assert_eq!(wnd_proc_action(WM_DESTROY, 0, 0), TrayAction::Quit);
    assert_eq!(wnd_proc_action(0x000F, 0, 0), TrayAction::Default);
}

#[test]
fn menu_layout() {
    let items = menu_items(true);
    assert_eq!(items.len(), 5);
    assert_eq!(items[0].flags, MF_STRING | MF_CHECKED);
    assert_eq!(items[0].id, IDM_AUTOSTART);
    assert_eq!(items[0].label.as_deref(), Some("自動起動"));
    assert_eq!(items[1].label.as_deref(), Some("実行ファイルの場所を開く"));
    assert_eq!(items[2].id, IDM_CHECKUPDATE);
    assert_eq!(items[2].label.as_deref(), Some("アップデートを確認する"));
    assert_eq!(items[3].flags, MF_SEPARATOR);
    assert_eq!(items[3].label, None);
    assert_eq!(items[4].id, IDM_EXIT);
    assert_eq!(items[4].label.as_deref(), Some("終了"));
    assert_eq!(menu_items(false)[0].flags, MF_STRING | MF_UNCHECKED);
}

#[test]
fn toggle_flips_registration() {
    assert_eq!(toggle_autostart(true), AutostartChange::Disable);
    assert_eq!(toggle_autostart(false), AutostartChange::Enable);
}

#[test]
fn update_available_dialog() {
    let o = Outcome::UpdateAvailable("v2026.07.04".to_string());
    for t in [Trigger::Manual, Trigger::Startup] {
        let d = update_dialog(t, &o, "0.1.0").unwrap();
        assert_eq!(d.text, "新しいバージョンがあります。\n\n現在: v0.1.0\n最新: v2026.07.04\n\n配布ページを開きますか？");
        assert_eq!(d.caption, "アップデート");
        assert_eq!(d.style, MB_YESNO | MB_ICONINFORMATION);
        assert!(answer_opens_releases(&d, IDYES));
        assert!(!answer_opens_releases(&d, 7));
    }
}

#[test]
fn up_to_date_dialog_only_when_asked() {
    let o = Outcome::UpToDate("v2026.07.04".to_string());
    assert_eq!(update_dialog(Trigger::Startup, &o, "2026.07.04"), None);
    let d = update_dialog(Trigger::Manual, &o, "2026.07.04").unwrap();
    assert_eq!(d.text, "最新のバージョンを使用しています。\n(v2026.07.04)");
    assert_eq!(d.style, MB_OK | MB_ICONINFORMATION);
    assert!(!answer_opens_releases(&d, IDYES));
}

#[test]
fn failure_dialog_only_when_asked() {
    assert_eq!(update_dialog(Trigger::Startup, &Outcome::Failed, "0.1.0"), None);
    let d = update_dialog(Trigger::Manual, &Outcome::Failed, "0.1.0").unwrap();
    assert_eq!(d.text, "アップデートの確認に失敗しました。\nネットワーク環境を確認し、配布ページを開きますか？");
    assert_eq!(d.style, MB_YESNO | MB_ICONWARNING);
    assert!(answer_opens_releases(&d, IDYES));
}

#[test]
fn tip_is_cut_and_terminated() {
    let mut tip = [0u16; 128];
    set_tip(&mut tip, "alt-ime-rs");
    let w = wide("alt-ime-rs");
    assert_eq!(&tip[..w.len()], &w[..]);
    let mut small = [0u16; 4];
    set_tip(&mut small, "alt-ime-rs");
    assert_eq!(small, [0x61, 0x6C, 0x74, 0]);
    let mut one = [9u16; 1];
    set_tip(&mut one, "x");
    assert_eq!(one, [9]);
}

#[test]
fn explorer_select_arguments() {
    assert_eq!(open_location_params(r"C:\a b\x.exe"), "/select,\"C:\\a b\\x.exe\"");
}

#[test]
fn resource_identifier() {
    assert_eq!(makeintresource(1), 1usize);
    assert_eq!(makeintresource(0xFFFF), 0xFFFFusize);
}
