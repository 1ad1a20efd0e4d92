use alt_ime_rs::ime::{ime_owner_window, open_status_change, IMC_GETOPENSTATUS, IMC_SETOPENSTATUS, WM_IME_CONTROL};
use alt_ime_rs::startup::{
    data_byte_len, delete_succeeded, run_value_data, value_buffer_len, ERROR_FILE_NOT_FOUND, ERROR_MORE_DATA,
};
use alt_ime_rs::wide;

#[test]
fn ime_constants() {
    assert_eq!(WM_IME_CONTROL, windows_sys::Win32::UI::WindowsAndMessaging::WM_IME_CONTROL);
    assert_eq!(IMC_GETOPENSTATUS, 5);
    assert_eq!(IMC_SETOPENSTATUS, 6);
}

#[test]
fn owner_window_choice() {
    assert_eq!(ime_owner_window(0, true, 7), None);
    assert_eq!(ime_owner_window(5, true, 7), Some(7));
    assert_eq!(ime_owner_window(5, true, 0), Some(5));
    assert_eq!(ime_owner_window(5, false, 7), Some(5));
}

#[test]
fn open_status_changes_only_when_needed() {
    assert_eq!(open_status_change(0, true), Some(1));
    assert_eq!(open_status_change(1, true), None);
    assert_eq!(open_status_change(1, false), Some(0));
    assert_eq!(open_status_change(0, false), None);
    assert_eq!(open_status_change(3, false), Some(0));
    assert_eq!(open_status_change(3, true), None);
    assert_eq!(open_status_change(-1, true), None);
}

#[test]
fn switching_twice_sends_once() {
    let first = open_status_change(0, true).unwrap();
    assert_eq!(open_status_change(first, true), None);
}

#[test]
fn run_value_is_quoted_path() {
    let path = r"C:\Program Files\alt-ime-rs\alt-ime-rs.exe";
    assert_eq!(run_value_data(path), wide(&format!("\"{}\"", path)));
    assert_eq!(run_value_data(""), vec![0x22, 0x22, 0]);
}

#[test]
fn byte_length_of_value() {
    assert_eq!(data_byte_len(0), 0);
    assert_eq!(data_byte_len(45), 90);
    assert_eq!(data_byte_len(0x8000_0001), 2);
}

#[test]
fn buffer_length_after_size_query() {
    assert_eq!(ERROR_MORE_DATA, windows_sys::Win32::Foundation::ERROR_MORE_DATA);
    assert_eq!(ERROR_FILE_NOT_FOUND, windows_sys::Win32::Foundation::ERROR_FILE_NOT_FOUND);
    assert_eq!(value_buffer_len(0, 90), Some(46));
    assert_eq!(value_buffer_len(234, 91), Some(46));
    assert_eq!(value_buffer_len(0, 0), None);
    assert_eq!(value_buffer_len(2, 90), None);
    assert_eq!(value_buffer_len(5, 90), None);
}

#[test]
fn delete_is_idempotent() {
    assert!(delete_succeeded(0));
    assert!(delete_succeeded(2));
    assert!(!delete_succeeded(5));
}
