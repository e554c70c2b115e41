use jumble_helper::entry::{handle_keys, EntryStatus, KeyEvent};

#[test]
fn no_keys_leave_entry_unchanged() {
    let mut e = "ABC".to_string();
    assert_eq!(handle_keys(&mut e, &vec![], 8), EntryStatus::Unchanged);
    assert_eq!(e, "ABC");
}

#[test]
fn backspace_removes_last_letter() {
    let mut e = "ABC".to_string();
    let keys = vec![KeyEvent::Letter('D'), KeyEvent::Backspace];
    assert_eq!(handle_keys(&mut e, &keys, 8), EntryStatus::Changed);
    assert_eq!(e, "AB");
    let mut e = String::new();
    assert_eq!(handle_keys(&mut e, &vec![KeyEvent::Backspace], 8), EntryStatus::Changed);
    assert_eq!(e, "");
}

#[test]
fn delete_clears_entry() {
    let mut e = "ABC".to_string();
    let keys = vec![KeyEvent::Delete, KeyEvent::Escape];
    assert_eq!(handle_keys(&mut e, &keys, 8), EntryStatus::Changed);
    assert_eq!(e, "");
}

#[test]
fn escape_quits() {
    let mut e = "ABC".to_string();
    let keys = vec![KeyEvent::Letter('D'), KeyEvent::Escape];
    assert_eq!(handle_keys(&mut e, &keys, 8), EntryStatus::Quit);
    assert_eq!(e, "ABC");
}

#[test]
fn letters_appended_up_to_max() {
    let mut e = "ABCDEF".to_string();
    let keys = vec![KeyEvent::Letter('G'), KeyEvent::Letter('H'), KeyEvent::Letter('I')];
    assert_eq!(handle_keys(&mut e, &keys, 8), EntryStatus::Changed);
    assert_eq!(e, "ABCDEFGH");
}

#[test]
fn other_keys_use_room_but_add_nothing() {
    let mut e = "ABCDEF".to_string();
    let keys = vec![KeyEvent::Other, KeyEvent::Letter('G'), KeyEvent::Letter('H')];
    assert_eq!(handle_keys(&mut e, &keys, 8), EntryStatus::Changed);
    assert_eq!(e, "ABCDEFG");
}

#[test]
fn full_entry_takes_no_letters() {
    let mut e = "ABCDEFGHIJ".to_string();
    assert_eq!(handle_keys(&mut e, &vec![KeyEvent::Letter('K')], 8), EntryStatus::Changed);
    assert_eq!(e, "ABCDEFGHIJ");
}
