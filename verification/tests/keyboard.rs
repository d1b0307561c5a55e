use crossbeam_queue::ArrayQueue;
use kernel::keyboard::add_keyboard_scan_code;
use kernel::lazy::Once;

#[test]
fn scan_codes_are_queued_until_full() {
    let mut codes: Once<ArrayQueue<u8>> = Once::new();
    codes.set_unchecked(ArrayQueue::new(2));
    assert!(add_keyboard_scan_code(&codes, 0x1e));
    assert!(add_keyboard_scan_code(&codes, 0x9e));
    assert!(!add_keyboard_scan_code(&codes, 0x20));
    let q = codes.get().unwrap();
    assert_eq!(q.pop(), Some(0x1e));
    assert_eq!(q.pop(), Some(0x9e));
    assert_eq!(q.pop(), None);
}
