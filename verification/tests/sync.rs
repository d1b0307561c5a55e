use kernel::sync::RawMutex;

#[test]
fn raw_mutex_lock_cycle() {
    let m = RawMutex::new();
    assert!(!m.is_locked());
    let mut taken = false;
    for _ in 0..100 {
        if m.try_lock() {
            taken = true;
            break;
        }
    }
    assert!(taken);
    assert!(m.is_locked());
    assert!(!m.try_lock());
    m.unlock();
    assert!(!m.is_locked());
}
