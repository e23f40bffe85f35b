use core::sync::atomic::{AtomicBool, AtomicU32};
use signaling::utils::EasyAtomic;

#[test]
fn atomic_bool_round_trips() {
    let cell = AtomicBool::new(false);
    assert!(!cell.get());
    cell.set(true);
    assert!(cell.get());
}

#[test]
fn atomic_u32_round_trips() {
    let cell = AtomicU32::new(0);
    cell.set(71);
    assert_eq!(cell.get(), 71);
}
