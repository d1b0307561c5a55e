//! Keyboard input: scan codes from the interrupt handler go into a bounded
//! queue; when it is full the scan code is dropped.
use vstd::prelude::*;
use crossbeam_queue::ArrayQueue;
use crate::lazy::Once;
use crate::queue::queue_push;

verus! {

/// Queues a scan code. Returns `false` when the queue was full and the scan
/// code was dropped. The queue must have been set up.
pub fn add_keyboard_scan_code(scancodes: &Once<ArrayQueue<u8>>, scancode: u8) -> bool
    requires
        scancodes@.is_some(),
{
    let queue = scancodes.get_unchecked();
    match queue_push(queue, scancode) {
        Ok(()) => true,
        Err(_) => false,
    }
}

} // verus!
