//! The wall clock, in milliseconds since the Unix epoch.

use vstd::prelude::*;

verus! {

/// Calls `SystemTime::elapsed` on the Unix epoch: the milliseconds since then, or nothing where
/// the clock stands before it. The time is the machine's, so nothing is promised of it.
#[verifier::external_body]
fn epoch_elapsed_ms() -> (res: Option<u128>) {
    match std::time::SystemTime::UNIX_EPOCH.elapsed() {
        Ok(elapsed) => Some(elapsed.as_millis()),
        Err(_) => None,
    }
}

/// The clock reading for a span since the epoch: zero before the epoch, else the low 64 bits of
/// the milliseconds.
pub fn clock_reading(elapsed: Option<u128>) -> (res: u64)
    ensures
        res == match elapsed {
            Some(ms) => ms as int % 0x1_0000_0000_0000_0000,
            None => 0,
        },
{
    match elapsed {
        Some(ms) => {
            assert(#[verifier::truncate] (ms as u64) == ms % 0x1_0000_0000_0000_0000) by (bit_vector);
            #[verifier::truncate]
            (ms as u64)
        },
        None => 0,
    }
}

/// The current time.
pub fn now_ms() -> (res: u64) {
    clock_reading(epoch_elapsed_ms())
}

} // verus!
