//! The request id that a session begins with where it does not begin at 0.

use vstd::prelude::*;

verus! {

/// The request id that a session started at `seconds` after the beginning of
/// 1970 begins with: the low 32 bits of `seconds`.
pub open spec fn first_id_at(seconds: i64) -> u32 {
    (seconds as int % 0x1_0000_0000) as u32
}

/// The request id to begin with for a session that started at `seconds`.
pub fn first_id_from_seconds(seconds: i64) -> (id: u32)
    ensures
        id == first_id_at(seconds),
{
    let span: i64 = 0x1_0000_0000;
    if seconds >= 0 {
        (seconds % span) as u32
    } else {
        let below: i64 = -(seconds + 1);
        (span - 1 - below % span) as u32
    }
}

} // verus!
