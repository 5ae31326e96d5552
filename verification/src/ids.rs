//! Fresh identifiers and the wall clock.
use vstd::prelude::*;

verus! {

/// Calls `uuid::Uuid::new_v4` and returns the id's sixteen bytes.
///
/// The id is random, so nothing is claimed of its bits beyond what the
/// crate sets on every one: the version nibble (high half of byte 6) is 4
/// and the variant bits (top two of byte 8) are `10`. The call panics if
/// the operating system's random source fails; nothing here rules that out.
#[verifier::external_body]
pub(crate) fn fresh_evaluation_id() -> (r: [u8; 16])
    ensures
        r@[6] / 16 == 4,
        r@[8] / 64 == 2,
{
    *uuid::Uuid::new_v4().as_bytes()
}

/// Calls `chrono::Utc::now` and returns it as milliseconds since the Unix
/// epoch. The value is the machine's clock reading; all that is claimed of
/// it is that it is not negative, since the call panics if the clock reads
/// before the epoch.
#[verifier::external_body]
pub(crate) fn now_millis() -> (r: i64)
    ensures
        r >= 0,
{
    chrono::Utc::now().timestamp_millis()
}

} // verus!
