use vstd::prelude::*;

verus! {

/// Relies on std::time::SystemTime::now and SystemTime::duration_since: the
/// wall clock read as whole seconds since the Unix epoch (zero when the clock
/// stands before the epoch). Nothing is promised of the value.
#[verifier::external_body]
pub fn now_as_seconds() -> (r: u64) {
    std::time::SystemTime::now()
        .duration_since(std::time::UNIX_EPOCH)
        .unwrap_or_default()
        .as_secs()
}

} // verus!
