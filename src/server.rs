use vstd::prelude::*;

use crate::error::ValqError;

verus! {

/// The oldest server release the queue runs on: 7.2.8.
pub const MIN_SERVER_MAJOR: i32 = 7;

pub const MIN_SERVER_MINOR: i32 = 2;

pub const MIN_SERVER_PATCH: i32 = 8;

/// Version `(major, minor, patch)` is at least the oldest supported one,
/// compared part by part.
pub open spec fn version_supported(major: i32, minor: i32, patch: i32) -> bool {
    major > MIN_SERVER_MAJOR || (major == MIN_SERVER_MAJOR && (minor > MIN_SERVER_MINOR || (minor
        == MIN_SERVER_MINOR && patch >= MIN_SERVER_PATCH)))
}

pub fn valid_server_version(major: i32, minor: i32, patch: i32) -> (r: bool)
    ensures
        r == version_supported(major, minor, patch),
{
    if major != MIN_SERVER_MAJOR {
        major > MIN_SERVER_MAJOR
    } else if minor != MIN_SERVER_MINOR {
        minor > MIN_SERVER_MINOR
    } else {
        patch >= MIN_SERVER_PATCH
    }
}

/// A write may run unless it arrives directly at a read-only replica, that
/// is, on a read-only server and not through replication.
pub fn check_write_allowed(readonly: bool, replicated: bool) -> (r: Result<(), ValqError>)
    ensures
        readonly && !replicated ==> r == Err::<(), ValqError>(ValqError::ReadOnlyReplica),
        !(readonly && !replicated) ==> r is Ok,
{
    if readonly && !replicated {
        Err(ValqError::ReadOnlyReplica)
    } else {
        Ok(())
    }
}

} // verus!
