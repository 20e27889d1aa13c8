//! The native identity behind a path, as a live open read it.

use vstd::prelude::*;
use crate::bytes::le_value;
use crate::identity::EntryIdentity;
use crate::platform::{IoErrorKind, IoFailure};

verus! {

/// What opening a path without following links showed.
#[derive(Debug)]
pub enum PathReading {
    /// The path could not be opened.
    OpenFailed(IoFailure),
    /// The path was opened, but its identity could not be read.
    IdentityFailed(IoFailure),
    /// The volume serial number and file id of what the path names.
    Identified { volume_serial_number: u64, file_id: [u8; 16] },
}

/// The live identity of whatever a path currently names.
///
/// `Ok(None)` when the path no longer resolves: something that is already gone cannot be acted
/// on. Any other failure is an error, because an identity that could not be read must never be
/// treated as one that matched.
pub fn read_live_identity(reading: PathReading) -> (r: Result<Option<EntryIdentity>, IoFailure>)
    ensures
        match reading {
            PathReading::OpenFailed(error) => if error.kind == IoErrorKind::NotFound {
                r matches Ok(None)
            } else {
                r == Err::<Option<EntryIdentity>, IoFailure>(error)
            },
            PathReading::IdentityFailed(error) => r == Err::<Option<EntryIdentity>, IoFailure>(
                error,
            ),
            PathReading::Identified { volume_serial_number, file_id } => r matches Ok(
                Some(identity),
            ) && identity.device_number() == volume_serial_number && identity.inode_number()
                == le_value(file_id@, 0, 16),
        },
{
    match reading {
        PathReading::OpenFailed(error) => if error.kind == IoErrorKind::NotFound {
            Ok(None)
        } else {
            Err(error)
        },
        PathReading::IdentityFailed(error) => Err(error),
        PathReading::Identified { volume_serial_number, file_id } => Ok(
            Some(EntryIdentity::from_windows_file_id(volume_serial_number, file_id)),
        ),
    }
}

} // verus!
