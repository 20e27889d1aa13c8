//! Verification of accelerated records against the live filesystem.
//!
//! A record of a layout page is a snapshot. Before it may influence a result,
//! its reference number is opened and what is found is held to what it claimed.

use vstd::prelude::*;
use crate::accelerated_source::ATTRIBUTE_REPARSE_POINT;
use crate::identity::EntryIdentity;
use crate::path_reconstruction::ATTRIBUTE_DIRECTORY;

verus! {

/// Why an accelerated record could not be confirmed to name a live object.
///
/// Every variant is a refusal to use the record, never a downgrade to trusting it.
#[derive(Debug, Clone, Copy, PartialEq, Eq, Structural)]
pub enum VerificationRefusal {
    /// The reference number no longer resolves: the record was deleted or is otherwise gone.
    Stale { code: u32 },
    /// The volume hint was refused for this reference number, including the cross-volume case.
    NotOnThisVolume { code: u32 },
    /// The object resolved but its metadata could not be read.
    MetadataUnavailable { code: u32 },
    /// The object resolved to an identity other than the one the record claimed.
    IdentityMismatch,
    /// The record's own claim is unusable, so there is nothing to verify against.
    UnusableRecord,
}

impl VerificationRefusal {
    /// The stable code of each refusal.
    pub open spec fn code_text(self) -> Seq<char> {
        match self {
            VerificationRefusal::Stale { .. } => "accelerated_record_stale"@,
            VerificationRefusal::NotOnThisVolume { .. } => "accelerated_record_not_on_volume"@,
            VerificationRefusal::MetadataUnavailable { .. } =>
                "accelerated_record_metadata_unavailable"@,
            VerificationRefusal::IdentityMismatch => "accelerated_record_identity_mismatch"@,
            VerificationRefusal::UnusableRecord => "accelerated_record_unusable"@,
        }
    }

    /// Position of the variant, whatever it carries.
    pub open spec fn variant(self) -> int {
        match self {
            VerificationRefusal::Stale { .. } => 0,
            VerificationRefusal::NotOnThisVolume { .. } => 1,
            VerificationRefusal::MetadataUnavailable { .. } => 2,
            VerificationRefusal::IdentityMismatch => 3,
            VerificationRefusal::UnusableRecord => 4,
        }
    }

    /// Stable machine code for logs and structured output. Never localized.
    pub fn code(self) -> (r: &'static str)
        ensures
            r@ == self.code_text(),
    {
        match self {
            VerificationRefusal::Stale { .. } => "accelerated_record_stale",
            VerificationRefusal::NotOnThisVolume { .. } => "accelerated_record_not_on_volume",
            VerificationRefusal::MetadataUnavailable { .. } =>
                "accelerated_record_metadata_unavailable",
            VerificationRefusal::IdentityMismatch => "accelerated_record_identity_mismatch",
            VerificationRefusal::UnusableRecord => "accelerated_record_unusable",
        }
    }

    /// Whether the refusal is an ordinary consequence of scanning a live volume.
    ///
    /// Files are deleted while a scan runs. Any other refusal is a reason to distrust the
    /// whole snapshot rather than to skip one row.
    pub fn is_expected_on_a_live_volume(self) -> (r: bool)
        ensures
            r == (self is Stale),
    {
        matches!(self, VerificationRefusal::Stale { .. })
    }
}

/// Two refusals share a code only when they are of the same variant.
pub proof fn verification_codes_are_distinct(a: VerificationRefusal, b: VerificationRefusal)
    ensures
        a.code_text() == b.code_text() ==> a.variant() == b.variant(),
{
    reveal_strlit("accelerated_record_stale");
    reveal_strlit("accelerated_record_not_on_volume");
    reveal_strlit("accelerated_record_metadata_unavailable");
    reveal_strlit("accelerated_record_identity_mismatch");
    reveal_strlit("accelerated_record_unusable");
    assert("accelerated_record_stale"@.len() == 24);
    assert("accelerated_record_not_on_volume"@.len() == 32);
    assert("accelerated_record_metadata_unavailable"@.len() == 39);
    assert("accelerated_record_identity_mismatch"@.len() == 36);
    assert("accelerated_record_unusable"@.len() == 27);
}

/// A confirmed accelerated record: the identity a live open actually observed.
///
/// It carries the identity read back from the reopened object rather than the record's claim,
/// so a caller cannot propagate the unverified value.
#[derive(Debug, Clone, Copy, PartialEq, Eq, Structural)]
pub struct VerifiedRecord {
    identity: EntryIdentity,
    is_directory: bool,
    is_reparse_point: bool,
    reparse_tag: u32,
}

/// What a verified record says.
#[verifier::ext_equal]
pub struct VerifiedView {
    pub identity: EntryIdentity,
    pub is_directory: bool,
    pub is_reparse_point: bool,
    pub reparse_tag: u32,
}

impl View for VerifiedRecord {
    type V = VerifiedView;

    closed spec fn view(&self) -> VerifiedView {
        VerifiedView {
            identity: self.identity,
            is_directory: self.is_directory,
            is_reparse_point: self.is_reparse_point,
            reparse_tag: self.reparse_tag,
        }
    }
}

impl VerifiedRecord {
    /// Identity observed by the live open, suitable for comparison with traversal output.
    pub fn identity(&self) -> (r: &EntryIdentity)
        ensures
            *r == self@.identity,
    {
        &self.identity
    }

    /// Whether the live object is a directory.
    pub fn is_directory(&self) -> (r: bool)
        ensures
            r == self@.is_directory,
    {
        self.is_directory
    }

    /// Whether the live object is a reparse point, which traversal must not follow.
    pub fn is_reparse_point(&self) -> (r: bool)
        ensures
            r == self@.is_reparse_point,
    {
        self.is_reparse_point
    }

    /// Reparse tag when `is_reparse_point()`, else zero.
    pub fn reparse_tag(&self) -> (r: u32)
        ensures
            r == self@.reparse_tag,
    {
        self.reparse_tag
    }
}

/// What an accelerated record claims.
#[derive(Debug, Clone, Copy, PartialEq, Eq, Structural)]
pub struct AcceleratedClaim {
    /// 64-bit NTFS file reference number from the layout record.
    pub file_reference_number: u64,
    /// Whether the record described a directory, checked against the live object.
    pub is_directory: bool,
}

impl AcceleratedClaim {
    /// Whether the claim may be probed at all: a zero reference number is never a real record.
    pub fn is_usable(&self) -> (r: bool)
        ensures
            r == (self.file_reference_number != 0),
    {
        self.file_reference_number != 0
    }
}

/// What opening a record by its reference number showed.
#[derive(Debug, Clone, Copy, PartialEq, Eq, Structural)]
pub enum LiveObservation {
    /// The reference number could not be opened.
    OpenFailed { code: u32 },
    /// The object was opened, but its identity or its attributes could not be read.
    MetadataFailed { code: u32 },
    /// The object was opened and read.
    Read { identity: EntryIdentity, attributes: u32, reparse_tag: u32 },
}

/// What a failed open means: the filesystem answers with a missing name or an
/// invalid parameter for a reference number that is gone.
pub open spec fn open_refusal(code: u32) -> VerificationRefusal {
    if code == 2 || code == 3 || code == 87 {
        VerificationRefusal::Stale { code }
    } else {
        VerificationRefusal::NotOnThisVolume { code }
    }
}

/// The reference number in the low half of a Windows file id.
pub open spec fn reference_of(identity: EntryIdentity) -> int {
    identity.inode_number() as int % 0x1_0000_0000_0000_0000
}

/// What an observation makes of a claim.
pub open spec fn verification(claim: AcceleratedClaim, observed: LiveObservation) -> Result<
    VerifiedView,
    VerificationRefusal,
> {
    if claim.file_reference_number == 0 {
        Err(VerificationRefusal::UnusableRecord)
    } else {
        match observed {
            LiveObservation::OpenFailed { code } => Err(open_refusal(code)),
            LiveObservation::MetadataFailed { code } => Err(
                VerificationRefusal::MetadataUnavailable { code },
            ),
            LiveObservation::Read { identity, attributes, reparse_tag } => {
                let is_directory = attributes & ATTRIBUTE_DIRECTORY != 0;
                let is_reparse_point = attributes & ATTRIBUTE_REPARSE_POINT != 0;
                if reference_of(identity) != claim.file_reference_number || is_directory
                    != claim.is_directory {
                    Err(VerificationRefusal::IdentityMismatch)
                } else {
                    Ok(
                        VerifiedView {
                            identity,
                            is_directory,
                            is_reparse_point,
                            reparse_tag: if is_reparse_point {
                                reparse_tag
                            } else {
                                0
                            },
                        },
                    )
                }
            },
        }
    }
}

/// Verifies one accelerated record against what a live open of it showed.
///
/// The object must carry the reference number that the record claims, so a reference that was
/// reused for another object is refused. The record's own type claim is part of what is
/// verified too: a snapshot that calls a file a directory is inconsistent with the live object.
pub fn verify_accelerated_record(claim: AcceleratedClaim, observed: LiveObservation) -> (r: Result<
    VerifiedRecord,
    VerificationRefusal,
>)
    ensures
        (match r {
            Ok(record) => Ok(record@),
            Err(refusal) => Err(refusal),
        }) == verification(claim, observed),
{
    if !claim.is_usable() {
        return Err(VerificationRefusal::UnusableRecord);
    }
    match observed {
        LiveObservation::OpenFailed { code } => if code == 2 || code == 3 || code == 87 {
            Err(VerificationRefusal::Stale { code })
        } else {
            Err(VerificationRefusal::NotOnThisVolume { code })
        },
        LiveObservation::MetadataFailed { code } => Err(
            VerificationRefusal::MetadataUnavailable { code },
        ),
        LiveObservation::Read { identity, attributes, reparse_tag } => {
            let is_directory = attributes & ATTRIBUTE_DIRECTORY != 0;
            if identity.inode() % 0x1_0000_0000_0000_0000 != claim.file_reference_number as u128
                || is_directory != claim.is_directory {
                return Err(VerificationRefusal::IdentityMismatch);
            }
            let is_reparse_point = attributes & ATTRIBUTE_REPARSE_POINT != 0;
            let tag: u32 = if is_reparse_point {
                reparse_tag
            } else {
                0
            };
            Ok(VerifiedRecord { identity, is_directory, is_reparse_point, reparse_tag: tag })
        },
    }
}

/// Confirms a verified record refers to the same object traversal reported.
///
/// Identity equality alone is not enough: an object whose type or reparse status differs is a
/// different scanning subject even at the same id. Traversal does not follow reparse points, so
/// what it reports as a directory is none.
pub fn agrees_with_traversal(
    verified: &VerifiedRecord,
    traversal_identity: &EntryIdentity,
    traversal_is_directory: bool,
) -> (r: bool)
    ensures
        r == (verified@.identity == *traversal_identity && verified@.is_directory
            == traversal_is_directory && !(traversal_is_directory && verified@.is_reparse_point)),
{
    verified.identity == *traversal_identity && verified.is_directory == traversal_is_directory
        && !(traversal_is_directory && verified.is_reparse_point)
}

/// A verified record carries the identity and the type that were read from the
/// live object, both as the record claimed them, and a tag only where the
/// object is a reparse point.
pub proof fn verified_records_come_from_live_reads(claim: AcceleratedClaim, observed: LiveObservation)
    ensures
        verification(claim, observed) matches Ok(record) ==> {
            &&& claim.file_reference_number != 0
            &&& observed matches LiveObservation::Read { identity, attributes, reparse_tag }
                && record.identity == identity
            &&& reference_of(record.identity) == claim.file_reference_number
            &&& record.is_directory == claim.is_directory
            &&& !record.is_reparse_point ==> record.reparse_tag == 0
        },
{
}

/// A record is verified just when it was opened and read, its own reference came back in the low
/// half of the identity, and the object is a directory just when the record says so. What is then
/// reported is what was read: the identity, the type bits, and the tag of a reparse point.
pub proof fn records_are_verified_by_what_was_read(
    claim: AcceleratedClaim,
    identity: EntryIdentity,
    attributes: u32,
    reparse_tag: u32,
)
    ensures
        ({
            let answer = verification(
                claim,
                LiveObservation::Read { identity, attributes, reparse_tag },
            );
            &&& answer is Ok <==> claim.file_reference_number != 0 && identity.inode_number() as int
                % 0x1_0000_0000_0000_0000 == claim.file_reference_number && (attributes & 0x10 != 0)
                == claim.is_directory
            &&& answer matches Ok(record) ==> {
                &&& record.identity == identity
                &&& record.is_directory == (attributes & 0x10 != 0)
                &&& record.is_reparse_point == (attributes & 0x400 != 0)
                &&& attributes & 0x400 != 0 ==> record.reparse_tag == reparse_tag
                &&& attributes & 0x400 == 0 ==> record.reparse_tag == 0
            }
            &&& claim.file_reference_number == 0 ==> answer == Err::<
                VerifiedView,
                VerificationRefusal,
            >(VerificationRefusal::UnusableRecord)
            &&& claim.file_reference_number != 0 && answer is Err ==> answer == Err::<
                VerifiedView,
                VerificationRefusal,
            >(VerificationRefusal::IdentityMismatch)
        }),
{
}

/// A record that could not be opened is stale where the system says that it is gone, and not on
/// this volume otherwise; one that could not be read has no metadata. Each keeps the system's
/// code, and none is ever verified.
pub proof fn failed_observations_are_refused(claim: AcceleratedClaim, code: u32)
    requires
        claim.file_reference_number != 0,
    ensures
        verification(claim, LiveObservation::OpenFailed { code }) == Err::<
            VerifiedView,
            VerificationRefusal,
        >(
            if code == 2 || code == 3 || code == 87 {
                VerificationRefusal::Stale { code }
            } else {
                VerificationRefusal::NotOnThisVolume { code }
            },
        ),
        verification(claim, LiveObservation::MetadataFailed { code }) == Err::<
            VerifiedView,
            VerificationRefusal,
        >(VerificationRefusal::MetadataUnavailable { code }),
{
}

/// The codes of the refusals never change.
pub proof fn verification_codes_are_stable(code: u32)
    ensures
        (VerificationRefusal::Stale { code }).code_text() == "accelerated_record_stale"@,
        (VerificationRefusal::NotOnThisVolume { code }).code_text()
            == "accelerated_record_not_on_volume"@,
        (VerificationRefusal::MetadataUnavailable { code }).code_text()
            == "accelerated_record_metadata_unavailable"@,
        VerificationRefusal::IdentityMismatch.code_text()
            == "accelerated_record_identity_mismatch"@,
        VerificationRefusal::UnusableRecord.code_text() == "accelerated_record_unusable"@,
{
}

} // verus!
