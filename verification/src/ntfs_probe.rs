//! Whether the NTFS acceleration path can be used for a root.

use vstd::prelude::*;
use crate::bytes::{bytes_count_by_their_place, in_bounds, le_value, read_u32};
use crate::cancellation::CancellationToken;
use crate::native_path::NativePath;
use crate::ntfs_acceleration::{
    layout_page, parse_file_layout_page, NtfsAccelerationFallback, NtfsAccelerationProbe,
    UsnJournalBounds, ABORTED_CODE, LIMIT_CODE,
};
use crate::privilege::PrivilegeLevel;
use crate::windows_path::{
    has_physical_root, path_shape, prefix_of, PrefixKind, BACKSLASH, COLON, FULL_STOP,
};
use crate::sequence::views;
use crate::windows_scanner::{find_nul, nul_position};

verus! {

/// `ERROR_ACCESS_DENIED`.
pub const ACCESS_DENIED_CODE: u32 = 5;

/// Size of the journal description that a complete answer fills.
pub const JOURNAL_DATA_BYTES: u32 = 56;

/// The device and the root directory of the volume that a path lies on.
pub open spec fn volume_of(path: Seq<u16>) -> Option<(Seq<u16>, Seq<u16>)> {
    match prefix_of(path) {
        Some(prefix) => if (prefix.kind == PrefixKind::Disk || prefix.kind
            == PrefixKind::VerbatimDisk) && has_physical_root(path) {
            Some(
                (
                    seq![BACKSLASH, BACKSLASH, FULL_STOP, BACKSLASH, prefix.drive, COLON],
                    seq![prefix.drive, COLON, BACKSLASH],
                ),
            )
        } else {
            None
        },
        None => None,
    }
}

/// The device `\\.\C:` and the root `C:\` of the volume that a path lies on.
/// Only rooted drive paths, verbatim or not, have them.
pub fn volume_paths(path: &[u16]) -> (r: Option<(Vec<u16>, Vec<u16>)>)
    ensures
        match r {
            Some((device, root)) => volume_of(path@) == Some((device@, root@)),
            None => volume_of(path@) is None,
        },
{
    let shape = path_shape(path);
    match &shape.prefix {
        Some(prefix) => {
            if !(prefix.kind == PrefixKind::Disk || prefix.kind == PrefixKind::VerbatimDisk)
                || !shape.physical_root {
                return None;
            }
            let letter: u16 = prefix.drive;
            let mut device: Vec<u16> = Vec::new();
            device.push(BACKSLASH);
            device.push(BACKSLASH);
            device.push(FULL_STOP);
            device.push(BACKSLASH);
            device.push(letter);
            device.push(COLON);
            let mut root: Vec<u16> = Vec::new();
            root.push(letter);
            root.push(COLON);
            root.push(BACKSLASH);
            assert(device@ =~= seq![BACKSLASH, BACKSLASH, FULL_STOP, BACKSLASH, letter, COLON]);
            assert(root@ =~= seq![letter, COLON, BACKSLASH]);
            Some((device, root))
        },
        None => None,
    }
}

/// Whether a unit is an ASCII letter, in either case. `lower` is the lower-case letter.
pub open spec fn is_letter(unit: u16, lower: u16) -> bool {
    unit == lower || unit == lower - 0x20
}

/// Whether a NUL-terminated name spells `ntfs`, in any case.
pub open spec fn spells_ntfs(buffer: Seq<u16>) -> bool {
    &&& nul_position(buffer, 0) == Some(4int)
    &&& is_letter(buffer[0], 0x6e)
    &&& is_letter(buffer[1], 0x74)
    &&& is_letter(buffer[2], 0x66)
    &&& is_letter(buffer[3], 0x73)
}

/// Whether the system named the filesystem, and named it NTFS.
pub fn is_ntfs(succeeded: bool, filesystem: &[u16]) -> (r: bool)
    ensures
        r == (succeeded && spells_ntfs(filesystem@)),
{
    match find_nul(filesystem) {
        Some(length) => succeeded && length == 4 && (filesystem[0] == 0x6e || filesystem[0]
            == 0x4e) && (filesystem[1] == 0x74 || filesystem[1] == 0x54) && (filesystem[2] == 0x66
            || filesystem[2] == 0x46) && (filesystem[3] == 0x73 || filesystem[3] == 0x53),
        None => false,
    }
}

/// Result of probing the current USN journal through an open volume.
#[derive(Debug, Clone, Copy, PartialEq, Eq, Structural)]
pub enum NativeUsnProbe {
    Available(UsnJournalBounds),
    Unavailable(u32),
}

/// Interprets the answer to a journal query. A short answer is no answer.
pub fn journal_answer(
    succeeded: bool,
    returned: u32,
    error: u32,
    bounds: UsnJournalBounds,
) -> (r: NativeUsnProbe)
    ensures
        r == (if !succeeded || returned < JOURNAL_DATA_BYTES {
            NativeUsnProbe::Unavailable(error)
        } else {
            NativeUsnProbe::Available(bounds)
        }),
{
    if !succeeded || returned < JOURNAL_DATA_BYTES {
        return NativeUsnProbe::Unavailable(error);
    }
    NativeUsnProbe::Available(bounds)
}

/// Where a probe stands and what it asks for next.
#[derive(Debug, Clone, Copy, PartialEq, Eq, Structural)]
pub enum ProbeStage {
    /// Open the volume.
    OpenVolume,
    /// Query the change journal of the open volume.
    QueryJournal,
    /// Read the layout pages of the open volume.
    ReadLayout { journal: UsnJournalBounds },
    /// Nothing more to do.
    Finished(NtfsAccelerationProbe),
}

pub open spec fn fallback(reason: NtfsAccelerationFallback) -> ProbeStage {
    ProbeStage::Finished(NtfsAccelerationProbe::Fallback(reason))
}

/// The first stage of a probe, by the two looks at cancellation and the
/// privilege level observed between them.
pub open spec fn first_stage(
    cancelled: bool,
    level: PrivilegeLevel,
    cancelled_since: bool,
) -> ProbeStage {
    if cancelled {
        fallback(NtfsAccelerationFallback::Cancelled)
    } else if !level.grants() {
        fallback(NtfsAccelerationFallback::NotElevated)
    } else if cancelled_since {
        fallback(NtfsAccelerationFallback::Cancelled)
    } else {
        ProbeStage::OpenVolume
    }
}

impl ProbeStage {
    /// Starts a probe. Privilege is checked before the volume is touched, and
    /// only a definite `Elevated` proceeds.
    pub fn begin(cancelled: bool, level: PrivilegeLevel, cancelled_since: bool) -> (r: ProbeStage)
        ensures
            r == first_stage(cancelled, level, cancelled_since),
    {
        let reason = if cancelled {
            NtfsAccelerationFallback::Cancelled
        } else if !level.grants_elevated_capability() {
            NtfsAccelerationFallback::NotElevated
        } else if cancelled_since {
            NtfsAccelerationFallback::Cancelled
        } else {
            return ProbeStage::OpenVolume;
        };
        ProbeStage::Finished(NtfsAccelerationProbe::Fallback(reason))
    }

    /// Goes on after opening the volume: whether the path has a volume, whether
    /// that is NTFS, and whether its device could be opened.
    pub fn after_open(has_volume: bool, ntfs: bool, opened: bool) -> (r: ProbeStage)
        ensures
            r == (if !has_volume {
                fallback(NtfsAccelerationFallback::UnsupportedRoot)
            } else if !ntfs {
                fallback(NtfsAccelerationFallback::UnsupportedFilesystem)
            } else if !opened {
                fallback(NtfsAccelerationFallback::AccessDeniedOrUnavailable)
            } else {
                ProbeStage::QueryJournal
            }),
    {
        let reason = if !has_volume {
            NtfsAccelerationFallback::UnsupportedRoot
        } else if !ntfs {
            NtfsAccelerationFallback::UnsupportedFilesystem
        } else if !opened {
            NtfsAccelerationFallback::AccessDeniedOrUnavailable
        } else {
            return ProbeStage::QueryJournal;
        };
        ProbeStage::Finished(NtfsAccelerationProbe::Fallback(reason))
    }

    /// Goes on after the journal query.
    pub fn after_journal(answer: NativeUsnProbe) -> (r: ProbeStage)
        ensures
            r == (match answer {
                NativeUsnProbe::Available(journal) => ProbeStage::ReadLayout { journal },
                NativeUsnProbe::Unavailable(code) => if code == ACCESS_DENIED_CODE {
                    fallback(NtfsAccelerationFallback::AccessDeniedOrUnavailable)
                } else {
                    fallback(NtfsAccelerationFallback::InvalidNativeData)
                },
            }),
    {
        match answer {
            NativeUsnProbe::Available(journal) => ProbeStage::ReadLayout { journal },
            NativeUsnProbe::Unavailable(code) => if code == ACCESS_DENIED_CODE {
                ProbeStage::Finished(
                    NtfsAccelerationProbe::Fallback(
                        NtfsAccelerationFallback::AccessDeniedOrUnavailable,
                    ),
                )
            } else {
                ProbeStage::Finished(
                    NtfsAccelerationProbe::Fallback(NtfsAccelerationFallback::InvalidNativeData),
                )
            },
        }
    }

    /// Finishes after the layout pages were counted.
    pub fn after_layout(journal: UsnJournalBounds, layout: Result<u64, u32>) -> (r:
        NtfsAccelerationProbe)
        ensures
            r == (match layout {
                Ok(layout_records) => NtfsAccelerationProbe::Available { layout_records, journal },
                Err(code) => NtfsAccelerationProbe::Fallback(
                    if code == ABORTED_CODE {
                        NtfsAccelerationFallback::Cancelled
                    } else if code == LIMIT_CODE {
                        NtfsAccelerationFallback::ResourceLimit
                    } else if code == ACCESS_DENIED_CODE {
                        NtfsAccelerationFallback::AccessDeniedOrUnavailable
                    } else {
                        NtfsAccelerationFallback::InvalidNativeData
                    },
                ),
            }),
    {
        match layout {
            Ok(layout_records) => NtfsAccelerationProbe::Available { layout_records, journal },
            Err(code) => {
                let reason = if code == ABORTED_CODE {
                    NtfsAccelerationFallback::Cancelled
                } else if code == LIMIT_CODE {
                    NtfsAccelerationFallback::ResourceLimit
                } else if code == ACCESS_DENIED_CODE {
                    NtfsAccelerationFallback::AccessDeniedOrUnavailable
                } else {
                    NtfsAccelerationFallback::InvalidNativeData
                };
                NtfsAccelerationProbe::Fallback(reason)
            },
        }
    }
}

// ---------------------------------------------------------------------------
// Measurements
// ---------------------------------------------------------------------------

/// What each request to a volume came to, with no native code collapsed.
///
/// A probe reports one reason to fall back; whether the path is worth taking at all shows only
/// in the codes themselves.
#[derive(Debug, Clone, Copy, PartialEq, Eq)]
pub struct NativeFsctlOutcome {
    /// Set when the volume itself could not be opened.
    pub open_error: Option<u32>,
    /// The journal bounds, or the code of the failed query.
    pub usn: Option<Result<UsnJournalBounds, u32>>,
    /// The record count, or the code of the failed read.
    pub layout: Option<Result<u64, u32>>,
    /// The record count of the first page, or the check that it failed.
    pub layout_parse: Option<Result<usize, &'static str>>,
    /// Bytes returned for the first page, and its leading header words.
    pub layout_page: Option<(u32, u32, u32)>,
}

/// What was read of a volume.
pub enum VolumeMeasurement<'a> {
    /// The volume could not be opened.
    Unopened(u32),
    /// The two queries ran, and the first page was read once more on its own.
    Queried {
        usn: NativeUsnProbe,
        layout: Result<u64, u32>,
        /// `None` where the request for the page failed.
        first_page: Option<(u32, &'a [u8])>,
    },
}

/// A header word of a page, or all ones where the page is too short for it.
pub open spec fn header_word(page: Seq<u8>, offset: int) -> nat {
    if in_bounds(page, offset, 4) {
        le_value(page, offset, 4)
    } else {
        u32::MAX as nat
    }
}

/// Whether `outcome` reports a measurement as it is. The queries are independent: one that
/// fails does not hide the other.
pub open spec fn reports(outcome: NativeFsctlOutcome, measured: VolumeMeasurement) -> bool {
    match measured {
        VolumeMeasurement::Unopened(code) => {
            &&& outcome.open_error == Some(code)
            &&& outcome.usn is None
            &&& outcome.layout is None
            &&& outcome.layout_parse is None
            &&& outcome.layout_page is None
        },
        VolumeMeasurement::Queried { usn, layout, first_page } => {
            &&& outcome.open_error is None
            &&& outcome.usn == Some(
                match usn {
                    NativeUsnProbe::Available(bounds) => Ok::<UsnJournalBounds, u32>(bounds),
                    NativeUsnProbe::Unavailable(code) => Err(code),
                },
            )
            &&& outcome.layout == Some(layout)
            &&& match first_page {
                None => {
                    &&& outcome.layout_page is None
                    &&& outcome.layout_parse matches Some(Err(check)) && check@
                        == "native_call_failed"@
                },
                Some((returned, page)) => {
                    &&& outcome.layout_page matches Some((bytes, first, second)) && bytes
                        == returned && first == header_word(page@, 0) && second == header_word(
                        page@,
                        4,
                    )
                    &&& match layout_page(page@) {
                        Ok(records) => outcome.layout_parse matches Some(Ok(count)) && count
                            == records.len(),
                        Err(check) => outcome.layout_parse matches Some(Err(code)) && code@
                            == check,
                    }
                },
            }
        },
    }
}

/// Reports what was read of a volume without collapsing any of it.
pub fn measure_fsctl_outcomes(measured: VolumeMeasurement) -> (r: NativeFsctlOutcome)
    ensures
        reports(r, measured),
{
    match measured {
        VolumeMeasurement::Unopened(code) => NativeFsctlOutcome {
            open_error: Some(code),
            usn: None,
            layout: None,
            layout_parse: None,
            layout_page: None,
        },
        VolumeMeasurement::Queried { usn, layout, first_page } => {
            let journal = match usn {
                NativeUsnProbe::Available(bounds) => Ok(bounds),
                NativeUsnProbe::Unavailable(code) => Err(code),
            };
            let (parsed, header): (
                Result<usize, &'static str>,
                Option<(u32, u32, u32)>,
            ) = match first_page {
                None => (Err("native_call_failed"), None),
                Some((returned, page)) => {
                    let first: u32 = match read_u32(page, 0) {
                        Some(word) => word,
                        None => u32::MAX,
                    };
                    let second: u32 = match read_u32(page, 4) {
                        Some(word) => word,
                        None => u32::MAX,
                    };
                    let parsed: Result<usize, &'static str> = match parse_file_layout_page(page) {
                        Ok(records) => {
                            assert(views(records@).len() == records@.len());
                            Ok(records.len())
                        },
                        Err(check) => Err(check),
                    };
                    (parsed, Some((returned, first, second)))
                },
            };
            NativeFsctlOutcome {
                open_error: None,
                usn: Some(journal),
                layout: Some(layout),
                layout_parse: Some(parsed),
                layout_page: header,
            }
        },
    }
}

/// The answer of a host without Windows volumes.
pub open spec fn portable_answer(cancelled: bool) -> NtfsAccelerationProbe {
    NtfsAccelerationProbe::Fallback(
        if cancelled {
            NtfsAccelerationFallback::Cancelled
        } else {
            NtfsAccelerationFallback::UnsupportedPlatform
        },
    )
}

/// What a host without Windows volumes answers, given whether the scan was cancelled.
pub fn portable_probe(cancelled: bool) -> (r: NtfsAccelerationProbe)
    ensures
        r == portable_answer(cancelled),
{
    if cancelled {
        NtfsAccelerationProbe::Fallback(NtfsAccelerationFallback::Cancelled)
    } else {
        NtfsAccelerationProbe::Fallback(NtfsAccelerationFallback::UnsupportedPlatform)
    }
}

/// Reports the portable fallback on hosts without Windows volumes, by one read of the token.
pub fn probe_ntfs_acceleration(_root: &NativePath, cancel: &CancellationToken) -> (r:
    NtfsAccelerationProbe)
    ensures
        exists|cancelled: bool| #[trigger]
            cancel.reads(cancelled) && r == portable_answer(cancelled),
{
    portable_probe(cancel.is_cancelled())
}

/// The volume is touched only by a definitely elevated process, and an
/// unelevated or unknown one falls back with the reason that explains it.
pub proof fn only_elevated_processes_touch_the_volume(
    cancelled: bool,
    level: PrivilegeLevel,
    cancelled_since: bool,
)
    ensures
        first_stage(cancelled, level, cancelled_since) is OpenVolume ==> level is Elevated,
        !cancelled && !(level is Elevated) ==> first_stage(cancelled, level, cancelled_since)
            == fallback(NtfsAccelerationFallback::NotElevated),
{
}

/// The volume of a path from the root of a drive is that drive, in upper case, both as a device
/// and as a root; `\\?\` in front changes nothing, and a path that is not rooted has none.
pub proof fn volumes_are_those_of_the_drive(letter: u16, rest: Seq<u16>)
    requires
        0x41 <= letter <= 0x5a || 0x61 <= letter <= 0x7a,
    ensures
        ({
            let drive: u16 = if letter >= 0x61 {
                (letter - 0x20) as u16
            } else {
                letter
            };
            let volume = Some(
                (
                    seq![0x5cu16, 0x5cu16, 0x2eu16, 0x5cu16, drive, 0x3au16],
                    seq![drive, 0x3au16, 0x5cu16],
                ),
            );
            &&& volume_of(seq![letter, 0x3au16, 0x5cu16] + rest) == volume
            &&& volume_of(
                seq![0x5cu16, 0x5cu16, 0x3fu16, 0x5cu16, letter, 0x3au16, 0x5cu16] + rest,
            ) == volume
            &&& rest.len() == 0 || (rest[0] != 0x5c && rest[0] != 0x2f) ==> volume_of(
                seq![letter, 0x3au16] + rest,
            ) is None
        }),
{
    let plain = seq![letter, 0x3au16, 0x5cu16] + rest;
    assert(plain[0] == letter && plain[1] == 0x3a && plain[2] == 0x5c);
    let verbatim = seq![0x5cu16, 0x5cu16, 0x3fu16, 0x5cu16, letter, 0x3au16, 0x5cu16] + rest;
    assert(verbatim[0] == 0x5c && verbatim[1] == 0x5c && verbatim[2] == 0x3f && verbatim[3] == 0x5c
        && verbatim[4] == letter && verbatim[5] == 0x3a && verbatim[6] == 0x5c);
    let relative = seq![letter, 0x3au16] + rest;
    assert(relative[0] == letter && relative[1] == 0x3a);
    if rest.len() > 0 {
        assert(relative[2] == rest[0]);
    }
}

/// A filesystem is NTFS just when its name is the four letters in either case and ends there.
pub proof fn ntfs_is_spelled_in_any_case(buffer: Seq<u16>)
    requires
        buffer.len() >= 5,
        forall|i: int| 0 <= i < 4 ==> #[trigger] buffer[i] != 0,
        buffer[4] == 0,
    ensures
        spells_ntfs(buffer) <==> (buffer[0] == 0x4e || buffer[0] == 0x6e) && (buffer[1] == 0x54
            || buffer[1] == 0x74) && (buffer[2] == 0x46 || buffer[2] == 0x66) && (buffer[3] == 0x53
            || buffer[3] == 0x73),
{
    reveal_with_fuel(nul_position, 6);
}

/// A probe goes on to the volume just when nobody cancelled and the process is elevated for sure;
/// cancellation is told before privilege, and again after it.
pub proof fn probes_start_by_privilege(
    cancelled: bool,
    level: PrivilegeLevel,
    cancelled_since: bool,
)
    ensures
        first_stage(cancelled, level, cancelled_since) is OpenVolume <==> !cancelled && level
            is Elevated && !cancelled_since,
        first_stage(cancelled, level, cancelled_since) == ProbeStage::Finished(
            NtfsAccelerationProbe::Fallback(NtfsAccelerationFallback::Cancelled),
        ) <==> cancelled || (level is Elevated && cancelled_since),
        first_stage(cancelled, level, cancelled_since) == ProbeStage::Finished(
            NtfsAccelerationProbe::Fallback(NtfsAccelerationFallback::NotElevated),
        ) <==> !cancelled && !(level is Elevated),
{
}

/// A host without Windows volumes says so, unless the scan was cancelled.
pub proof fn other_hosts_say_so()
    ensures
        portable_answer(true) == NtfsAccelerationProbe::Fallback(
            NtfsAccelerationFallback::Cancelled,
        ),
        portable_answer(false) == NtfsAccelerationProbe::Fallback(
            NtfsAccelerationFallback::UnsupportedPlatform,
        ),
{
}

/// A measurement is reported query by query: what one came to has no say in what is reported of
/// the other, and a volume that could not be opened has neither.
pub proof fn measurements_are_reported_query_by_query(
    outcome: NativeFsctlOutcome,
    measured: VolumeMeasurement,
)
    requires
        reports(outcome, measured),
    ensures
        measured matches VolumeMeasurement::Unopened(code) ==> outcome.open_error == Some(code)
            && outcome.usn is None && outcome.layout is None && outcome.layout_parse is None
            && outcome.layout_page is None,
        measured matches VolumeMeasurement::Queried { usn, layout, first_page } ==> {
            &&& outcome.open_error is None
            &&& outcome.layout == Some(layout)
            &&& usn matches NativeUsnProbe::Available(bounds) ==> outcome.usn == Some(
                Ok::<UsnJournalBounds, u32>(bounds),
            )
            &&& usn matches NativeUsnProbe::Unavailable(code) ==> outcome.usn == Some(
                Err::<UsnJournalBounds, u32>(code),
            )
            &&& first_page is None ==> outcome.layout_page is None && (
            outcome.layout_parse matches Some(parsed) && parsed is Err)
            &&& first_page matches Some((returned, page)) ==> {
                &&& outcome.layout_page matches Some((bytes, first, second)) && bytes == returned
                    && (page@.len() >= 4 ==> first == page@[0] + 256 * page@[1] + 65536 * page@[2]
                    + 16777216 * page@[3]) && (page@.len() >= 8 ==> second == page@[4] + 256
                    * page@[5] + 65536 * page@[6] + 16777216 * page@[7])
                &&& outcome.layout_parse matches Some(parsed) && (parsed is Ok <==> layout_page(
                    page@,
                ) is Ok) && (parsed matches Ok(count) ==> count == layout_page(page@)->Ok_0.len())
            }
        },
{
    if let VolumeMeasurement::Queried { usn, layout, first_page } = measured {
        if let Some((returned, page)) = first_page {
            bytes_count_by_their_place(page@, 0);
            bytes_count_by_their_place(page@, 4);
        }
    }
}

} // verus!
