use sweepx_platform::change_tracking::{
    attribute_changes, compare_to_current, refine_verdict, volume_root_of, ChangeAttribution,
    ChangeVerdict, ExcludedWriter, VolumeChangeToken,
};
use sweepx_platform::ntfs_acceleration::{UsnCacheMissReason, UsnJournalBounds, UsnV2Record};
use sweepx_platform::windows_path::WindowsPath;

const CACHE_REF: u64 = 4242;

fn path(text: &str) -> WindowsPath {
    WindowsPath::new(text.encode_utf16().collect())
}

fn bounds(journal_id: u64, first: i64, next: i64) -> UsnJournalBounds {
    UsnJournalBounds {
        journal_id,
        first_usn: first,
        next_usn: next,
        lowest_valid_usn: first,
    }
}

fn record(reference: u64, parent: u64) -> UsnV2Record {
    UsnV2Record {
        file_reference_number: reference,
        parent_file_reference_number: parent,
        usn: 100,
        reason: 0x8000_0000,
        file_attributes: 0x80,
        name: "x".encode_utf16().collect(),
    }
}

fn cache_dir() -> ExcludedWriter {
    ExcludedWriter::just(CACHE_REF)
}

#[test]
fn an_unchanged_volume_permits_reuse() {
    let current = bounds(7, 100, 500);
    let token = VolumeChangeToken::capture(current);
    let verdict = compare_to_current(token, current);
    assert_eq!(verdict, ChangeVerdict::Unchanged);
    assert!(verdict.permits_reuse());
}

#[test]
fn an_advanced_journal_reports_the_range_to_examine() {
    let token = VolumeChangeToken::capture(bounds(7, 100, 500));
    let verdict = compare_to_current(token, bounds(7, 100, 900));
    assert_eq!(verdict, ChangeVerdict::Changed { from: 500, to: 900 });
    assert!(
        !verdict.permits_reuse(),
        "a changed volume must not be reused before its history is applied"
    );
}

#[test]
fn a_recreated_journal_is_never_reusable_even_at_the_same_usn() {
    let token = VolumeChangeToken::capture(bounds(7, 100, 500));
    let verdict = compare_to_current(token, bounds(8, 100, 500));
    assert_eq!(
        verdict,
        ChangeVerdict::MustRescan(UsnCacheMissReason::JournalChanged)
    );
    assert!(!verdict.permits_reuse());
}

#[test]
fn a_wrapped_journal_forces_a_rescan() {
    let token = VolumeChangeToken::capture(bounds(7, 100, 500));
    let verdict = compare_to_current(token, bounds(7, 600, 900));
    assert_eq!(
        verdict,
        ChangeVerdict::MustRescan(UsnCacheMissReason::JournalWrapped)
    );
}

#[test]
fn a_token_from_the_future_forces_a_rescan() {
    let token = VolumeChangeToken::capture(bounds(7, 100, 900));
    let verdict = compare_to_current(token, bounds(7, 100, 500));
    assert_eq!(
        verdict,
        ChangeVerdict::MustRescan(UsnCacheMissReason::CursorAhead)
    );
}

#[test]
fn incoherent_bounds_fail_closed() {
    let token = VolumeChangeToken::capture(bounds(7, 100, 500));
    let verdict = compare_to_current(
        token,
        UsnJournalBounds {
            journal_id: 7,
            first_usn: 900,
            next_usn: 100,
            lowest_valid_usn: 900,
        },
    );
    assert_eq!(
        verdict,
        ChangeVerdict::MustRescan(UsnCacheMissReason::InvalidBounds)
    );
}

#[test]
fn no_verdict_other_than_unchanged_permits_reuse() {
    let verdicts = [
        ChangeVerdict::Changed { from: 1, to: 2 },
        ChangeVerdict::MustRescan(UsnCacheMissReason::JournalChanged),
        ChangeVerdict::MustRescan(UsnCacheMissReason::JournalWrapped),
        ChangeVerdict::MustRescan(UsnCacheMissReason::CursorAhead),
        ChangeVerdict::MustRescan(UsnCacheMissReason::InvalidBounds),
    ];
    for verdict in verdicts {
        assert!(
            !verdict.permits_reuse(),
            "{} must not permit reuse",
            verdict.code()
        );
    }
    assert!(ChangeVerdict::Unchanged.permits_reuse());
}

#[test]
fn verdict_codes_are_unique_and_stable() {
    let codes = [
        ChangeVerdict::Unchanged.code(),
        ChangeVerdict::Changed { from: 1, to: 2 }.code(),
        ChangeVerdict::MustRescan(UsnCacheMissReason::JournalChanged).code(),
        ChangeVerdict::MustRescan(UsnCacheMissReason::JournalWrapped).code(),
        ChangeVerdict::MustRescan(UsnCacheMissReason::CursorAhead).code(),
        ChangeVerdict::MustRescan(UsnCacheMissReason::InvalidBounds).code(),
        ChangeAttribution::OnlyExcluded { attributed: 1 }.code(),
        ChangeAttribution::Foreign {
            examined: 1,
            first_foreign_reference: 2,
        }
        .code(),
        ChangeAttribution::Undetermined {
            reason: "journal_range_unreadable",
        }
        .code(),
    ];
    let unique: std::collections::BTreeSet<_> = codes.iter().copied().collect();
    assert_eq!(unique.len(), codes.len(), "verdict codes must be unique");
    assert!(
        codes
            .iter()
            .all(|code| code.chars().all(|c| c.is_ascii_lowercase() || c == '_')),
        "codes are a machine contract and must stay snake_case"
    );
}

#[test]
fn a_range_containing_only_cache_writes_permits_reuse() {
    let records = [
        record(11, CACHE_REF),
        record(12, CACHE_REF),
        record(CACHE_REF, 9),
    ];
    let attribution = attribute_changes(&records, &cache_dir());
    assert_eq!(
        attribution,
        ChangeAttribution::OnlyExcluded { attributed: 3 },
        "cache-only activity must not invalidate the cache that produced it"
    );
    assert!(attribution.permits_reuse());
}

#[test]
fn a_single_foreign_record_at_the_end_refuses_reuse() {
    let records = [
        record(11, CACHE_REF),
        record(12, CACHE_REF),
        record(77, 5000),
    ];
    let attribution = attribute_changes(&records, &cache_dir());
    assert_eq!(
        attribution,
        ChangeAttribution::Foreign {
            examined: 3,
            first_foreign_reference: 77,
        }
    );
    assert!(!attribution.permits_reuse());
}

#[test]
fn an_empty_range_is_attributable() {
    let attribution = attribute_changes(&[], &cache_dir());
    assert_eq!(
        attribution,
        ChangeAttribution::OnlyExcluded { attributed: 0 }
    );
    assert!(attribution.permits_reuse());
}

#[test]
fn a_write_nested_below_the_cache_directory_is_foreign() {
    let nested_dir = 5555;
    let records = [record(66, nested_dir)];
    let attribution = attribute_changes(&records, &cache_dir());
    assert!(
        !attribution.permits_reuse(),
        "only direct children of the cache directory may be dismissed, got {}",
        attribution.code()
    );
}

#[test]
fn attribution_ignores_names_entirely() {
    let mut impostor = record(88, 9999);
    impostor.name = "current.json".encode_utf16().collect();
    assert!(
        !attribute_changes(&[impostor], &cache_dir()).permits_reuse(),
        "a file named like a cache file elsewhere on the volume must not be dismissed"
    );

    let mut oddly_named = record(11, CACHE_REF);
    oddly_named.name = "something-else.bin".encode_utf16().collect();
    assert!(
        attribute_changes(&[oddly_named], &cache_dir()).permits_reuse(),
        "membership is decided by parent reference, so the name is irrelevant"
    );
}

#[test]
fn a_zero_reference_does_not_attribute_unrelated_records() {
    let excluded = ExcludedWriter::just(CACHE_REF);
    assert!(
        !attribute_changes(&[record(1, 0)], &excluded).permits_reuse(),
        "a zero parent must not match a real cache directory"
    );
}

#[test]
fn refining_a_cache_only_change_restores_reuse() {
    let verdict = ChangeVerdict::Changed { from: 500, to: 900 };
    let refined = refine_verdict(verdict, &cache_dir(), |from, to| {
        assert_eq!(
            (from, to),
            (500, 900),
            "the read must use the verdict range"
        );
        Ok::<_, ()>(vec![record(11, CACHE_REF)])
    });
    assert_eq!(refined.verdict, ChangeVerdict::Unchanged);
    assert!(refined.permits_reuse());
    assert_eq!(refined.code(), "only_excluded");
}

#[test]
fn refining_a_foreign_change_keeps_refusing_reuse() {
    let verdict = ChangeVerdict::Changed { from: 500, to: 900 };
    let refined = refine_verdict(verdict, &cache_dir(), |_, _| {
        Ok::<_, ()>(vec![record(77, 5000)])
    });
    assert_eq!(
        refined.verdict, verdict,
        "the range must be preserved so a caller can still report it"
    );
    assert!(!refined.permits_reuse());
    assert_eq!(refined.code(), "foreign_change");
}

#[test]
fn an_unreadable_range_refuses_reuse() {
    let verdict = ChangeVerdict::Changed { from: 500, to: 900 };
    let refined = refine_verdict(verdict, &cache_dir(), |_, _| {
        Err::<Vec<UsnV2Record>, _>(5u32)
    });
    assert!(
        !refined.permits_reuse(),
        "failing to read the history must fail closed"
    );
    assert_eq!(refined.code(), "journal_range_unreadable");
}

#[test]
fn verdicts_needing_no_history_do_not_read_the_journal() {
    for verdict in [
        ChangeVerdict::Unchanged,
        ChangeVerdict::MustRescan(UsnCacheMissReason::JournalWrapped),
        ChangeVerdict::MustRescan(UsnCacheMissReason::JournalChanged),
    ] {
        let refined = refine_verdict(verdict, &cache_dir(), |_, _| -> Result<_, ()> {
            panic!("must not read the journal for {}", verdict.code())
        });
        assert_eq!(refined.verdict, verdict);
        assert!(refined.attribution.is_none());
        assert_eq!(
            refined.permits_reuse(),
            verdict.permits_reuse(),
            "refinement must not change whether {} permits reuse",
            verdict.code()
        );
    }
}

#[test]
fn volume_roots_are_derived_only_from_drive_letters() {
    assert_eq!(
        volume_root_of(&path(r"C:\Users\x\AppData")),
        Some(path(r"C:\"))
    );
    assert_eq!(
        volume_root_of(&path(r"\\server\share\dir")),
        None,
        "a UNC path has no local volume journal"
    );
    assert_eq!(volume_root_of(&path("relative")), None);
}

#[test]
fn an_empty_exclusion_set_attributes_nothing() {
    let empty = ExcludedWriter::default();
    assert!(
        empty.directory_references.is_empty(),
        "the default must not preload a reference"
    );
    assert!(
        !attribute_changes(&[record(11, CACHE_REF)], &empty).permits_reuse(),
        "an unresolved exclusion set must never dismiss a record"
    );
    assert!(attribute_changes(&[], &empty).permits_reuse());
}

#[test]
fn a_two_directory_cache_write_is_attributed_as_a_whole() {
    let root_dir = 4242;
    let generations_dir = 4243;
    let records = [
        record(11, generations_dir),
        record(12, root_dir),
        record(generations_dir, root_dir),
    ];

    let both = ExcludedWriter {
        directory_references: vec![root_dir, generations_dir],
    };
    assert_eq!(
        attribute_changes(&records, &both),
        ChangeAttribution::OnlyExcluded { attributed: 3 },
        "a complete cache write must be fully attributable"
    );

    assert!(
        !attribute_changes(&records, &ExcludedWriter::just(root_dir)).permits_reuse(),
        "excluding only the parent leaves the payload write unexplained"
    );
}
