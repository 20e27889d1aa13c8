use std::collections::HashMap;
use sweepx_platform::accelerated_source::{
    is_under_root, root_file_reference, root_open_name, select_subtree, AcceleratedSubtree, SourceRefusal,
    MAX_SOURCE_RECORDS, NAME_FLAG_DOS, NAME_FLAG_NTFS,
};
use sweepx_platform::ntfs_acceleration::{
    FileLayoutDataStream, FileLayoutName, FileLayoutRecord, MAX_FILE_LAYOUT_RECORDS,
};
use sweepx_platform::path_reconstruction::{
    ReconstructionRefusal, RecordIndex, ATTRIBUTE_DIRECTORY,
};
use sweepx_platform::windows_path::WindowsPath;

fn path(text: &str) -> WindowsPath {
    WindowsPath::new(utf16(text))
}

fn text(path: &WindowsPath) -> String {
    String::from_utf16_lossy(&path.units)
}

fn utf16(text: &str) -> Vec<u16> {
    text.encode_utf16().collect()
}

fn record(
    reference: u64,
    name: &str,
    parent: u64,
    is_directory: bool,
    bytes: Option<u64>,
) -> FileLayoutRecord {
    FileLayoutRecord {
        offset: 0,
        length: 0,
        file_reference_number: reference,
        file_attributes: if is_directory { ATTRIBUTE_DIRECTORY } else { 0 },
        first_name_offset: 0,
        first_stream_offset: 0,
        names: vec![FileLayoutName {
            parent_file_reference_number: parent,
            flags: 0,
            name: utf16(name),
        }],
        default_data_stream: bytes.map(|value| FileLayoutDataStream {
            logical_bytes: value,
            allocated_bytes: value,
        }),
    }
}

fn root_record(reference: u64) -> FileLayoutRecord {
    FileLayoutRecord {
        offset: 0,
        length: 0,
        file_reference_number: reference,
        file_attributes: ATTRIBUTE_DIRECTORY,
        first_name_offset: 0,
        first_stream_offset: 0,
        names: Vec::new(),
        default_data_stream: None,
    }
}

fn paths(subtree: &AcceleratedSubtree) -> Vec<String> {
    subtree
        .entries
        .iter()
        .map(|entry| text(&entry.path))
        .collect()
}

#[test]
fn only_records_under_the_root_are_selected() {
    let records = vec![
        root_record(5),
        record(10, "target", 5, true, None),
        record(11, "debug", 10, true, None),
        record(12, "app.exe", 11, false, Some(4096)),
        record(20, "elsewhere", 5, true, None),
        record(21, "other.bin", 20, false, Some(999)),
    ];
    let subtree = select_subtree(&records, 10, &path(r"E:\proj\target"));
    assert_eq!(
        paths(&subtree),
        vec![r"E:\proj\target\debug", r"E:\proj\target\debug\app.exe"]
    );
    assert!(subtree.is_complete());
}

#[test]
fn a_same_named_directory_outside_the_root_is_excluded() {
    let records = vec![
        root_record(5),
        record(10, "target", 5, true, None),
        record(12, "wanted.bin", 10, false, Some(1)),
        record(30, "decoy", 5, true, None),
        record(31, "target", 30, true, None),
        record(32, "unwanted.bin", 31, false, Some(1)),
    ];
    let subtree = select_subtree(&records, 10, &path(r"E:\target"));
    assert_eq!(paths(&subtree), vec![r"E:\target\wanted.bin"]);
}

#[test]
fn an_unreconstructable_record_is_reported_as_skipped() {
    let records = vec![
        root_record(5),
        record(10, "root", 5, true, None),
        record(11, "ok.bin", 10, false, Some(1)),
        record(12, "orphan.bin", 77, false, Some(1)),
    ];
    let subtree = select_subtree(&records, 10, &path(r"E:\root"));
    assert_eq!(paths(&subtree), vec![r"E:\root\ok.bin"]);
    assert!(subtree.is_complete());
}

#[test]
fn entry_sizes_are_carried_from_the_record() {
    let records = vec![
        root_record(5),
        record(10, "dir", 5, true, None),
        record(11, "big.bin", 10, false, Some(1_048_576)),
    ];
    let subtree = select_subtree(&records, 10, &path(r"E:\dir"));
    let entry = subtree
        .entries
        .iter()
        .find(|entry| text(&entry.path).ends_with(r"\big.bin"))
        .expect("file present");
    assert_eq!(entry.logical_bytes, Some(1_048_576));
    assert!(!entry.is_directory);
}

#[test]
fn a_cycle_outside_the_root_terminates() {
    let records = vec![
        root_record(5),
        record(10, "root", 5, true, None),
        record(11, "under.bin", 10, false, Some(1)),
        record(50, "a", 51, true, None),
        record(51, "b", 50, true, None),
    ];
    let subtree = select_subtree(&records, 10, &path(r"E:\root"));
    assert_eq!(paths(&subtree), vec![r"E:\root\under.bin"]);
}

#[test]
fn the_root_is_not_emitted_as_an_entry() {
    let records = vec![root_record(5), record(10, "root", 5, true, None)];
    let subtree = select_subtree(&records, 10, &path(r"E:\root"));
    assert!(subtree.entries.is_empty());
}

#[test]
fn a_record_under_the_root_with_a_broken_chain_is_reported_as_skipped() {
    let records = vec![
        root_record(5),
        record(10, "root", 5, true, None),
        record(11, "mid", 10, true, None),
        record(12, "ok.bin", 11, false, Some(1)),
        FileLayoutRecord {
            offset: 0,
            length: 0,
            file_reference_number: 13,
            file_attributes: 0,
            first_name_offset: 0,
            first_stream_offset: 0,
            names: Vec::new(),
            default_data_stream: Some(FileLayoutDataStream {
                logical_bytes: 4096,
                allocated_bytes: 4096,
            }),
        },
    ];
    let subtree = select_subtree(&records, 10, &path(r"E:\root"));
    assert_eq!(paths(&subtree), vec![r"E:\root\mid", r"E:\root\mid\ok.bin"]);
    assert!(
        !subtree
            .entries
            .iter()
            .any(|entry| entry.file_reference_number == 13),
        "a nameless record must never be given a path"
    );
}

#[test]
fn skipped_records_make_the_subtree_incomplete() {
    let mut subtree = AcceleratedSubtree::default();
    assert!(subtree.is_complete());
    subtree
        .skipped
        .push((42, ReconstructionRefusal::MissingAncestor { missing: 7 }));
    assert!(
        !subtree.is_complete(),
        "a skipped record means bytes are missing, so totals cannot be called exact"
    );
}

#[test]
fn every_hard_link_of_a_record_is_emitted() {
    let mut linked = record(20, "shared.rlib", 11, false, Some(4096));
    linked.names.push(FileLayoutName {
        parent_file_reference_number: 12,
        flags: 0,
        name: utf16("shared.rlib"),
    });
    let records = vec![
        root_record(5),
        record(10, "root", 5, true, None),
        record(11, "a", 10, true, None),
        record(12, "b", 10, true, None),
        linked,
    ];
    let subtree = select_subtree(&records, 10, &path(r"E:\root"));
    assert_eq!(
        paths(&subtree),
        vec![
            r"E:\root\a",
            r"E:\root\a\shared.rlib",
            r"E:\root\b",
            r"E:\root\b\shared.rlib",
        ],
        "both links must be present; a walk sees the file under each parent"
    );
}

#[test]
fn a_short_name_alias_does_not_duplicate_an_entry() {
    let mut aliased = record(20, "PROGRA~1", 10, true, None);
    aliased.names[0].flags = NAME_FLAG_DOS;
    aliased.names.push(FileLayoutName {
        parent_file_reference_number: 10,
        flags: NAME_FLAG_NTFS,
        name: utf16("Program Files"),
    });
    let records = vec![root_record(5), record(10, "root", 5, true, None), aliased];
    let subtree = select_subtree(&records, 10, &path(r"E:\root"));
    assert_eq!(
        paths(&subtree),
        vec![r"E:\root\Program Files"],
        "the long name wins and the alias must not become a second entry"
    );
}

#[test]
fn only_the_links_under_the_root_are_emitted() {
    let mut linked = record(20, "shared.bin", 11, false, Some(8));
    linked.names.push(FileLayoutName {
        parent_file_reference_number: 30,
        flags: 0,
        name: utf16("shared.bin"),
    });
    let records = vec![
        root_record(5),
        record(10, "root", 5, true, None),
        record(11, "inside", 10, true, None),
        record(30, "outside", 5, true, None),
        linked,
    ];
    let subtree = select_subtree(&records, 10, &path(r"E:\root"));
    assert_eq!(
        paths(&subtree),
        vec![r"E:\root\inside", r"E:\root\inside\shared.bin"]
    );
}

#[test]
fn two_hard_links_in_one_directory_are_both_emitted() {
    let mut linked = record(20, "build_script_build-abc123.exe", 11, false, Some(4096));
    linked.names[0].flags = NAME_FLAG_NTFS;
    linked.names.push(FileLayoutName {
        parent_file_reference_number: 11,
        flags: NAME_FLAG_NTFS,
        name: utf16("build-script-build.exe"),
    });
    let records = vec![
        root_record(5),
        record(10, "root", 5, true, None),
        record(11, "build", 10, true, None),
        linked,
    ];
    let subtree = select_subtree(&records, 10, &path(r"E:\root"));
    assert_eq!(
        paths(&subtree),
        vec![
            r"E:\root\build",
            r"E:\root\build\build-script-build.exe",
            r"E:\root\build\build_script_build-abc123.exe",
        ],
        "both links exist in the directory and a walk reports both"
    );
}

#[test]
fn a_record_with_only_an_alias_is_not_dropped() {
    let mut aliased = record(20, "PROGRA~1", 10, false, Some(64));
    aliased.names[0].flags = NAME_FLAG_DOS;
    let records = vec![root_record(5), record(10, "root", 5, true, None), aliased];
    let subtree = select_subtree(&records, 10, &path(r"E:\root"));
    assert_eq!(paths(&subtree), vec![r"E:\root\PROGRA~1"]);
}

#[test]
fn accelerated_source_refusal_codes_are_distinct() {
    let codes = [
        SourceRefusal::RootIdentityUnavailable { code: 5 }.code(),
        SourceRefusal::VolumeUnavailable { code: 5 }.code(),
        SourceRefusal::TooManyRecords.code(),
        SourceRefusal::Cancelled.code(),
    ];
    let unique: std::collections::BTreeSet<_> = codes.iter().collect();
    assert_eq!(unique.len(), codes.len());
}

#[test]
fn the_record_bound_matches_the_layout_reader() {
    assert_eq!(
        MAX_SOURCE_RECORDS,
        MAX_FILE_LAYOUT_RECORDS,
        "the source must refuse at exactly the point the reader refuses"
    );
}

#[test]
fn cancellation_has_a_distinct_stable_code() {
    assert_eq!(
        SourceRefusal::Cancelled.code(),
        "accelerated_source_cancelled"
    );
}

#[test]
fn what_lies_in_a_plain_file_is_refused() {
    let records = vec![
        root_record(5),
        record(10, "root", 5, true, None),
        record(11, "notes.txt", 10, false, Some(1)),
        record(12, "child.bin", 11, false, Some(1)),
    ];
    let subtree = select_subtree(&records, 10, &path(r"E:\root"));
    assert_eq!(paths(&subtree), vec![r"E:\root\notes.txt"]);
    assert_eq!(
        subtree.skipped,
        vec![(
            12,
            ReconstructionRefusal::AncestorNotADirectory { reference: 11 }
        )]
    );
    assert!(!subtree.is_complete());
}

#[test]
fn a_broken_parent_under_the_root_is_reported_with_its_refusal() {
    let records = vec![
        record(10, "root", 5, true, None),
        record(11, "not-a-directory", 10, false, Some(1)),
        record(12, "below", 11, true, None),
        record(13, "child.bin", 12, false, Some(1)),
    ];
    let subtree = select_subtree(&records, 10, &path(r"E:\root"));
    assert_eq!(paths(&subtree), vec![r"E:\root\not-a-directory"]);
    let refusal = ReconstructionRefusal::AncestorNotADirectory { reference: 11 };
    assert_eq!(subtree.skipped, vec![(12, refusal), (13, refusal)]);
    assert!(!subtree.skipped[0].1.is_expected_during_incremental_reads());
    assert!(!subtree.is_complete());
}

#[test]
fn entries_are_ordered_by_components() {
    let records = vec![
        record(11, "b", 10, true, None),
        record(12, "a b", 10, false, None),
        record(13, "a", 10, true, None),
        record(14, "c", 13, false, None),
        record(15, "\u{10000}", 10, false, None),
        record(16, "\u{ffff}", 10, false, None),
    ];
    let subtree = select_subtree(&records, 10, &path(r"E:\"));
    assert_eq!(
        paths(&subtree),
        vec![
            r"E:\a",
            r"E:\a\c",
            r"E:\a b",
            r"E:\b",
            "E:\\\u{ffff}",
            "E:\\\u{10000}",
        ]
    );
}

#[test]
fn equal_paths_keep_their_order() {
    let records = vec![
        record(21, "same", 10, false, Some(1)),
        record(20, "other", 10, false, Some(2)),
        record(19, "same", 10, false, Some(3)),
    ];
    let subtree = select_subtree(&records, 10, &path(r"E:\"));
    assert_eq!(
        subtree
            .entries
            .iter()
            .map(|entry| entry.file_reference_number)
            .collect::<Vec<_>>(),
        vec![20, 21, 19]
    );
}

#[test]
fn names_are_shown_lossily_and_joined_as_paths() {
    let mut lone = record(11, "x", 10, false, None);
    lone.names[0].name = vec![0xD800, 0x61];
    let records = vec![lone, record(12, r"C:\evil", 10, false, None)];
    let subtree = select_subtree(&records, 10, &path(r"E:\root"));
    assert_eq!(
        paths(&subtree),
        vec!["C:\\evil".to_string(), "E:\\root\\\u{fffd}a".to_string()]
    );
}

#[test]
fn reparse_points_and_sizes_are_marked() {
    let mut link = record(11, "junction", 10, true, Some(5));
    link.file_attributes |= 0x400;
    let subtree = select_subtree(&[link], 10, &path(r"\\?\E:\root"));
    let entry = &subtree.entries[0];
    assert_eq!(text(&entry.path), r"\\?\E:\root\junction");
    assert!(entry.is_directory && entry.is_reparse_point);
    assert_eq!(entry.allocated_bytes, Some(5));
}

#[test]
fn deep_records_are_accounted_for_in_any_order() {
    let mut records: Vec<FileLayoutRecord> = (0..600u64)
        .rev()
        .map(|k| record(1000 + k, "d", if k == 0 { 10 } else { 999 + k }, true, None))
        .collect();
    for _ in 0..2 {
        let subtree = select_subtree(&records, 10, &path(r"E:\"));
        // A directory has at most 513 components below the root.
        assert_eq!(subtree.entries.len(), 514);
        assert_eq!(subtree.skipped.len(), 86);
        assert!(subtree
            .skipped
            .iter()
            .all(|(_, refusal)| *refusal == ReconstructionRefusal::ChainTooDeep));
        assert!(!subtree.is_complete());
        records.reverse();
    }
}

#[test]
fn membership_is_remembered_and_exact() {
    let records = vec![
        record(11, "a", 10, true, None),
        record(12, "b", 11, true, None),
        record(20, "x", 21, true, None),
        record(21, "y", 20, true, None),
        record(30, "own", 30, true, None),
        record(40, "orphan", 99, true, None),
    ];
    let index = RecordIndex::from_records(&records);
    let mut membership = HashMap::new();
    assert!(is_under_root(&index, 12, 10, &mut membership));
    assert_eq!(membership.get(&11), Some(&true));
    for outside in [20, 21, 30, 40, 99] {
        assert!(!is_under_root(&index, outside, 10, &mut membership));
        assert_eq!(membership.get(&outside), Some(&false));
    }
    assert!(is_under_root(&index, 10, 10, &mut membership));
    assert!(is_under_root(&index, 12, 10, &mut membership));
}

#[test]
fn the_scan_root_is_opened_and_identified_by_plain_values() {
    let mut id = [0u8; 16];
    id[0] = 0x34;
    id[1] = 0x12;
    id[7] = 0x80;
    id[8] = 0xff;
    assert_eq!(
        root_file_reference(&id),
        0x8000_0000_0000_1234
    );
    assert_eq!(
        root_open_name(&path("C:\\x")),
        Ok(utf16("C:\\x\0"))
    );
    assert_eq!(
        root_open_name(&path("C:\\\0x")),
        Err(123)
    );
}
