use sweepx_platform::ntfs_acceleration::{FileLayoutName, FileLayoutRecord};
use sweepx_platform::path_reconstruction::{
    ReconstructionRefusal, RecordIndex, ATTRIBUTE_DIRECTORY, MAX_ANCESTOR_DEPTH,
};

fn utf16(text: &str) -> Vec<u16> {
    text.encode_utf16().collect()
}

fn record(reference: u64, name: Option<(&str, u64)>, is_directory: bool) -> FileLayoutRecord {
    FileLayoutRecord {
        offset: 0,
        length: 0,
        file_reference_number: reference,
        file_attributes: if is_directory { ATTRIBUTE_DIRECTORY } else { 0 },
        first_name_offset: 0,
        first_stream_offset: 0,
        names: name
            .map(|(text, parent)| {
                vec![FileLayoutName {
                    parent_file_reference_number: parent,
                    flags: 0,
                    name: utf16(text),
                }]
            })
            .unwrap_or_default(),
        default_data_stream: None,
    }
}

fn root(reference: u64) -> FileLayoutRecord {
    record(reference, None, true)
}

fn joined(components: &[Vec<u16>]) -> String {
    components
        .iter()
        .map(|part| String::from_utf16_lossy(part))
        .collect::<Vec<_>>()
        .join("\\")
}

#[test]
fn a_nested_chain_rebuilds_root_first() {
    let index = RecordIndex::from_records(&[
        root(5),
        record(6, Some(("Projects", 5)), true),
        record(7, Some(("sweepx", 6)), true),
        record(8, Some(("Cargo.toml", 7)), false),
    ]);
    let components = index.reconstruct_components(8).expect("chain rebuilds");
    assert_eq!(joined(&components), "Projects\\sweepx\\Cargo.toml");
}

#[test]
fn a_child_of_the_root_has_a_single_component() {
    let index =
        RecordIndex::from_records(&[root(5), record(6, Some(("pagefile.sys", 5)), false)]);
    assert_eq!(
        joined(&index.reconstruct_components(6).unwrap()),
        "pagefile.sys"
    );
}

#[test]
fn a_cyclic_chain_is_refused() {
    let index = RecordIndex::from_records(&[
        record(10, Some(("a", 11)), true),
        record(11, Some(("b", 10)), true),
    ]);
    assert_eq!(
        index.reconstruct_components(10),
        Err(ReconstructionRefusal::CyclicChain { repeated: 10 })
    );
}

#[test]
fn a_missing_ancestor_is_refused_but_expected_during_incremental_reads() {
    let index = RecordIndex::from_records(&[record(20, Some(("orphan.txt", 99)), false)]);
    let refusal = index.reconstruct_components(20).unwrap_err();
    assert_eq!(
        refusal,
        ReconstructionRefusal::MissingAncestor { missing: 99 }
    );
    assert!(refusal.is_expected_during_incremental_reads());
}

#[test]
fn a_file_acting_as_an_ancestor_is_refused() {
    let index = RecordIndex::from_records(&[
        root(5),
        record(6, Some(("notes.txt", 5)), false),
        record(7, Some(("child.bin", 6)), false),
    ]);
    let refusal = index.reconstruct_components(7).unwrap_err();
    assert_eq!(
        refusal,
        ReconstructionRefusal::AncestorNotADirectory { reference: 6 }
    );
    assert!(
        !refusal.is_expected_during_incremental_reads(),
        "an inconsistent snapshot must not be treated as routine churn"
    );
}

#[test]
fn the_root_itself_has_no_usable_name() {
    let index = RecordIndex::from_records(&[root(5)]);
    assert_eq!(
        index.reconstruct_components(5),
        Err(ReconstructionRefusal::NoUsableName)
    );
}

#[test]
fn an_overlong_chain_is_refused() {
    let mut records = vec![root(0)];
    for reference in 1..(MAX_ANCESTOR_DEPTH as u64 + 10) {
        records.push(record(reference, Some(("d", reference - 1)), true));
    }
    let deepest = MAX_ANCESTOR_DEPTH as u64 + 9;
    assert_eq!(
        records.last().unwrap().file_reference_number,
        deepest,
        "the fixture must actually exceed the cap"
    );
    assert_eq!(
        RecordIndex::from_records(&records).reconstruct_components(deepest),
        Err(ReconstructionRefusal::ChainTooDeep)
    );
}

#[test]
fn an_unpaired_surrogate_name_is_preserved_losslessly() {
    let mut lone = vec![0xD800u16];
    lone.extend(utf16("tail"));
    let index = RecordIndex::from_records(&[
        root(5),
        FileLayoutRecord {
            offset: 0,
            length: 0,
            file_reference_number: 6,
            file_attributes: 0,
            first_name_offset: 0,
            first_stream_offset: 0,
            names: vec![FileLayoutName {
                parent_file_reference_number: 5,
                flags: 0,
                name: lone.clone(),
            }],
            default_data_stream: None,
        },
    ]);
    let components = index.reconstruct_components(6).expect("rebuilds");
    assert_eq!(
        components,
        vec![lone],
        "reconstruction must not replace unpaired surrogates with U+FFFD"
    );
}

#[test]
fn a_self_parenting_record_terminates() {
    let index = RecordIndex::from_records(&[record(5, Some(("weird", 5)), true)]);
    let refusal = index.reconstruct_components(5).unwrap_err();
    assert_eq!(
        refusal,
        ReconstructionRefusal::CyclicChain { repeated: 5 },
        "a self-referencing parent is a cycle, not a root"
    );
}

#[test]
fn the_long_name_is_preferred_over_an_eight_dot_three_short_name() {
    let dos_first = FileLayoutRecord {
        offset: 0,
        length: 0,
        file_reference_number: 6,
        file_attributes: ATTRIBUTE_DIRECTORY,
        first_name_offset: 0,
        first_stream_offset: 0,
        names: vec![
            FileLayoutName {
                parent_file_reference_number: 5,
                flags: 0x2,
                name: utf16("PROGRA~1"),
            },
            FileLayoutName {
                parent_file_reference_number: 5,
                flags: 0x1,
                name: utf16("Program Files"),
            },
        ],
        default_data_stream: None,
    };
    let index = RecordIndex::from_records(&[root(5), dos_first]);
    assert_eq!(
        joined(&index.reconstruct_components(6).unwrap()),
        "Program Files",
        "the displayed name must be the long NTFS name, not the 8.3 alias"
    );
}

#[test]
fn a_short_name_is_used_when_it_is_the_only_name() {
    let only_dos = FileLayoutRecord {
        offset: 0,
        length: 0,
        file_reference_number: 6,
        file_attributes: 0,
        first_name_offset: 0,
        first_stream_offset: 0,
        names: vec![FileLayoutName {
            parent_file_reference_number: 5,
            flags: 0x2,
            name: utf16("LEGACY~1.TXT"),
        }],
        default_data_stream: None,
    };
    let index = RecordIndex::from_records(&[root(5), only_dos]);
    assert_eq!(
        joined(&index.reconstruct_components(6).unwrap()),
        "LEGACY~1.TXT",
        "refusing a record that has only a short name would lose it entirely"
    );
}

#[test]
fn an_unflagged_name_is_used_normally() {
    let index = RecordIndex::from_records(&[
        root(5),
        record(6, Some(("target", 5)), true),
        record(7, Some(("debug", 6)), true),
    ]);
    assert_eq!(
        joined(&index.reconstruct_components(7).unwrap()),
        "target\\debug"
    );
}

#[test]
fn path_reconstruction_refusal_codes_are_distinct() {
    let codes = [
        ReconstructionRefusal::MissingAncestor { missing: 1 }.code(),
        ReconstructionRefusal::CyclicChain { repeated: 1 }.code(),
        ReconstructionRefusal::ChainTooDeep.code(),
        ReconstructionRefusal::AncestorNotADirectory { reference: 1 }.code(),
        ReconstructionRefusal::NoUsableName.code(),
    ];
    let unique: std::collections::BTreeSet<_> = codes.iter().collect();
    assert_eq!(unique.len(), codes.len());
}
#[test]
fn components_below_a_known_ancestor_need_nothing_above_it() {
    let index = RecordIndex::from_records(&[
        record(6, Some(("Projects", 5)), true),
        record(7, Some(("sweepx", 6)), true),
        record(8, Some(("Cargo.toml", 7)), false),
    ]);
    assert_eq!(
        joined(&index.reconstruct_components_until(8, 6).unwrap()),
        "sweepx\\Cargo.toml"
    );
    assert_eq!(
        index.reconstruct_components(8),
        Err(ReconstructionRefusal::MissingAncestor { missing: 5 })
    );
    assert_eq!(index.parent_of(8), Some(7));
    assert_eq!(index.parent_of(5), None);
    assert_eq!(index.len(), 3);
    assert!(!index.is_empty());
    assert!(RecordIndex::from_records(&[]).is_empty());
}

#[test]
fn the_later_of_two_records_with_one_reference_counts() {
    let index = RecordIndex::from_records(&[
        root(5),
        record(6, Some(("old", 5)), true),
        record(6, Some(("new", 5)), true),
    ]);
    assert_eq!(index.len(), 2);
    assert_eq!(joined(&index.reconstruct_components(6).unwrap()), "new");
}

#[test]
fn an_ancestor_that_is_its_own_parent_is_a_cycle() {
    let index = RecordIndex::from_records(&[
        record(5, Some(("weird", 5)), true),
        record(6, Some(("child", 5)), false),
    ]);
    assert_eq!(
        index.reconstruct_components(6),
        Err(ReconstructionRefusal::CyclicChain { repeated: 5 })
    );
    assert_eq!(
        joined(&index.reconstruct_components_until(6, 5).unwrap()),
        "child"
    );
}

#[test]
fn components_below_an_ancestor_complete_its_path() {
    let index = RecordIndex::from_records(&[
        root(5),
        record(6, Some(("a", 5)), true),
        record(7, Some(("b", 6)), true),
        record(8, Some(("c", 7)), true),
        record(9, Some(("d", 8)), false),
    ]);
    let whole = index.reconstruct_components(9).unwrap();
    for ancestor in [6, 7, 8] {
        let mut path = index.reconstruct_components(ancestor).unwrap();
        path.extend(index.reconstruct_components_until(9, ancestor).unwrap());
        assert_eq!(path, whole);
    }
}

#[test]
fn the_deepest_chain_within_the_cap_is_rebuilt() {
    let mut records = vec![root(0)];
    for reference in 1..=(MAX_ANCESTOR_DEPTH as u64 + 2) {
        records.push(record(reference, Some(("d", reference - 1)), true));
    }
    let index = RecordIndex::from_records(&records);
    let deepest = MAX_ANCESTOR_DEPTH as u64;
    assert_eq!(
        index.reconstruct_components(deepest).unwrap().len(),
        MAX_ANCESTOR_DEPTH
    );
    assert_eq!(
        index.reconstruct_components(deepest + 1),
        Err(ReconstructionRefusal::ChainTooDeep)
    );
    assert_eq!(
        index
            .reconstruct_components_until(deepest + 2, 1)
            .unwrap()
            .len(),
        MAX_ANCESTOR_DEPTH + 1
    );
}
