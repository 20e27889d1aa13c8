use sweepx_platform::ntfs_acceleration::{
    parse_file_layout_page, parse_usn_v2_page, validate_usn_cursor, FileLayoutDataStream,
    LayoutCollector, LayoutReply, LayoutTally, UsnCacheMissReason, UsnCursorDecision,
    UsnJournalBounds, FILE_LAYOUT_PAGE_BYTES, NTFS_DATA_ATTRIBUTE,
};

fn layout_page_with_name(name_units: &[u16]) -> Vec<u8> {
    let name_bytes = name_units.len() * 2;
    let mut bytes = vec![0u8; 64 + 24 + name_bytes.max(8) + 8];
    bytes[0..4].copy_from_slice(&1u32.to_le_bytes());
    bytes[4..8].copy_from_slice(&16u32.to_le_bytes());
    bytes[16..20].copy_from_slice(&1u32.to_le_bytes());
    bytes[32..40].copy_from_slice(&42u64.to_le_bytes());
    bytes[40..44].copy_from_slice(&48u32.to_le_bytes());
    let name = 64usize;
    bytes[name + 8..name + 16].copy_from_slice(&7u64.to_le_bytes());
    bytes[name + 16..name + 20].copy_from_slice(&(name_bytes as u32).to_le_bytes());
    for (index, unit) in name_units.iter().enumerate() {
        let at = name + 24 + index * 2;
        bytes[at..at + 2].copy_from_slice(&unit.to_le_bytes());
    }
    bytes
}

#[test]
fn layout_page_rejects_offsets_outside_the_record() {
    let mut bytes = vec![0; 80];
    bytes[0..4].copy_from_slice(&1u32.to_le_bytes());
    bytes[4..8].copy_from_slice(&16u32.to_le_bytes());
    bytes[16..20].copy_from_slice(&1u32.to_le_bytes());
    bytes[40..44].copy_from_slice(&128u32.to_le_bytes());
    assert_eq!(
        parse_file_layout_page(&bytes),
        Err("layout_child_offset_out_of_bounds")
    );
}

#[test]
fn usn_page_parses_one_version_two_record() {
    let mut bytes = vec![0; 8 + 64];
    bytes[8..12].copy_from_slice(&64u32.to_le_bytes());
    bytes[12..14].copy_from_slice(&2u16.to_le_bytes());
    bytes[16..24].copy_from_slice(&42u64.to_le_bytes());
    bytes[24..32].copy_from_slice(&7u64.to_le_bytes());
    bytes[32..40].copy_from_slice(&99i64.to_le_bytes());
    bytes[48..52].copy_from_slice(&0x100u32.to_le_bytes());
    bytes[60..64].copy_from_slice(&0x20u32.to_le_bytes());
    bytes[64..66].copy_from_slice(&4u16.to_le_bytes());
    bytes[66..68].copy_from_slice(&60u16.to_le_bytes());
    bytes[68..72].copy_from_slice(&[b'a', 0, b'b', 0]);
    let parsed = parse_usn_v2_page(&bytes).unwrap();
    assert_eq!(parsed.len(), 1);
    assert_eq!(parsed[0].file_reference_number, 42);
    assert_eq!(parsed[0].name, [b'a' as u16, b'b' as u16]);
}

#[test]
fn layout_page_parses_one_bounded_record() {
    let mut bytes = vec![0; 80];
    bytes[0..4].copy_from_slice(&1u32.to_le_bytes());
    bytes[4..8].copy_from_slice(&16u32.to_le_bytes());
    bytes[16..20].copy_from_slice(&1u32.to_le_bytes());
    bytes[28..32].copy_from_slice(&0x20u32.to_le_bytes());
    bytes[32..40].copy_from_slice(&42u64.to_le_bytes());
    let records = parse_file_layout_page(&bytes).unwrap();
    assert_eq!(records.len(), 1);
    assert_eq!(records[0].file_reference_number, 42);
    assert_eq!(records[0].length, 64);
}

#[test]
fn layout_page_parses_name_and_default_data_stream() {
    let mut bytes = vec![0; 160];
    bytes[0..4].copy_from_slice(&1u32.to_le_bytes());
    bytes[4..8].copy_from_slice(&16u32.to_le_bytes());
    bytes[16..20].copy_from_slice(&1u32.to_le_bytes());
    bytes[32..40].copy_from_slice(&42u64.to_le_bytes());
    bytes[40..44].copy_from_slice(&48u32.to_le_bytes());
    bytes[44..48].copy_from_slice(&88u32.to_le_bytes());
    let name = 64usize;
    bytes[name + 8..name + 16].copy_from_slice(&7u64.to_le_bytes());
    bytes[name + 16..name + 20].copy_from_slice(&4u32.to_le_bytes());
    bytes[name + 24..name + 28].copy_from_slice(&[b'a', 0, b'b', 0]);
    let stream = 104usize;
    bytes[stream..stream + 4].copy_from_slice(&1u32.to_le_bytes());
    bytes[stream + 16..stream + 24].copy_from_slice(&8192i64.to_le_bytes());
    bytes[stream + 24..stream + 32].copy_from_slice(&4096i64.to_le_bytes());
    bytes[stream + 36..stream + 40].copy_from_slice(&NTFS_DATA_ATTRIBUTE.to_le_bytes());

    let records = parse_file_layout_page(&bytes).unwrap();
    assert_eq!(records[0].names[0].name, [b'a' as u16, b'b' as u16]);
    assert_eq!(records[0].names[0].parent_file_reference_number, 7);
    assert_eq!(
        records[0].default_data_stream,
        Some(FileLayoutDataStream {
            logical_bytes: 4096,
            allocated_bytes: 8192,
        })
    );
}

#[test]
fn usn_page_rejects_unknown_versions_and_invalid_name_ranges() {
    let mut bytes = vec![0; 8 + 64];
    bytes[8..12].copy_from_slice(&64u32.to_le_bytes());
    bytes[12..14].copy_from_slice(&3u16.to_le_bytes());
    assert_eq!(
        parse_usn_v2_page(&bytes),
        Err("usn_record_version_unsupported")
    );

    bytes[12..14].copy_from_slice(&2u16.to_le_bytes());
    bytes[64..66].copy_from_slice(&3u16.to_le_bytes());
    bytes[66..68].copy_from_slice(&60u16.to_le_bytes());
    assert_eq!(parse_usn_v2_page(&bytes), Err("usn_name_range_invalid"));
}

#[test]
fn usn_cursor_never_reuses_changed_wrapped_or_future_history() {
    let bounds = UsnJournalBounds {
        journal_id: 7,
        first_usn: 100,
        next_usn: 200,
        lowest_valid_usn: 110,
    };
    assert_eq!(
        validate_usn_cursor(7, 150, bounds),
        UsnCursorDecision::ReadFrom(150)
    );
    assert_eq!(
        validate_usn_cursor(8, 150, bounds),
        UsnCursorDecision::CacheMiss(UsnCacheMissReason::JournalChanged)
    );
    assert_eq!(
        validate_usn_cursor(7, 109, bounds),
        UsnCursorDecision::CacheMiss(UsnCacheMissReason::JournalWrapped)
    );
    assert_eq!(
        validate_usn_cursor(7, 201, bounds),
        UsnCursorDecision::CacheMiss(UsnCacheMissReason::CursorAhead)
    );
}

#[test]
fn the_ntfs_root_dot_name_is_accepted_without_becoming_a_path_component() {
    let records = parse_file_layout_page(&layout_page_with_name(&[b'.' as u16]))
        .expect("a page containing the root record must parse");
    assert_eq!(records.len(), 1, "the record itself is still reported");
    assert!(
        records[0].names.is_empty(),
        "`.` must not be offered as a name that could be joined into a path"
    );
}

#[test]
fn a_parent_reference_name_still_invalidates_the_page() {
    assert_eq!(
        parse_file_layout_page(&layout_page_with_name(&[b'.' as u16, b'.' as u16])),
        Err("layout_name_invalid"),
        "`..` must never be accepted from a layout page"
    );
}

#[test]
fn an_ordinary_name_is_still_returned_as_a_component() {
    let records = parse_file_layout_page(&layout_page_with_name(&[b'a' as u16, b'b' as u16]))
        .expect("an ordinary name parses");
    assert_eq!(records[0].names.len(), 1);
    assert_eq!(records[0].names[0].name, [b'a' as u16, b'b' as u16]);
}
fn put(bytes: &mut [u8], at: usize, value: &[u8]) {
    bytes[at..at + value.len()].copy_from_slice(value);
}

/// A page of empty records, each of forty bytes.
fn plain_page(references: &[u64]) -> Vec<u8> {
    let mut bytes = vec![0u8; 16 + 40 * references.len()];
    put(&mut bytes, 0, &(references.len() as u32).to_le_bytes());
    put(&mut bytes, 4, &16u32.to_le_bytes());
    for (index, reference) in references.iter().enumerate() {
        let at = 16 + 40 * index;
        put(&mut bytes, at, &1u32.to_le_bytes());
        if index + 1 < references.len() {
            put(&mut bytes, at + 4, &40u32.to_le_bytes());
        }
        put(&mut bytes, at + 16, &reference.to_le_bytes());
    }
    bytes
}

#[test]
fn records_of_a_page_follow_each_other() {
    let records = parse_file_layout_page(&plain_page(&[7, 8, 9])).unwrap();
    assert_eq!(
        records
            .iter()
            .map(|record| (record.offset, record.length, record.file_reference_number))
            .collect::<Vec<_>>(),
        vec![(16, 40, 7), (56, 40, 8), (96, 40, 9)]
    );
}

#[test]
fn malformed_layout_pages_name_the_failing_check() {
    let page = |change: fn(&mut Vec<u8>)| {
        let mut bytes = plain_page(&[7, 8]);
        change(&mut bytes);
        parse_file_layout_page(&bytes).unwrap_err()
    };
    assert_eq!(
        parse_file_layout_page(&[0; 15]),
        Err("layout_header_truncated")
    );
    assert_eq!(page(|b| put(b, 0, &[0; 4])), "layout_record_count_invalid");
    assert_eq!(
        page(|b| put(b, 0, &10_000_001u32.to_le_bytes())),
        "layout_record_count_invalid"
    );
    assert_eq!(
        page(|b| put(b, 4, &15u32.to_le_bytes())),
        "layout_first_record_overlaps_header"
    );
    assert_eq!(page(|b| b.truncate(50)), "layout_record_truncated");
    assert_eq!(
        page(|b| put(b, 4, &u32::MAX.to_le_bytes())),
        "layout_record_truncated"
    );
    assert_eq!(page(|b| put(b, 16, &[2])), "layout_version_unsupported");
    assert_eq!(page(|b| put(b, 60, &[1])), "layout_last_record_has_next");
    assert_eq!(
        page(|b| put(b, 20, &39u32.to_le_bytes())),
        "layout_next_record_overlaps_current"
    );
    assert_eq!(
        page(|b| put(b, 20, &81u32.to_le_bytes())),
        "layout_next_record_out_of_bounds"
    );
    assert_eq!(page(|b| put(b, 40, &[40])), "layout_child_offset_out_of_bounds");
}

#[test]
fn malformed_names_name_the_failing_check() {
    let page = |change: fn(&mut Vec<u8>)| {
        let mut bytes = layout_page_with_name(&[b'a' as u16, b'b' as u16]);
        change(&mut bytes);
        parse_file_layout_page(&bytes).unwrap_err()
    };
    assert_eq!(page(|b| b.truncate(80)), "layout_name_header_truncated");
    assert_eq!(
        page(|b| put(b, 64 + 16, &[3])),
        "layout_name_length_invalid"
    );
    assert_eq!(page(|b| put(b, 64 + 16, &[200])), "layout_name_truncated");
    assert_eq!(page(|b| put(b, 64 + 16, &[0])), "layout_name_invalid");
    assert_eq!(page(|b| put(b, 64 + 24, &[0, 0])), "layout_name_invalid");
    assert_eq!(page(|b| put(b, 64, &[27])), "layout_name_chain_overlaps");
    assert_eq!(
        page(|b| put(b, 64, &[0xf0])),
        "layout_name_chain_out_of_bounds"
    );
    assert_eq!(page(|b| put(b, 64, &[28])), "layout_name_header_truncated");
}

fn stream_page() -> Vec<u8> {
    let mut bytes = vec![0u8; 16 + 40 + 50 + 48];
    put(&mut bytes, 0, &1u32.to_le_bytes());
    put(&mut bytes, 4, &16u32.to_le_bytes());
    put(&mut bytes, 16, &1u32.to_le_bytes());
    put(&mut bytes, 16 + 28, &40u32.to_le_bytes());
    let first = 56;
    put(&mut bytes, first, &1u32.to_le_bytes());
    put(&mut bytes, first + 4, &50u32.to_le_bytes());
    put(&mut bytes, first + 36, &NTFS_DATA_ATTRIBUTE.to_le_bytes());
    put(&mut bytes, first + 44, &2u32.to_le_bytes());
    let second = 106;
    put(&mut bytes, second, &1u32.to_le_bytes());
    put(&mut bytes, second + 16, &4096i64.to_le_bytes());
    put(&mut bytes, second + 24, &100i64.to_le_bytes());
    put(&mut bytes, second + 36, &NTFS_DATA_ATTRIBUTE.to_le_bytes());
    bytes
}

#[test]
fn a_named_stream_does_not_stand_for_the_file() {
    let records = parse_file_layout_page(&stream_page()).unwrap();
    assert_eq!(
        records[0].default_data_stream,
        Some(FileLayoutDataStream {
            logical_bytes: 100,
            allocated_bytes: 4096,
        })
    );
    let mut other = stream_page();
    put(&mut other, 106 + 36, &0x90u32.to_le_bytes());
    assert_eq!(
        parse_file_layout_page(&other).unwrap()[0].default_data_stream,
        None
    );
}

#[test]
fn malformed_streams_name_the_failing_check() {
    let page = |change: fn(&mut Vec<u8>)| {
        let mut bytes = stream_page();
        change(&mut bytes);
        parse_file_layout_page(&bytes).unwrap_err()
    };
    assert_eq!(page(|b| b.truncate(100)), "layout_stream_header_truncated");
    assert_eq!(page(|b| put(b, 56, &[2])), "layout_stream_version_unsupported");
    assert_eq!(
        page(|b| put(b, 56 + 44, &[3])),
        "layout_stream_identifier_invalid"
    );
    assert_eq!(
        page(|b| put(b, 56 + 44, &[200])),
        "layout_stream_identifier_invalid"
    );
    assert_eq!(
        page(|b| put(b, 106 + 16, &(-1i64).to_le_bytes())),
        "layout_stream_size_negative"
    );
    assert_eq!(page(|b| put(b, 60, &[49])), "layout_stream_chain_overlaps");
    assert_eq!(page(|b| put(b, 60, &[98])), "layout_stream_chain_out_of_bounds");
}

#[test]
fn malformed_journal_pages_name_the_failing_check() {
    assert_eq!(parse_usn_v2_page(&[0; 7]), Err("usn_page_cursor_truncated"));
    assert_eq!(parse_usn_v2_page(&[0; 8]), Ok(Vec::new()));
    assert_eq!(parse_usn_v2_page(&[0; 10]), Err("integer_out_of_bounds"));
    let page = |change: fn(&mut Vec<u8>)| {
        let mut bytes = vec![0u8; 8 + 64];
        put(&mut bytes, 8, &[64]);
        put(&mut bytes, 12, &[2]);
        put(&mut bytes, 8 + 56, &[4]);
        put(&mut bytes, 8 + 58, &[60]);
        put(&mut bytes, 8 + 60, &[b'a', 0, b'b', 0]);
        change(&mut bytes);
        parse_usn_v2_page(&bytes)
    };
    assert_eq!(page(|_| ()).unwrap().len(), 1);
    assert_eq!(page(|b| put(b, 8, &[56])), Err("usn_record_length_invalid"));
    assert_eq!(page(|b| put(b, 8, &[61])), Err("usn_record_length_invalid"));
    assert_eq!(page(|b| put(b, 8, &[72])), Err("usn_record_truncated"));
    assert_eq!(page(|b| put(b, 66, &[59])), Err("usn_name_range_invalid"));
    assert_eq!(page(|b| put(b, 66, &[61])), Err("usn_name_range_invalid"));
    assert_eq!(page(|b| put(b, 68, &[0])), Err("usn_name_contains_nul"));
}

#[test]
fn a_volume_is_read_page_by_page_without_losing_records() {
    let pages = [plain_page(&[1, 2]), plain_page(&[3])];
    let mut collector = LayoutCollector::new();
    let mut tally = LayoutTally::new();
    assert!(collector.restarts() && tally.restarts());
    for page in &pages {
        let reply = || LayoutReply::Filled {
            buffer: page,
            returned: page.len(),
        };
        assert_eq!(collector.may_request(false), Ok(()));
        assert_eq!(tally.may_request(false), Ok(()));
        assert_eq!(collector.accept(reply()), Ok(true));
        assert_eq!(tally.accept(reply()), Ok(true));
    }
    assert!(!collector.restarts() && !tally.restarts());
    assert_eq!(collector.may_request(true), Err(995));
    assert_eq!(tally.may_request(true), Err(995));
    assert_eq!(collector.accept(LayoutReply::Failed(38)), Ok(false));
    assert_eq!(tally.accept(LayoutReply::Failed(38)), Ok(false));
    assert_eq!(tally.total(), 3);
    assert_eq!(
        collector
            .into_records()
            .iter()
            .map(|record| record.file_reference_number)
            .collect::<Vec<_>>(),
        vec![1, 2, 3]
    );
}

#[test]
fn a_volume_read_fails_rather_than_truncating() {
    let page = plain_page(&[1]);
    let filled = |returned| LayoutReply::Filled {
        buffer: &page,
        returned,
    };
    let mut collector = LayoutCollector::new();
    assert_eq!(collector.accept(LayoutReply::Failed(5)), Err(5));
    assert_eq!(collector.accept(filled(0)), Err(13));
    assert_eq!(collector.accept(filled(page.len() - 1)), Err(13));
    assert_eq!(collector.accept(filled(page.len() + 1)), Err(13));
    assert_eq!(collector.accept(filled(FILE_LAYOUT_PAGE_BYTES + 1)), Err(13));
    let mut tally = LayoutTally::new();
    for _ in 0..16_384 {
        assert_eq!(tally.may_request(false), Ok(()));
        assert_eq!(tally.accept(filled(page.len())), Ok(true));
    }
    assert_eq!(tally.may_request(false), Err(234));
    assert_eq!(tally.may_request(true), Err(234));
}

#[test]
fn incoherent_journal_bounds_are_never_read() {
    let bounds = UsnJournalBounds {
        journal_id: 7,
        first_usn: 100,
        next_usn: 200,
        lowest_valid_usn: 110,
    };
    let miss = UsnCursorDecision::CacheMiss(UsnCacheMissReason::InvalidBounds);
    for broken in [
        UsnJournalBounds {
            first_usn: -1,
            ..bounds
        },
        UsnJournalBounds {
            lowest_valid_usn: 201,
            ..bounds
        },
        UsnJournalBounds {
            first_usn: 201,
            ..bounds
        },
        UsnJournalBounds {
            next_usn: -5,
            ..bounds
        },
    ] {
        assert_eq!(validate_usn_cursor(7, 150, broken), miss);
    }
    assert_eq!(
        validate_usn_cursor(7, 200, bounds),
        UsnCursorDecision::ReadFrom(200)
    );
}

fn change_record(reference: u64, name: u8) -> Vec<u8> {
    let mut bytes = vec![0; 64];
    bytes[0..4].copy_from_slice(&64u32.to_le_bytes());
    bytes[4..6].copy_from_slice(&2u16.to_le_bytes());
    bytes[8..16].copy_from_slice(&reference.to_le_bytes());
    bytes[56..58].copy_from_slice(&2u16.to_le_bytes());
    bytes[58..60].copy_from_slice(&60u16.to_le_bytes());
    bytes[60] = name;
    bytes
}

#[test]
fn journal_payloads_concatenate_behind_any_cursor() {
    let page = |cursor: u8, payload: &[u8]| {
        let mut bytes = vec![cursor; 8];
        bytes.extend_from_slice(payload);
        parse_usn_v2_page(&bytes).unwrap()
    };
    let first = change_record(1, b'a');
    let second = [change_record(2, b'b'), change_record(3, b'c')].concat();
    let mut expected = page(1, &first);
    expected.extend(page(2, &second));
    assert_eq!(page(3, &[first, second].concat()), expected);
    assert_eq!(
        expected
            .iter()
            .map(|record| (record.file_reference_number, record.name.clone()))
            .collect::<Vec<_>>(),
        vec![(1, vec![0x61]), (2, vec![0x62]), (3, vec![0x63])]
    );
    assert_eq!(page(4, &[]), Vec::new());
}
