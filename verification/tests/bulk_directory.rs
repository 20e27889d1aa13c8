use sweepx_platform::bulk_directory::{
    parse_name_page, signed_offset, unsupported, BulkDirectoryCursor, BulkPageError,
    DirectoryEnumeration, RecordStep,
};
use sweepx_platform::native_path::{NativeName, NativePath};
use sweepx_platform::platform::{IoErrorKind, IoFailure, PlatformError};

const ERROR: u32 = 0x2000_0000;
const NAME: u32 = 1;

fn parent() -> NativePath {
    NativePath::unix(b"/dir".to_vec())
}

/// One record: length, returned attributes, an optional error, a name reference and the name.
fn record(attributes: u32, error: Option<u32>, name: &[u8]) -> Vec<u8> {
    let mut bytes = vec![0u8; 4];
    bytes.extend(attributes.to_le_bytes());
    bytes.extend([0u8; 16]);
    if let Some(error) = error {
        bytes.extend(error.to_le_bytes());
    }
    bytes.extend(8i32.to_le_bytes());
    bytes.extend((name.len() as u32 + 1).to_le_bytes());
    bytes.extend(name);
    bytes.push(0);
    while bytes.len() % 4 != 0 {
        bytes.push(0xaa);
    }
    let length = bytes.len() as u32;
    bytes[0..4].copy_from_slice(&length.to_le_bytes());
    bytes
}

fn page(names: &[&[u8]]) -> Vec<u8> {
    names.iter().flat_map(|name| record(NAME, None, name)).collect()
}

fn message(result: Result<Vec<NativeName>, BulkPageError>) -> String {
    match result {
        Err(BulkPageError::Malformed(message)) => message.to_string(),
        Err(BulkPageError::System(code)) => format!("system {code}"),
        Ok(names) => panic!("{names:?}"),
    }
}

#[test]
fn names_are_decoded_and_the_directory_itself_is_left_out() {
    let names = parse_name_page(&page(&[b".", b"alpha", b"..", &[b'p', 0xff], b""]), 5).unwrap();
    assert_eq!(
        names,
        vec![
            NativeName::unix(b"alpha".to_vec()),
            NativeName::unix(vec![b'p', 0xff]),
            NativeName::unix(Vec::new()),
        ]
    );
    let with_error = record(NAME | ERROR, Some(0), b"beta");
    assert_eq!(
        parse_name_page(&with_error, 1).unwrap(),
        vec![NativeName::unix(b"beta".to_vec())]
    );
}

#[test]
fn malformed_pages_name_the_failing_check() {
    let changed = |change: fn(&mut Vec<u8>)| {
        let mut bytes = page(&[b"alpha"]);
        change(&mut bytes);
        message(parse_name_page(&bytes, 1))
    };
    assert_eq!(changed(|b| b.truncate(3)), "bulk attribute exceeds page");
    assert_eq!(changed(|b| b[0] = 20), "invalid bulk record length");
    assert_eq!(changed(|b| b[0] = 41), "invalid bulk record length");
    assert_eq!(changed(|b| b[0] = 44), "bulk record exceeds page");
    assert_eq!(changed(|b| b[4] = 0), "bulk record omitted its name");
    assert_eq!(changed(|b| b[28] = 200), "bulk name exceeds its record");
    assert_eq!(
        changed(|b| b[24..28].copy_from_slice(&(-25i32).to_le_bytes())),
        "bulk attribute reference overflow"
    );
    assert_eq!(changed(|b| b[28] = 5), "bulk name is not terminated");
    assert_eq!(
        message(parse_name_page(&record(NAME | ERROR, Some(22), b"x"), 1)),
        "system 22"
    );
    assert_eq!(
        message(parse_name_page(&page(&[b"alpha"]), 2)),
        "bulk attribute exceeds page"
    );
    assert_eq!(signed_offset(10, -10).unwrap(), 0);
    assert_eq!(signed_offset(10, 5).unwrap(), 15);
    assert!(signed_offset(10, -11).is_err());
    assert!(signed_offset(usize::MAX, 1).is_err());
}

#[test]
fn pages_are_handed_out_in_order() {
    let mut cursor = BulkDirectoryCursor::new();
    assert!(cursor.can_fallback());
    let bytes = page(&[b"a", b"b"]);
    assert!(cursor.accept_page(&bytes, 2).unwrap());
    assert!(!cursor.can_fallback());
    assert!(!cursor.accept_page(&bytes, 0).unwrap());
    assert!(cursor.accept_page(&page(&[b"c"]), 1).unwrap());
    let mut seen = Vec::new();
    while let Some(name) = cursor.pop() {
        seen.push(name);
    }
    assert_eq!(
        seen,
        vec![
            NativeName::unix(b"a".to_vec()),
            NativeName::unix(b"b".to_vec()),
            NativeName::unix(b"c".to_vec()),
        ]
    );
    assert!(!cursor.can_fallback(), "a page was accepted");
}

fn failure(raw: i32) -> IoFailure {
    IoFailure {
        kind: IoErrorKind::Other,
        raw_os_error: Some(raw),
        detail: "no".to_string(),
    }
}

#[test]
fn only_an_untouched_enumeration_falls_back() {
    assert!([22, 45, 78].iter().all(|raw| unsupported(Some(*raw))));
    assert!(!unsupported(Some(5)) && !unsupported(None));

    let mut enumeration = DirectoryEnumeration::new();
    assert!(matches!(
        enumeration.next(&parent(), false),
        RecordStep::ReadPage
    ));
    assert!(matches!(
        enumeration.after_page_failure(&parent(), failure(5)),
        RecordStep::Return(Err(PlatformError::Io { .. }))
    ));
    assert!(matches!(
        enumeration.after_page_failure(&parent(), failure(45)),
        RecordStep::Rewind
    ));
    assert!(matches!(
        enumeration.next(&parent(), false),
        RecordStep::ReadEntry
    ));
    assert!(matches!(
        enumeration.after_entry(&parent(), Ok(Some(b"..".to_vec()))),
        RecordStep::ReadEntry
    ));
    assert!(matches!(
        enumeration.after_entry(&parent(), Ok(Some(b"a".to_vec()))),
        RecordStep::Return(Ok(Some(record)))
            if record.path == NativePath::unix(b"/dir/a".to_vec())
    ));
    assert!(matches!(
        enumeration.after_entry(&parent(), Err(failure(5))),
        RecordStep::Return(Err(PlatformError::Io { .. }))
    ));
    assert!(matches!(
        enumeration.after_entry(&parent(), Ok(None)),
        RecordStep::Return(Ok(None))
    ));
    assert!(matches!(
        enumeration.next(&parent(), false),
        RecordStep::Return(Ok(None))
    ));
    assert!(matches!(
        enumeration.next(&parent(), true),
        RecordStep::Return(Err(PlatformError::Cancelled))
    ));

    let mut started = DirectoryEnumeration::new();
    if let DirectoryEnumeration::Bulk(cursor) = &mut started {
        cursor.accept_page(&page(&[b"a"]), 1).unwrap();
    }
    assert!(matches!(started.after_page(true), RecordStep::Resume));
    assert!(matches!(
        started.next(&parent(), false),
        RecordStep::Return(Ok(Some(_)))
    ));
    assert!(
        matches!(
            started.after_page_failure(&parent(), failure(45)),
            RecordStep::Return(Err(PlatformError::Io { .. }))
        ),
        "after an accepted page entries could be missed or repeated"
    );
    assert!(matches!(
        started.after_page(false),
        RecordStep::Return(Ok(None))
    ));
}
