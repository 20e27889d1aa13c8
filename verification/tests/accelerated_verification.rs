use sweepx_platform::accelerated_verification::{
    agrees_with_traversal, verify_accelerated_record, AcceleratedClaim, LiveObservation,
    VerificationRefusal,
};
use sweepx_platform::identity::EntryIdentity;
use sweepx_platform::live_identity::{read_live_identity, PathReading};
use sweepx_platform::platform::{IoErrorKind, IoFailure};

#[test]
fn only_staleness_is_classified_as_expected() {
    assert!(VerificationRefusal::Stale { code: 87 }.is_expected_on_a_live_volume());
    assert!(!VerificationRefusal::IdentityMismatch.is_expected_on_a_live_volume());
    assert!(!VerificationRefusal::UnusableRecord.is_expected_on_a_live_volume());
    assert!(
        !VerificationRefusal::NotOnThisVolume { code: 87 }.is_expected_on_a_live_volume(),
        "a cross-volume reference is a snapshot defect, not routine churn"
    );
}

#[test]
fn refusal_codes_are_distinct_and_stable() {
    let codes = [
        VerificationRefusal::Stale { code: 2 }.code(),
        VerificationRefusal::NotOnThisVolume { code: 87 }.code(),
        VerificationRefusal::MetadataUnavailable { code: 5 }.code(),
        VerificationRefusal::IdentityMismatch.code(),
        VerificationRefusal::UnusableRecord.code(),
    ];
    let unique: std::collections::BTreeSet<_> = codes.iter().collect();
    assert_eq!(unique.len(), codes.len(), "refusal codes must not collide");
    assert_eq!(
        VerificationRefusal::Stale { code: 2 }.code(),
        "accelerated_record_stale",
        "codes are a machine contract and must not drift"
    );
}

fn claim(is_directory: bool) -> AcceleratedClaim {
    AcceleratedClaim {
        file_reference_number: 0x0303_0303_0303_0303,
        is_directory,
    }
}

fn found(attributes: u32, reparse_tag: u32) -> LiveObservation {
    LiveObservation::Read {
        identity: EntryIdentity::from_windows_file_id(7, [3; 16]),
        attributes,
        reparse_tag,
    }
}

#[test]
fn a_live_object_of_the_claimed_type_is_verified() {
    let record = verify_accelerated_record(claim(true), found(0x410, 9)).unwrap();
    assert_eq!(
        *record.identity(),
        EntryIdentity::from_windows_file_id(7, [3; 16])
    );
    assert!(record.is_directory());
    assert!(record.is_reparse_point());
    assert_eq!(record.reparse_tag(), 9);
    let plain = verify_accelerated_record(claim(false), found(0x20, 9)).unwrap();
    assert!(!plain.is_directory());
    assert!(!plain.is_reparse_point());
    assert_eq!(plain.reparse_tag(), 0, "a tag means nothing without the bit");

    let same = EntryIdentity::from_windows_file_id(7, [3; 16]);
    let other = EntryIdentity::from_windows_file_id(8, [3; 16]);
    assert!(agrees_with_traversal(&plain, &same, false));
    assert!(!agrees_with_traversal(&plain, &same, true));
    assert!(!agrees_with_traversal(&plain, &other, false));
    let directory = verify_accelerated_record(claim(true), found(0x10, 0)).unwrap();
    assert!(agrees_with_traversal(&directory, &same, true));
    assert!(
        !agrees_with_traversal(&record, &same, true),
        "what traversal reports as a directory is no reparse point"
    );
}

#[test]
fn an_object_with_another_reference_is_refused() {
    let claimed = AcceleratedClaim {
        file_reference_number: 42,
        is_directory: false,
    };
    let observed = |low: u8, high: u8| {
        let mut id = [0u8; 16];
        id[0] = low;
        id[8] = high;
        LiveObservation::Read {
            identity: EntryIdentity::from_windows_file_id(7, id),
            attributes: 0x20,
            reparse_tag: 0,
        }
    };
    assert_eq!(
        verify_accelerated_record(claimed, observed(43, 0)),
        Err(VerificationRefusal::IdentityMismatch)
    );
    assert!(verify_accelerated_record(claimed, observed(42, 0)).is_ok());
    let wide = verify_accelerated_record(claimed, observed(42, 9)).unwrap();
    assert_eq!(wide.identity().windows_file_id()[8], 9, "the full id is kept");
}

#[test]
fn every_other_outcome_refuses_the_record() {
    let zero = AcceleratedClaim {
        file_reference_number: 0,
        is_directory: false,
    };
    assert!(!zero.is_usable());
    assert_eq!(
        verify_accelerated_record(zero, found(0, 0)),
        Err(VerificationRefusal::UnusableRecord)
    );
    for code in [2, 3, 87] {
        assert_eq!(
            verify_accelerated_record(claim(false), LiveObservation::OpenFailed { code }),
            Err(VerificationRefusal::Stale { code })
        );
    }
    assert_eq!(
        verify_accelerated_record(claim(false), LiveObservation::OpenFailed { code: 5 }),
        Err(VerificationRefusal::NotOnThisVolume { code: 5 })
    );
    assert_eq!(
        verify_accelerated_record(claim(false), LiveObservation::MetadataFailed { code: 6 }),
        Err(VerificationRefusal::MetadataUnavailable { code: 6 })
    );
    assert_eq!(
        verify_accelerated_record(claim(false), found(0x10, 0)),
        Err(VerificationRefusal::IdentityMismatch)
    );
}

#[test]
fn a_path_that_is_gone_has_no_identity() {
    let failure = |kind| IoFailure {
        kind,
        raw_os_error: None,
        detail: "text".to_string(),
    };
    assert!(matches!(
        read_live_identity(PathReading::OpenFailed(failure(IoErrorKind::NotFound))),
        Ok(None)
    ));
    assert!(matches!(
        read_live_identity(PathReading::OpenFailed(failure(
            IoErrorKind::PermissionDenied
        ))),
        Err(error) if error.kind == IoErrorKind::PermissionDenied
    ));
    assert!(
        read_live_identity(PathReading::IdentityFailed(failure(IoErrorKind::NotFound))).is_err()
    );
    let identity = read_live_identity(PathReading::Identified {
        volume_serial_number: 5,
        file_id: [1; 16],
    })
    .unwrap()
    .unwrap();
    assert_eq!(identity, EntryIdentity::from_windows_file_id(5, [1; 16]));
}
