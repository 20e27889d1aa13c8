//! Evidence about scanned objects: values that are known, bounded, or missing
//! for a stated reason.

use vstd::prelude::*;
use crate::identity::EntryIdentity;
use crate::text::{
    concat, decimal, decimal_is_injective, decimal_text, lemma_decimal_digits,
    lemma_split_at_colon,
};

verus! {

/// Why a value is not known exactly, or an object was not entered.
#[derive(Debug, Clone, Copy, PartialEq, Eq, Hash, Structural)]
pub enum ReasonCode {
    StrictReadOnly,
    UnknownIdentity,
    Unknown,
    UnsupportedFilesystem,
    ResourceLimit,
}

impl ReasonCode {
    pub open spec fn name_text(self) -> Seq<char> {
        match self {
            ReasonCode::StrictReadOnly => "StrictReadOnly"@,
            ReasonCode::UnknownIdentity => "UnknownIdentity"@,
            ReasonCode::Unknown => "Unknown"@,
            ReasonCode::UnsupportedFilesystem => "UnsupportedFilesystem"@,
            ReasonCode::ResourceLimit => "ResourceLimit"@,
        }
    }

    /// The name of the reason.
    pub fn name(self) -> (r: &'static str)
        ensures
            r@ == self.name_text(),
    {
        match self {
            ReasonCode::StrictReadOnly => "StrictReadOnly",
            ReasonCode::UnknownIdentity => "UnknownIdentity",
            ReasonCode::Unknown => "Unknown",
            ReasonCode::UnsupportedFilesystem => "UnsupportedFilesystem",
            ReasonCode::ResourceLimit => "ResourceLimit",
        }
    }
}

/// A number that is written in decimal.
#[derive(Debug, Clone, Copy, PartialEq, Eq, PartialOrd, Ord, Hash, Structural)]
pub struct DecimalU128 {
    pub value: u128,
}

impl DecimalU128 {
    pub fn new(value: u128) -> (r: DecimalU128)
        ensures
            r.value == value,
    {
        DecimalU128 { value }
    }

    pub fn get(self) -> (r: u128)
        ensures
            r == self.value,
    {
        self.value
    }
}

/// A value with the strength of the evidence for it.
#[derive(Debug, Clone, Copy, PartialEq, Eq, Structural)]
pub enum EvidenceValue<T> {
    Known { value: T },
    LowerBound { value: T, reason: ReasonCode },
    Unknown { reason: ReasonCode },
    Unsupported { reason: ReasonCode },
    NotChecked { reason: ReasonCode },
}

/// A number of bytes.
pub type ByteValue = EvidenceValue<DecimalU128>;

/// A number of things.
pub type CountValue = EvidenceValue<DecimalU128>;

/// What kind of object an entry is.
#[derive(Debug, Clone, Copy, PartialEq, Eq, Structural)]
pub enum EntryKind {
    File,
    Directory,
    Symlink,
    ReparsePoint,
    Other,
}

impl EntryKind {
    pub open spec fn name_text(self) -> Seq<char> {
        match self {
            EntryKind::File => "File"@,
            EntryKind::Directory => "Directory"@,
            EntryKind::Symlink => "Symlink"@,
            EntryKind::ReparsePoint => "ReparsePoint"@,
            EntryKind::Other => "Other"@,
        }
    }

    /// The name of the kind.
    pub fn name(self) -> (r: &'static str)
        ensures
            r@ == self.name_text(),
    {
        match self {
            EntryKind::File => "File",
            EntryKind::Directory => "Directory",
            EntryKind::Symlink => "Symlink",
            EntryKind::ReparsePoint => "ReparsePoint",
            EntryKind::Other => "Other",
        }
    }
}

/// A byte count that is known.
pub fn known_u128(value: u128) -> (r: ByteValue)
    ensures
        r == (EvidenceValue::Known { value: DecimalU128 { value } }),
{
    EvidenceValue::Known { value: DecimalU128::new(value) }
}

/// A count that is known.
pub fn known_count(value: u128) -> (r: CountValue)
    ensures
        r == (EvidenceValue::Known { value: DecimalU128 { value } }),
{
    EvidenceValue::Known { value: DecimalU128::new(value) }
}

/// A byte count of which only a lower bound is known.
pub fn lower_bound_u128(value: u128, reason: ReasonCode) -> (r: ByteValue)
    ensures
        r == (EvidenceValue::LowerBound { value: DecimalU128 { value }, reason }),
{
    EvidenceValue::LowerBound { value: DecimalU128::new(value), reason }
}

/// A byte count that is not known.
pub fn unknown_u128(reason: ReasonCode) -> (r: ByteValue)
    ensures
        r == (EvidenceValue::<DecimalU128>::Unknown { reason }),
{
    EvidenceValue::Unknown { reason }
}

/// A byte count that the platform cannot give.
pub fn unsupported_u128(reason: ReasonCode) -> (r: ByteValue)
    ensures
        r == (EvidenceValue::<DecimalU128>::Unsupported { reason }),
{
    EvidenceValue::Unsupported { reason }
}

// ---------------------------------------------------------------------------
// Fingerprints
// ---------------------------------------------------------------------------

/// The strength of the evidence as the first word of its text.
pub open spec fn evidence_word(value: ByteValue) -> Seq<char> {
    match value {
        EvidenceValue::Known { .. } => "known"@,
        EvidenceValue::LowerBound { .. } => "lower"@,
        EvidenceValue::Unknown { .. } => "unknown"@,
        EvidenceValue::Unsupported { .. } => "unsupported"@,
        EvidenceValue::NotChecked { .. } => "not_checked"@,
    }
}

/// What follows the first word.
pub open spec fn evidence_detail(value: ByteValue) -> Seq<char> {
    match value {
        EvidenceValue::Known { value } => decimal(value.value as nat),
        EvidenceValue::LowerBound { value, reason } => decimal(value.value as nat).push(':')
            + reason.name_text(),
        EvidenceValue::Unknown { reason } => reason.name_text(),
        EvidenceValue::Unsupported { reason } => reason.name_text(),
        EvidenceValue::NotChecked { reason } => reason.name_text(),
    }
}

/// A byte count as text.
pub open spec fn evidence_text(value: ByteValue) -> Seq<char> {
    evidence_word(value).push(':') + evidence_detail(value)
}

/// The text that stands for an object: its device and inode in decimal, or
/// `unknown`, then its kind and its size, separated by colons.
pub open spec fn fingerprint_text(
    identity: Option<EntryIdentity>,
    kind: EntryKind,
    logical_bytes: ByteValue,
) -> Seq<char> {
    let tail = kind.name_text().push(':') + evidence_text(logical_bytes);
    match identity {
        Some(identity) => decimal(identity.device_number() as nat).push(':') + (decimal(
            identity.inode_number() as nat,
        ).push(':') + tail),
        None => "unknown"@.push(':') + tail,
    }
}

fn with_colon(text: &str) -> (r: String)
    ensures
        r@ == text@.push(':'),
{
    let r = concat(text, ":");
    proof {
        reveal_strlit(":");
    }
    assert(r@ =~= text@.push(':'));
    r
}

fn describe_bytes(value: &ByteValue) -> (r: String)
    ensures
        r@ == evidence_text(*value),
{
    match value {
        EvidenceValue::Known { value } => concat(
            with_colon("known").as_str(),
            decimal_text(value.value).as_str(),
        ),
        EvidenceValue::LowerBound { value, reason } => concat(
            with_colon("lower").as_str(),
            concat(
                with_colon(decimal_text(value.value).as_str()).as_str(),
                reason.name(),
            ).as_str(),
        ),
        EvidenceValue::Unknown { reason } => concat(with_colon("unknown").as_str(), reason.name()),
        EvidenceValue::Unsupported { reason } => concat(
            with_colon("unsupported").as_str(),
            reason.name(),
        ),
        EvidenceValue::NotChecked { reason } => concat(
            with_colon("not_checked").as_str(),
            reason.name(),
        ),
    }
}

/// Writes the fingerprint of an object.
pub fn fingerprint_for(
    identity: Option<&EntryIdentity>,
    kind: &EntryKind,
    logical_bytes: &ByteValue,
) -> (r: String)
    ensures
        r@ == fingerprint_text(
            match identity {
                Some(identity) => Some(*identity),
                None => None,
            },
            *kind,
            *logical_bytes,
        ),
{
    let tail = concat(
        with_colon(kind.name()).as_str(),
        describe_bytes(logical_bytes).as_str(),
    );
    match identity {
        Some(identity) => concat(
            with_colon(decimal_text(identity.device() as u128).as_str()).as_str(),
            concat(
                with_colon(decimal_text(identity.inode()).as_str()).as_str(),
                tail.as_str(),
            ).as_str(),
        ),
        None => concat(with_colon("unknown").as_str(), tail.as_str()),
    }
}

proof fn lemma_reason_names(a: ReasonCode, b: ReasonCode)
    ensures
        a.name_text() == b.name_text() ==> a == b,
        !a.name_text().contains(':'),
{
    reveal_strlit("StrictReadOnly");
    reveal_strlit("UnknownIdentity");
    reveal_strlit("Unknown");
    reveal_strlit("UnsupportedFilesystem");
    reveal_strlit("ResourceLimit");
    assert("StrictReadOnly"@.len() == 14);
    assert("UnknownIdentity"@.len() == 15);
    assert("Unknown"@.len() == 7);
    assert("UnsupportedFilesystem"@.len() == 21);
    assert("ResourceLimit"@.len() == 13);
}

proof fn lemma_kind_names(a: EntryKind, b: EntryKind)
    ensures
        a.name_text() == b.name_text() ==> a == b,
        !a.name_text().contains(':'),
{
    reveal_strlit("File");
    reveal_strlit("Directory");
    reveal_strlit("Symlink");
    reveal_strlit("ReparsePoint");
    reveal_strlit("Other");
    assert("File"@.len() == 4);
    assert("Directory"@.len() == 9);
    assert("Symlink"@.len() == 7);
    assert("ReparsePoint"@.len() == 12);
    assert("Other"@.len() == 5);
}

proof fn lemma_evidence_words(a: ByteValue, b: ByteValue)
    ensures
        !evidence_word(a).contains(':'),
        evidence_word(a) == evidence_word(b) ==> {
            ||| a is Known && b is Known
            ||| a is LowerBound && b is LowerBound
            ||| a is Unknown && b is Unknown
            ||| a is Unsupported && b is Unsupported
            ||| a is NotChecked && b is NotChecked
        },
{
    reveal_strlit("known");
    reveal_strlit("lower");
    reveal_strlit("unknown");
    reveal_strlit("unsupported");
    reveal_strlit("not_checked");
    assert("known"@.len() == 5);
    assert("lower"@.len() == 5);
    assert("unknown"@.len() == 7);
    assert("unsupported"@.len() == 11);
    assert("not_checked"@.len() == 11);
    assert("known"@[0] == 'k');
    assert("lower"@[0] == 'l');
    assert("unsupported"@[0] == 'u');
    assert("not_checked"@[0] == 'n');
}

/// Different byte values have different texts.
pub proof fn evidence_text_is_injective(a: ByteValue, b: ByteValue)
    requires
        evidence_text(a) == evidence_text(b),
    ensures
        a == b,
{
    lemma_evidence_words(a, b);
    lemma_evidence_words(b, a);
    lemma_split_at_colon(
        evidence_word(a),
        evidence_detail(a),
        evidence_word(b),
        evidence_detail(b),
    );
    match (a, b) {
        (EvidenceValue::Known { value: x }, EvidenceValue::Known { value: y }) => {
            decimal_is_injective(x.value as nat, y.value as nat);
        },
        (
            EvidenceValue::LowerBound { value: x, reason: p },
            EvidenceValue::LowerBound { value: y, reason: q },
        ) => {
            lemma_decimal_digits(x.value as nat);
            lemma_decimal_digits(y.value as nat);
            lemma_split_at_colon(
                decimal(x.value as nat),
                p.name_text(),
                decimal(y.value as nat),
                q.name_text(),
            );
            decimal_is_injective(x.value as nat, y.value as nat);
            lemma_reason_names(p, q);
        },
        (EvidenceValue::Unknown { reason: p }, EvidenceValue::Unknown { reason: q }) => {
            lemma_reason_names(p, q);
        },
        (EvidenceValue::Unsupported { reason: p }, EvidenceValue::Unsupported { reason: q }) => {
            lemma_reason_names(p, q);
        },
        (EvidenceValue::NotChecked { reason: p }, EvidenceValue::NotChecked { reason: q }) => {
            lemma_reason_names(p, q);
        },
        _ => {},
    }
}

/// A fingerprint determines the identity, the kind and the size it was made
/// from: objects that differ in any of them never share one.
pub proof fn fingerprints_do_not_collide(
    a: Option<EntryIdentity>,
    a_kind: EntryKind,
    a_bytes: ByteValue,
    b: Option<EntryIdentity>,
    b_kind: EntryKind,
    b_bytes: ByteValue,
)
    requires
        fingerprint_text(a, a_kind, a_bytes) == fingerprint_text(b, b_kind, b_bytes),
    ensures
        a == b,
        a_kind == b_kind,
        a_bytes == b_bytes,
{
    reveal_strlit("unknown");
    let x = a_kind.name_text().push(':') + evidence_text(a_bytes);
    let y = b_kind.name_text().push(':') + evidence_text(b_bytes);
    match (a, b) {
        (Some(p), Some(q)) => {
            let (pd, qd) = (decimal(p.device_number() as nat), decimal(q.device_number() as nat));
            let (pi, qi) = (decimal(p.inode_number() as nat), decimal(q.inode_number() as nat));
            lemma_decimal_digits(p.device_number() as nat);
            lemma_decimal_digits(q.device_number() as nat);
            lemma_decimal_digits(p.inode_number() as nat);
            lemma_decimal_digits(q.inode_number() as nat);
            lemma_split_at_colon(pd, pi.push(':') + x, qd, qi.push(':') + y);
            lemma_split_at_colon(pi, x, qi, y);
            decimal_is_injective(p.device_number() as nat, q.device_number() as nat);
            decimal_is_injective(p.inode_number() as nat, q.inode_number() as nat);
            crate::identity::identities_are_their_numbers(p, q);
        },
        (None, None) => {
            lemma_split_at_colon("unknown"@, x, "unknown"@, y);
        },
        (Some(p), None) => {
            let pd = decimal(p.device_number() as nat);
            lemma_decimal_digits(p.device_number() as nat);
            lemma_split_at_colon(
                pd,
                decimal(p.inode_number() as nat).push(':') + x,
                "unknown"@,
                y,
            );
            assert("unknown"@[0] == 'u');
        },
        (None, Some(q)) => {
            let qd = decimal(q.device_number() as nat);
            lemma_decimal_digits(q.device_number() as nat);
            lemma_split_at_colon(
                "unknown"@,
                x,
                qd,
                decimal(q.inode_number() as nat).push(':') + y,
            );
            assert("unknown"@[0] == 'u');
        },
    }
    lemma_kind_names(a_kind, b_kind);
    lemma_kind_names(b_kind, a_kind);
    lemma_split_at_colon(
        a_kind.name_text(),
        evidence_text(a_bytes),
        b_kind.name_text(),
        evidence_text(b_bytes),
    );
    evidence_text_is_injective(a_bytes, b_bytes);
}

/// A fingerprint is device, inode, kind and size in that order, with a colon between each two;
/// an object without identity has `unknown` in place of the first two.
pub proof fn fingerprints_spell_the_object(
    identity: EntryIdentity,
    kind: EntryKind,
    bytes: ByteValue,
)
    ensures
        fingerprint_text(Some(identity), kind, bytes) == decimal(identity.device_number() as nat)
            + seq![':'] + decimal(identity.inode_number() as nat) + seq![':'] + kind.name_text()
            + seq![':'] + evidence_text(bytes),
        fingerprint_text(None, kind, bytes) == "unknown"@ + seq![':'] + kind.name_text() + seq![':']
            + evidence_text(bytes),
{
    assert(fingerprint_text(Some(identity), kind, bytes) =~= decimal(
        identity.device_number() as nat,
    ) + seq![':'] + decimal(identity.inode_number() as nat) + seq![':'] + kind.name_text() + seq![
        ':',
    ] + evidence_text(bytes));
    assert(fingerprint_text(None, kind, bytes) =~= "unknown"@ + seq![':'] + kind.name_text() + seq![
        ':',
    ] + evidence_text(bytes));
}

/// A size is spelled by how well it is known, then by its number, its reason, or both.
pub proof fn sizes_are_spelled_by_evidence(value: u128, reason: ReasonCode)
    ensures
        evidence_text(EvidenceValue::Known { value: DecimalU128 { value } }) == "known"@ + seq![':']
            + decimal(value as nat),
        evidence_text(EvidenceValue::LowerBound { value: DecimalU128 { value }, reason })
            == "lower"@ + seq![':'] + decimal(value as nat) + seq![':'] + reason.name_text(),
        evidence_text(EvidenceValue::Unknown { reason }) == "unknown"@ + seq![':']
            + reason.name_text(),
        evidence_text(EvidenceValue::Unsupported { reason }) == "unsupported"@ + seq![':']
            + reason.name_text(),
        evidence_text(EvidenceValue::NotChecked { reason }) == "not_checked"@ + seq![':']
            + reason.name_text(),
{
    let number = DecimalU128 { value };
    assert(evidence_text(EvidenceValue::Known { value: number }) =~= "known"@ + seq![':']
        + decimal(value as nat));
    assert(evidence_text(EvidenceValue::LowerBound { value: number, reason }) =~= "lower"@ + seq![
        ':',
    ] + decimal(value as nat) + seq![':'] + reason.name_text());
    assert(evidence_text(EvidenceValue::Unknown { reason }) =~= "unknown"@ + seq![':']
        + reason.name_text());
    assert(evidence_text(EvidenceValue::Unsupported { reason }) =~= "unsupported"@ + seq![':']
        + reason.name_text());
    assert(evidence_text(EvidenceValue::NotChecked { reason }) =~= "not_checked"@ + seq![':']
        + reason.name_text());
}

/// Kinds and reasons are spelled by their own names.
pub proof fn kinds_and_reasons_are_spelled_out()
    ensures
        EntryKind::File.name_text() == "File"@,
        EntryKind::Directory.name_text() == "Directory"@,
        EntryKind::Symlink.name_text() == "Symlink"@,
        EntryKind::ReparsePoint.name_text() == "ReparsePoint"@,
        EntryKind::Other.name_text() == "Other"@,
        ReasonCode::StrictReadOnly.name_text() == "StrictReadOnly"@,
        ReasonCode::UnknownIdentity.name_text() == "UnknownIdentity"@,
        ReasonCode::Unknown.name_text() == "Unknown"@,
        ReasonCode::UnsupportedFilesystem.name_text() == "UnsupportedFilesystem"@,
        ReasonCode::ResourceLimit.name_text() == "ResourceLimit"@,
{
}

} // verus!
