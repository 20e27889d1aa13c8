//! Identities of filesystem objects.

use vstd::prelude::*;
use crate::bytes::le_value;

verus! {

/// A byte array as a number, least significant byte first.
fn from_le(bytes: [u8; 16]) -> (r: u128)
    ensures
        r == le_value(bytes@, 0, 16),
{
    let mut value: u128 = 0;
    let mut index: usize = 16;
    assert(le_value(bytes@, 16, 0) == 0);
    while index > 0
        invariant
            index <= 16,
            value == le_value(bytes@, index as int, (16 - index) as nat),
            value < pow256((16 - index) as nat),
        decreases index,
    {
        index = index - 1;
        proof {
            lemma_pow256_bound((15 - index) as nat);
        }
        value = bytes[index] as u128 + 256 * value;
    }
    value
}

/// 256 to the power of `count`.
pub open spec fn pow256(count: nat) -> nat
    decreases count,
{
    if count == 0 {
        1
    } else {
        256 * pow256((count - 1) as nat)
    }
}

proof fn lemma_pow256_bound(count: nat)
    requires
        count < 16,
    ensures
        pow256(count + 1) == 256 * pow256(count),
        256 * pow256(count) <= 0x1_0000_0000_0000_0000_0000_0000_0000_0000,
    decreases count,
{
    reveal_with_fuel(pow256, 17);
}

/// The byte of `value` at `index`, counted from the least significant.
pub open spec fn byte_of(value: nat, index: nat) -> u8
    decreases index,
{
    if index == 0 {
        (value % 256) as u8
    } else {
        byte_of(value / 256, (index - 1) as nat)
    }
}

/// The sixteen bytes of a number, least significant first.
pub open spec fn le_bytes(value: nat) -> Seq<u8> {
    Seq::new(16, |i: int| byte_of(value, i as nat))
}

/// The bytes of a number, least significant byte first.
fn to_le(value: u128) -> (r: [u8; 16])
    ensures
        r@ == le_bytes(value as nat),
{
    let mut bytes: [u8; 16] = [0; 16];
    let mut rest: u128 = value;
    let mut index: usize = 0;
    while index < 16
        invariant
            index <= 16,
            forall|i: int| 0 <= i < index ==> #[trigger] bytes@[i] == byte_of(value as nat, i as nat),
            forall|j: nat| #[trigger]
                byte_of(rest as nat, j) == byte_of(value as nat, (index + j) as nat),
        decreases 16 - index,
    {
        assert(byte_of(rest as nat, 0) == byte_of(value as nat, (index + 0) as nat));
        bytes[index] = (rest % 256) as u8;
        assert forall|j: nat| #[trigger]
            byte_of((rest / 256) as nat, j) == byte_of(
                value as nat,
                (index + 1 + j) as nat,
            ) by {
            assert(byte_of(rest as nat, j + 1) == byte_of(value as nat, (index + (j + 1)) as nat));
        }
        rest = rest / 256;
        index = index + 1;
    }
    assert(bytes@ =~= le_bytes(value as nat));
    bytes
}

proof fn lemma_value_of_bytes(bytes: Seq<u8>, offset: int, count: nat, index: nat)
    requires
        0 <= offset,
        offset + count <= bytes.len(),
        index < count,
    ensures
        byte_of(le_value(bytes, offset, count), index) == bytes[offset + index],
    decreases count,
{
    let rest = le_value(bytes, offset + 1, (count - 1) as nat);
    assert(le_value(bytes, offset, count) == bytes[offset] as nat + 256 * rest);
    assert((bytes[offset] as nat + 256 * rest) % 256 == bytes[offset] as nat);
    assert((bytes[offset] as nat + 256 * rest) / 256 == rest);
    if index > 0 {
        lemma_value_of_bytes(bytes, offset + 1, (count - 1) as nat, (index - 1) as nat);
    }
}

proof fn lemma_bytes_of_value(bytes: Seq<u8>, value: nat, offset: int, count: nat)
    requires
        0 <= offset,
        offset + count <= bytes.len(),
        forall|i: int| 0 <= i < count ==> #[trigger] bytes[offset + i] == byte_of(value, i as nat),
        value < pow256(count),
    ensures
        le_value(bytes, offset, count) == value,
    decreases count,
{
    if count > 0 {
        assert(bytes[offset + 0] == byte_of(value, 0));
        assert forall|i: int| 0 <= i < count - 1 implies #[trigger] bytes[offset + 1 + i] == byte_of(
            value / 256,
            i as nat,
        ) by {
            assert(bytes[offset + (i + 1)] == byte_of(value, (i + 1) as nat));
        }
        assert(value / 256 < pow256((count - 1) as nat)) by (nonlinear_arith)
            requires
                value < 256 * pow256((count - 1) as nat),
        ;
        lemma_bytes_of_value(bytes, value / 256, offset + 1, (count - 1) as nat);
    }
}

/// Writing a number as sixteen bytes and reading it back gives the number.
pub proof fn bytes_round_trip_from_value(value: u128)
    ensures
        le_value(le_bytes(value as nat), 0, 16) == value,
{
    assert(pow256(16) == 0x1_0000_0000_0000_0000_0000_0000_0000_0000) by {
        reveal_with_fuel(pow256, 17);
    }
    lemma_bytes_of_value(le_bytes(value as nat), value as nat, 0, 16);
}

/// Reading sixteen bytes as a number and writing it gives the bytes back.
pub proof fn bytes_round_trip_from_bytes(bytes: Seq<u8>)
    requires
        bytes.len() == 16,
    ensures
        le_bytes(le_value(bytes, 0, 16)) == bytes,
{
    assert forall|i: int| 0 <= i < 16 implies le_bytes(le_value(bytes, 0, 16))[i] == bytes[i] by {
        lemma_value_of_bytes(bytes, 0, 16, i as nat);
    }
    assert(le_bytes(le_value(bytes, 0, 16)) =~= bytes);
}

/// Different sixteen-byte ids are different numbers: no bit of an id is lost.
pub proof fn file_ids_do_not_collide(a: Seq<u8>, b: Seq<u8>)
    requires
        a.len() == 16,
        b.len() == 16,
        le_value(a, 0, 16) == le_value(b, 0, 16),
    ensures
        a == b,
{
    bytes_round_trip_from_bytes(a);
    bytes_round_trip_from_bytes(b);
}

/// The identity of an object on its filesystem.
#[derive(Debug, Clone, Copy, PartialEq, Eq, PartialOrd, Ord, Hash, Structural)]
pub struct EntryIdentity {
    /// Unix device identifier or Windows volume serial number.
    device: u64,
    /// Unix inode number or a reversible little-endian encoding of Windows `FILE_ID_128`.
    inode: u128,
}

impl EntryIdentity {
    pub closed spec fn device_number(self) -> u64 {
        self.device
    }

    pub closed spec fn inode_number(self) -> u128 {
        self.inode
    }

    pub fn from_unix(device: u64, inode: u64) -> (r: EntryIdentity)
        ensures
            r.device_number() == device,
            r.inode_number() == inode,
    {
        EntryIdentity { device, inode: inode as u128 }
    }

    pub fn from_windows_file_id(device: u64, file_id: [u8; 16]) -> (r: EntryIdentity)
        ensures
            r.device_number() == device,
            r.inode_number() == le_value(file_id@, 0, 16),
            le_bytes(r.inode_number() as nat) == file_id@,
    {
        proof {
            bytes_round_trip_from_bytes(file_id@);
        }
        EntryIdentity { device, inode: from_le(file_id) }
    }

    pub fn device(&self) -> (r: u64)
        ensures
            r == self.device_number(),
    {
        self.device
    }

    pub fn inode(&self) -> (r: u128)
        ensures
            r == self.inode_number(),
    {
        self.inode
    }

    pub fn windows_file_id(&self) -> (r: [u8; 16])
        ensures
            r@ == le_bytes(self.inode_number() as nat),
    {
        to_le(self.inode)
    }
}

/// An identity is its device and its inode number.
pub proof fn identities_are_their_numbers(a: EntryIdentity, b: EntryIdentity)
    ensures
        a == b <==> a.device_number() == b.device_number() && a.inode_number()
            == b.inode_number(),
{
}

/// A filesystem, by its device number.
#[derive(Debug, Clone, Copy, PartialEq, Eq, Structural)]
pub struct FilesystemIdentity {
    pub device: u64,
}

/// A mount, by its number.
#[derive(Debug, Clone, Copy, PartialEq, Eq, Structural)]
pub struct MountIdentity {
    pub value: u64,
}

/// What the hard links of one object have in common.
#[derive(Debug, Clone, Copy, PartialEq, Eq, PartialOrd, Ord, Hash, Structural)]
pub struct HardLinkKey {
    /// Unix device identifier or Windows volume serial number.
    device: u64,
    /// Unix inode number or a reversible little-endian encoding of Windows `FILE_ID_128`.
    inode: u128,
}

impl HardLinkKey {
    pub closed spec fn device_number(self) -> u64 {
        self.device
    }

    pub closed spec fn inode_number(self) -> u128 {
        self.inode
    }

    pub fn from_unix(device: u64, inode: u64) -> (r: HardLinkKey)
        ensures
            r.device_number() == device,
            r.inode_number() == inode,
    {
        HardLinkKey { device, inode: inode as u128 }
    }

    pub fn from_windows_file_id(device: u64, file_id: [u8; 16]) -> (r: HardLinkKey)
        ensures
            r.device_number() == device,
            r.inode_number() == le_value(file_id@, 0, 16),
            le_bytes(r.inode_number() as nat) == file_id@,
    {
        proof {
            bytes_round_trip_from_bytes(file_id@);
        }
        HardLinkKey { device, inode: from_le(file_id) }
    }

    pub fn device(&self) -> (r: u64)
        ensures
            r == self.device_number(),
    {
        self.device
    }

    pub fn inode(&self) -> (r: u128)
        ensures
            r == self.inode_number(),
    {
        self.inode
    }

    pub fn windows_file_id(&self) -> (r: [u8; 16])
        ensures
            r@ == le_bytes(self.inode_number() as nat),
    {
        to_le(self.inode)
    }

    /// The key of the object with this identity.
    pub closed spec fn of(identity: EntryIdentity) -> HardLinkKey {
        HardLinkKey { device: identity.device, inode: identity.inode }
    }
}

impl From<EntryIdentity> for HardLinkKey {
    fn from(identity: EntryIdentity) -> (r: HardLinkKey) {
        HardLinkKey { device: identity.device, inode: identity.inode }
    }
}

impl vstd::std_specs::convert::FromSpecImpl<EntryIdentity> for HardLinkKey {
    open spec fn obeys_from_spec() -> bool {
        true
    }

    open spec fn from_spec(identity: EntryIdentity) -> HardLinkKey {
        HardLinkKey::of(identity)
    }
}

/// A key is its device and its inode number.
pub proof fn hard_link_keys_are_their_numbers(a: HardLinkKey, b: HardLinkKey)
    ensures
        a == b <==> a.device_number() == b.device_number() && a.inode_number()
            == b.inode_number(),
{
}

/// The key made from an identity is the one key with its two numbers, so a key
/// that was built from the same device and file id is equal to it, and different
/// identities have different keys.
pub proof fn hard_link_keys_follow_identities(a: EntryIdentity, b: EntryIdentity)
    ensures
        HardLinkKey::of(a).device_number() == a.device_number(),
        HardLinkKey::of(a).inode_number() == a.inode_number(),
        forall|key: HardLinkKey|
            #![trigger key.device_number()]
            key.device_number() == a.device_number() && key.inode_number() == a.inode_number()
                ==> key == HardLinkKey::of(a),
        HardLinkKey::of(a) == HardLinkKey::of(b) <==> a == b,
{
    assert forall|key: HardLinkKey|
        #![trigger key.device_number()]
        key.device_number() == a.device_number() && key.inode_number()
            == a.inode_number() implies key == HardLinkKey::of(a) by {
        hard_link_keys_are_their_numbers(key, HardLinkKey::of(a));
    }
}

/// Keys built from Windows file ids are equal just where device and file id are:
/// no bit of an id is lost in a key.
pub proof fn windows_keys_follow_file_ids(
    a: HardLinkKey,
    a_file_id: [u8; 16],
    b: HardLinkKey,
    b_file_id: [u8; 16],
)
    requires
        a.inode_number() == le_value(a_file_id@, 0, 16),
        b.inode_number() == le_value(b_file_id@, 0, 16),
    ensures
        a == b <==> a.device_number() == b.device_number() && a_file_id@ == b_file_id@,
{
    bytes_round_trip_from_bytes(a_file_id@);
    bytes_round_trip_from_bytes(b_file_id@);
    hard_link_keys_are_their_numbers(a, b);
}

/// The low half of a Windows file id is its first eight bytes.
pub proof fn file_references_are_the_low_half(file_id: [u8; 16])
    ensures
        le_value(file_id@, 0, 16) as int % 0x1_0000_0000_0000_0000 == le_value(file_id@, 0, 8),
        le_value(file_id@, 0, 16) as int / 0x1_0000_0000_0000_0000 == le_value(file_id@, 8, 8),
{
    reveal_with_fuel(le_value, 17);
    let low = le_value(file_id@, 0, 8) as int;
    let high = le_value(file_id@, 8, 8) as int;
    assert(le_value(file_id@, 0, 16) == low + 0x1_0000_0000_0000_0000 * high);
    assert(0 <= low < 0x1_0000_0000_0000_0000);
}

/// The bytes of an id are written from the least significant one on.
pub proof fn the_first_byte_of_an_id_counts_least(value: nat)
    ensures
        le_bytes(value).len() == 16,
        le_bytes(value)[0] == value % 256,
        le_bytes(value)[1] == (value / 256) % 256,
{
    reveal_with_fuel(byte_of, 3);
}

} // verus!
