use vstd::prelude::*;
use vstd::std_specs::cmp::PartialEqSpecImpl;

verus! {

/// The 12-byte prefix of a GUID; it identifies a participant.
#[derive(Eq, Clone, Copy, Debug, Hash)]
pub struct GuidPrefix {
    pub bytes: [u8; 12],
}

impl PartialEq for GuidPrefix {
    fn eq(&self, other: &Self) -> (r: bool) {
        let mut i: usize = 0;
        while i < 12
            invariant
                i <= 12,
                forall|j: int| 0 <= j < i ==> self.bytes[j] == other.bytes[j],
            decreases 12 - i,
        {
            if self.bytes[i] != other.bytes[i] {
                return false;
            }
            i += 1;
        }
        proof {
            assert(self.bytes =~= other.bytes);
        }
        true
    }
}

impl PartialEqSpecImpl for GuidPrefix {
    open spec fn obeys_eq_spec() -> bool {
        true
    }

    open spec fn eq_spec(&self, other: &Self) -> bool {
        *self == *other
    }
}

impl GuidPrefix {
    /// The prefix that stands for "no particular participant": twelve zero bytes.
    pub open spec fn spec_unknown() -> GuidPrefix {
        GuidPrefix { bytes: [0u8, 0u8, 0u8, 0u8, 0u8, 0u8, 0u8, 0u8, 0u8, 0u8, 0u8, 0u8] }
    }

    /// Whether this is the prefix that names nobody: twelve bytes of zero.
    pub open spec fn spec_is_unknown(&self) -> bool {
        forall|i: int| 0 <= i < 12 ==> self.bytes[i] == 0
    }

    /// The prefix with these bytes.
    pub fn new(bytes: &[u8; 12]) -> (r: GuidPrefix)
        ensures
            r.bytes == *bytes,
    {
        GuidPrefix { bytes: *bytes }
    }

    /// The prefix that names nobody.
    #[verifier::when_used_as_spec(spec_unknown)]
    pub fn unknown() -> (r: GuidPrefix)
        ensures
            r == Self::spec_unknown(),
            r.spec_is_unknown(),
    {
        GuidPrefix { bytes: [0u8, 0u8, 0u8, 0u8, 0u8, 0u8, 0u8, 0u8, 0u8, 0u8, 0u8, 0u8] }
    }

    /// Whether this is the prefix that names nobody.
    #[verifier::when_used_as_spec(spec_is_unknown)]
    pub fn is_unknown(&self) -> (r: bool)
        ensures
            r == self.spec_is_unknown(),
            r == (*self == Self::spec_unknown()),
    {
        let u = GuidPrefix::unknown();
        proof {
            if *self == u {
                assert(self.spec_is_unknown());
            }
            if self.spec_is_unknown() {
                assert(self.bytes =~= u.bytes);
            }
        }
        *self == u
    }
}

impl Default for GuidPrefix {
    fn default() -> (r: GuidPrefix)
        ensures
            r == GuidPrefix::spec_unknown(),
    {
        GuidPrefix::unknown()
    }
}

/// The 4-byte identifier of an endpoint within its participant: a 3-byte key
/// and a kind octet that tells built-in from user-defined, keyed from unkeyed,
/// and writer from reader.
#[derive(Eq, Clone, Copy, Debug, Hash)]
pub struct EntityId {
    pub entity_key: [u8; 3],
    pub entity_kind: u8,
}

impl PartialEq for EntityId {
    fn eq(&self, other: &Self) -> (r: bool) {
        let r = self.entity_key[0] == other.entity_key[0] && self.entity_key[1]
            == other.entity_key[1] && self.entity_key[2] == other.entity_key[2]
            && self.entity_kind == other.entity_kind;
        proof {
            if r {
                assert(self.entity_key =~= other.entity_key);
            }
        }
        r
    }
}

impl PartialEqSpecImpl for EntityId {
    open spec fn obeys_eq_spec() -> bool {
        true
    }

    open spec fn eq_spec(&self, other: &Self) -> bool {
        *self == *other
    }
}

/// Kind octets of the entity kinds this crate names.
pub const ENTITY_KIND_UNKNOWN: u8 = 0x00;

pub const ENTITY_KIND_WRITER_WITH_KEY_USER_DEFINED: u8 = 0x02;

pub const ENTITY_KIND_WRITER_NO_KEY_USER_DEFINED: u8 = 0x03;

pub const ENTITY_KIND_READER_NO_KEY_USER_DEFINED: u8 = 0x04;

pub const ENTITY_KIND_READER_WITH_KEY_USER_DEFINED: u8 = 0x07;

pub const ENTITY_KIND_WRITER_WITH_KEY_BUILT_IN: u8 = 0xC2;

pub const ENTITY_KIND_WRITER_NO_KEY_BUILT_IN: u8 = 0xC3;

pub const ENTITY_KIND_READER_NO_KEY_BUILT_IN: u8 = 0xC4;

pub const ENTITY_KIND_READER_WITH_KEY_BUILT_IN: u8 = 0xC7;

impl EntityId {
    /// The entity id with key `k0`, `k1`, `k2` and kind `kind`.
    pub open spec fn spec_from_bytes(k0: u8, k1: u8, k2: u8, kind: u8) -> EntityId {
        EntityId { entity_key: [k0, k1, k2], entity_kind: kind }
    }

    /// The entity id that names nobody.
    pub open spec fn spec_unknown() -> EntityId {
        Self::spec_from_bytes(0, 0, 0, ENTITY_KIND_UNKNOWN)
    }

    /// The built-in writer that announces a participant.
    pub open spec fn spec_spdp_builtin_participant_writer() -> EntityId {
        Self::spec_from_bytes(0x00, 0x01, 0x00, ENTITY_KIND_WRITER_WITH_KEY_BUILT_IN)
    }

    /// The built-in reader that hears of other participants.
    pub open spec fn spec_spdp_builtin_participant_reader() -> EntityId {
        Self::spec_from_bytes(0x00, 0x01, 0x00, ENTITY_KIND_READER_WITH_KEY_BUILT_IN)
    }

    /// The built-in writer of stateless messages between participants.
    pub open spec fn spec_p2p_builtin_participant_stateless_writer() -> EntityId {
        Self::spec_from_bytes(0x00, 0x02, 0x01, ENTITY_KIND_WRITER_NO_KEY_BUILT_IN)
    }

    /// The built-in reader of stateless messages between participants.
    pub open spec fn spec_p2p_builtin_participant_stateless_reader() -> EntityId {
        Self::spec_from_bytes(0x00, 0x02, 0x01, ENTITY_KIND_READER_NO_KEY_BUILT_IN)
    }

    /// The four bytes read as one big-endian number.
    pub open spec fn spec_as_u32(&self) -> nat {
        (self.entity_key[0] as nat) * 0x100_0000 + (self.entity_key[1] as nat) * 0x1_0000 + (
        self.entity_key[2] as nat) * 0x100 + (self.entity_kind as nat)
    }

    /// The entity id with key `k0`, `k1`, `k2` and kind `kind`.
    #[verifier::when_used_as_spec(spec_from_bytes)]
    pub fn from_bytes(k0: u8, k1: u8, k2: u8, kind: u8) -> (r: EntityId)
        ensures
            r == Self::spec_from_bytes(k0, k1, k2, kind),
            r.entity_key[0] == k0,
            r.entity_key[1] == k1,
            r.entity_key[2] == k2,
            r.entity_kind == kind,
    {
        EntityId { entity_key: [k0, k1, k2], entity_kind: kind }
    }

    /// The entity id with the given key and kind.
    pub fn create_custom_entity_id(entity_key: [u8; 3], entity_kind: u8) -> (r: EntityId)
        ensures
            r.entity_key == entity_key,
            r.entity_kind == entity_kind,
    {
        EntityId { entity_key, entity_kind }
    }

    /// The entity id that names nobody.
    #[verifier::when_used_as_spec(spec_unknown)]
    pub fn unknown() -> (r: EntityId)
        ensures
            r == Self::spec_unknown(),
    {
        EntityId::from_bytes(0, 0, 0, ENTITY_KIND_UNKNOWN)
    }

    /// The built-in writer that announces a participant.
    #[verifier::when_used_as_spec(spec_spdp_builtin_participant_writer)]
    pub fn spdp_builtin_participant_writer() -> (r: EntityId)
        ensures
            r == Self::spec_spdp_builtin_participant_writer(),
    {
        EntityId::from_bytes(0x00, 0x01, 0x00, ENTITY_KIND_WRITER_WITH_KEY_BUILT_IN)
    }

    /// The built-in reader that hears of other participants.
    #[verifier::when_used_as_spec(spec_spdp_builtin_participant_reader)]
    pub fn spdp_builtin_participant_reader() -> (r: EntityId)
        ensures
            r == Self::spec_spdp_builtin_participant_reader(),
    {
        EntityId::from_bytes(0x00, 0x01, 0x00, ENTITY_KIND_READER_WITH_KEY_BUILT_IN)
    }

    /// The built-in writer of stateless messages between participants.
    #[verifier::when_used_as_spec(spec_p2p_builtin_participant_stateless_writer)]
    pub fn p2p_builtin_participant_stateless_writer() -> (r: EntityId)
        ensures
            r == Self::spec_p2p_builtin_participant_stateless_writer(),
    {
        EntityId::from_bytes(0x00, 0x02, 0x01, ENTITY_KIND_WRITER_NO_KEY_BUILT_IN)
    }

    /// The built-in reader of stateless messages between participants.
    #[verifier::when_used_as_spec(spec_p2p_builtin_participant_stateless_reader)]
    pub fn p2p_builtin_participant_stateless_reader() -> (r: EntityId)
        ensures
            r == Self::spec_p2p_builtin_participant_stateless_reader(),
    {
        EntityId::from_bytes(0x00, 0x02, 0x01, ENTITY_KIND_READER_NO_KEY_BUILT_IN)
    }

    /// The kind octet of the entity id.
    pub fn get_kind(&self) -> (r: u8)
        ensures
            r == self.entity_kind,
    {
        self.entity_kind
    }

    /// The identifier as one number, for use as an event-loop token.
    pub fn as_usize(&self) -> (r: usize)
        ensures
            r == self.spec_as_u32(),
    {
        let a: u32 = self.entity_key[0] as u32;
        let b: u32 = self.entity_key[1] as u32;
        let c: u32 = self.entity_key[2] as u32;
        let d: u32 = self.entity_kind as u32;
        let v: u32 = a * 0x100_0000 + b * 0x1_0000 + c * 0x100 + d;
        v as usize
    }
}

impl Default for EntityId {
    fn default() -> (r: EntityId)
        ensures
            r == EntityId::spec_unknown(),
    {
        EntityId::unknown()
    }
}

/// A globally unique identifier of an endpoint: participant prefix and entity id.
#[derive(Eq, Clone, Copy, Debug, Hash)]
pub struct GUID {
    pub prefix: GuidPrefix,
    pub entity_id: EntityId,
}

impl PartialEq for GUID {
    fn eq(&self, other: &Self) -> (r: bool) {
        self.prefix == other.prefix && self.entity_id == other.entity_id
    }
}

impl PartialEqSpecImpl for GUID {
    open spec fn obeys_eq_spec() -> bool {
        true
    }

    open spec fn eq_spec(&self, other: &Self) -> bool {
        *self == *other
    }
}

impl GUID {
    /// The GUID that names nobody.
    pub open spec fn spec_unknown() -> GUID {
        GUID { prefix: GuidPrefix::spec_unknown(), entity_id: EntityId::spec_unknown() }
    }

    /// The GUID of the entity `entity_id` of the participant `prefix`.
    pub fn new(prefix: GuidPrefix, entity_id: EntityId) -> (r: GUID)
        ensures
            r == (GUID { prefix, entity_id }),
    {
        GUID { prefix, entity_id }
    }

    /// The GUID of the entity `entity_id` of the participant `prefix`.
    pub fn new_with_prefix_and_id(prefix: GuidPrefix, entity_id: EntityId) -> (r: GUID)
        ensures
            r == (GUID { prefix, entity_id }),
    {
        GUID { prefix, entity_id }
    }

    /// The GUID that names nobody.
    #[verifier::when_used_as_spec(spec_unknown)]
    pub fn unknown() -> (r: GUID)
        ensures
            r == Self::spec_unknown(),
    {
        GUID { prefix: GuidPrefix::unknown(), entity_id: EntityId::unknown() }
    }
}

impl Default for GUID {
    fn default() -> (r: GUID)
        ensures
            r == GUID::spec_unknown(),
    {
        GUID::unknown()
    }
}

} // verus!
