use vstd::prelude::*;
use vstd::std_specs::convert::FromSpecImpl;
use bytes::Bytes;
use crate::security::types::DataHolder;

verus! {

/// The class id of the messages that ask for authentication.
pub const GMCLASSID_SECURITY_AUTH_REQUEST: &'static str = "dds.sec.auth_request";

/// The class id of the messages of the authentication handshake.
pub const GMCLASSID_SECURITY_AUTH_HANDSHAKE: &'static str = "dds.sec.auth";

/// How a step of validation ended where it did not fail. A failure is an
/// error, not an outcome.
#[derive(Debug, Clone, PartialEq, Eq)]
pub enum ValidationOutcome {
    ValidationOk,
    PendingHandshakeRequest,
    PendingHandshakeMessage,
    OkFinalMessage,
}

/// The authentication plugin's handle of an identity.
pub type IdentityHandle = u32;

/// The authentication plugin's handle of a handshake.
pub type HandshakeHandle = u32;

/// `bytes::Bytes`: a shared, immutable run of bytes.
#[verifier::external_type_specification]
#[verifier::external_body]
pub struct ExBytes(Bytes);

/// The bytes that a `Bytes` value holds.
pub uninterp spec fn bytes_contents(b: Bytes) -> Seq<u8>;

/// Trusted: copies what a `bytes::Bytes` holds, which it hands out as a
/// slice, into a vector. Assumed here: the vector holds the same bytes.
#[verifier::external_body]
pub(crate) fn bytes_to_vec(b: &Bytes) -> (v: Vec<u8>)
    ensures
        v@ == bytes_contents(*b),
{
    b.to_vec()
}

/// The secret that a successful handshake has left.
pub type SharedSecret = Bytes;

/// What a handshake has agreed on: the secret and the two challenges.
pub struct SharedSecretHandle {
    pub shared_secret: SharedSecret,
    pub challenge1: Bytes,
    pub challenge2: Bytes,
}

/// The token by which a participant names its identity.
#[derive(Debug, Clone, PartialEq, Eq)]
pub struct IdentityToken {
    pub data_holder: DataHolder,
}

impl From<DataHolder> for IdentityToken {
    fn from(value: DataHolder) -> (r: Self) {
        Self { data_holder: value }
    }
}

impl FromSpecImpl<DataHolder> for IdentityToken {
    open spec fn obeys_from_spec() -> bool {
        true
    }

    open spec fn from_spec(value: DataHolder) -> Self {
        Self { data_holder: value }
    }
}

impl IdentityToken {
    /// The class id of the token.
    pub fn class_id(&self) -> (r: String)
        ensures
            r@ == self.data_holder.class_id@,
    {
        self.data_holder.class_id.clone()
    }

    /// A token around the dummy holder, for use while a plugin is being
    /// developed.
    pub fn dummy() -> (r: Self)
        ensures
            r.data_holder.class_id@ == "dummy"@,
            r.data_holder.properties@.len() == 0,
            r.data_holder.binary_properties@.len() == 0,
    {
        Self { data_holder: DataHolder::dummy() }
    }
}

/// The token that tells the status of an identity.
#[derive(Debug, Clone, PartialEq, Eq)]
pub struct IdentityStatusToken {
    pub data_holder: DataHolder,
}

impl From<DataHolder> for IdentityStatusToken {
    fn from(value: DataHolder) -> (r: Self) {
        Self { data_holder: value }
    }
}

impl FromSpecImpl<DataHolder> for IdentityStatusToken {
    open spec fn obeys_from_spec() -> bool {
        true
    }

    open spec fn from_spec(value: DataHolder) -> Self {
        Self { data_holder: value }
    }
}

impl IdentityStatusToken {
    /// A token around the dummy holder, for use while a plugin is being
    /// developed.
    pub fn dummy() -> (r: Self)
        ensures
            r.data_holder.class_id@ == "dummy"@,
            r.data_holder.properties@.len() == 0,
            r.data_holder.binary_properties@.len() == 0,
    {
        Self { data_holder: DataHolder::dummy() }
    }
}

/// The token that asks a remote participant to authenticate.
#[derive(Debug, Clone, PartialEq, Eq)]
pub struct AuthRequestMessageToken {
    pub data_holder: DataHolder,
}

impl From<DataHolder> for AuthRequestMessageToken {
    fn from(value: DataHolder) -> (r: Self) {
        Self { data_holder: value }
    }
}

impl FromSpecImpl<DataHolder> for AuthRequestMessageToken {
    open spec fn obeys_from_spec() -> bool {
        true
    }

    open spec fn from_spec(value: DataHolder) -> Self {
        Self { data_holder: value }
    }
}

impl AuthRequestMessageToken {
    /// A token around the dummy holder, for use while a plugin is being
    /// developed.
    pub fn dummy() -> (r: Self)
        ensures
            r.data_holder.class_id@ == "dummy"@,
            r.data_holder.properties@.len() == 0,
            r.data_holder.binary_properties@.len() == 0,
    {
        Self { data_holder: DataHolder::dummy() }
    }
}

/// The token of one message of the handshake.
#[derive(Debug, Clone, PartialEq, Eq)]
pub struct HandshakeMessageToken {
    pub data_holder: DataHolder,
}

impl From<DataHolder> for HandshakeMessageToken {
    fn from(value: DataHolder) -> (r: Self) {
        Self { data_holder: value }
    }
}

impl FromSpecImpl<DataHolder> for HandshakeMessageToken {
    open spec fn obeys_from_spec() -> bool {
        true
    }

    open spec fn from_spec(value: DataHolder) -> Self {
        Self { data_holder: value }
    }
}

impl HandshakeMessageToken {
    /// A token around the dummy holder, for use while a plugin is being
    /// developed.
    pub fn dummy() -> (r: Self)
        ensures
            r.data_holder.class_id@ == "dummy"@,
            r.data_holder.properties@.len() == 0,
            r.data_holder.binary_properties@.len() == 0,
    {
        Self { data_holder: DataHolder::dummy() }
    }
}

/// The token with the credentials of a peer that has authenticated.
#[derive(Debug, Clone, PartialEq, Eq)]
pub struct AuthenticatedPeerCredentialToken {
    pub data_holder: DataHolder,
}

impl From<DataHolder> for AuthenticatedPeerCredentialToken {
    fn from(value: DataHolder) -> (r: Self) {
        Self { data_holder: value }
    }
}

impl FromSpecImpl<DataHolder> for AuthenticatedPeerCredentialToken {
    open spec fn obeys_from_spec() -> bool {
        true
    }

    open spec fn from_spec(value: DataHolder) -> Self {
        Self { data_holder: value }
    }
}

impl AuthenticatedPeerCredentialToken {
    /// A token around the dummy holder, for use while a plugin is being
    /// developed.
    pub fn dummy() -> (r: Self)
        ensures
            r.data_holder.class_id@ == "dummy"@,
            r.data_holder.properties@.len() == 0,
            r.data_holder.binary_properties@.len() == 0,
    {
        Self { data_holder: DataHolder::dummy() }
    }
}

} // verus!
