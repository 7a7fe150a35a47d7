use vstd::prelude::*;
use crate::messages::parameter_list::ParameterList;
use crate::messages::submessages::{
    Message,
    ReaderSubmessage,
    SecurePostfix,
    SecurePrefix,
    Submessage,
    WriterSubmessage,
};
use crate::security::cryptographic::{
    DatareaderCryptoHandle,
    DatawriterCryptoHandle,
    SecureSubmessageKind,
};
use crate::security::types::SecurityError;
use crate::structure::guid::{GuidPrefix, GUID};

verus! {

/// What the receiver asks of the security plugins. The receiver makes no
/// assumption on what an implementation hands back: whatever comes back, it
/// goes on as its own contracts say.
pub trait SecurityPlugins {
    /// Decodes a message that was secured as a whole.
    fn decode_rtps_message(
        &self,
        message: Message,
        source_guid_prefix: &GuidPrefix,
        dest_guid_prefix: &GuidPrefix,
    ) -> Result<Message, SecurityError>;

    /// Tells from its prefix what a secured submessage holds.
    fn preprocess_secure_submessage(
        &self,
        secure_prefix: &SecurePrefix,
        source_guid_prefix: &GuidPrefix,
        dest_guid_prefix: &GuidPrefix,
    ) -> Result<SecureSubmessageKind, SecurityError>;

    /// Decodes a secured submessage of a writer.
    fn decode_datawriter_submessage(
        &self,
        secure_prefix: SecurePrefix,
        encoded_submessage: Submessage,
        secure_postfix: SecurePostfix,
        receiving_datareader_crypto_handle: DatareaderCryptoHandle,
        sending_datawriter_crypto_handle: DatawriterCryptoHandle,
    ) -> Result<WriterSubmessage, SecurityError>;

    /// Decodes a secured submessage of a reader.
    fn decode_datareader_submessage(
        &self,
        secure_prefix: SecurePrefix,
        encoded_submessage: Submessage,
        secure_postfix: SecurePostfix,
        receiving_datawriter_crypto_handle: DatawriterCryptoHandle,
        sending_datareader_crypto_handle: DatareaderCryptoHandle,
    ) -> Result<ReaderSubmessage, SecurityError>;

    /// Decodes the bytes of the payload of a data submessage.
    fn decode_serialized_payload(
        &self,
        encoded_payload: Vec<u8>,
        inline_qos: &Option<ParameterList>,
        source_guid: &GUID,
        reader_guid: &GUID,
    ) -> Result<Vec<u8>, SecurityError>;
}

/// The plugins of a participant without security: payloads pass as they
/// are, and whatever claims to be secured is refused.
#[derive(Debug, Clone, Copy)]
pub struct NoSecurity {
}

impl NoSecurity {
    /// The plugins of a participant without security.
    pub fn new() -> (r: NoSecurity)
        ensures
            r == (NoSecurity {  }),
    {
        NoSecurity {  }
    }

    /// What the refusal of these plugins says.
    pub open spec fn refusal_message() -> Seq<char> {
        "no security plugins configured"@
    }

    fn refusal() -> (e: SecurityError)
        ensures
            e.msg@ == Self::refusal_message(),
    {
        SecurityError { msg: "no security plugins configured".to_owned() }
    }
}

impl SecurityPlugins for NoSecurity {
    fn decode_rtps_message(
        &self,
        message: Message,
        source_guid_prefix: &GuidPrefix,
        dest_guid_prefix: &GuidPrefix,
    ) -> (r: Result<Message, SecurityError>)
        ensures
            r matches Err(e) && e.msg@ == NoSecurity::refusal_message(),
    {
        Err(NoSecurity::refusal())
    }

    fn preprocess_secure_submessage(
        &self,
        secure_prefix: &SecurePrefix,
        source_guid_prefix: &GuidPrefix,
        dest_guid_prefix: &GuidPrefix,
    ) -> (r: Result<SecureSubmessageKind, SecurityError>)
        ensures
            r matches Err(e) && e.msg@ == NoSecurity::refusal_message(),
    {
        Err(NoSecurity::refusal())
    }

    fn decode_datawriter_submessage(
        &self,
        secure_prefix: SecurePrefix,
        encoded_submessage: Submessage,
        secure_postfix: SecurePostfix,
        receiving_datareader_crypto_handle: DatareaderCryptoHandle,
        sending_datawriter_crypto_handle: DatawriterCryptoHandle,
    ) -> (r: Result<WriterSubmessage, SecurityError>)
        ensures
            r matches Err(e) && e.msg@ == NoSecurity::refusal_message(),
    {
        Err(NoSecurity::refusal())
    }

    fn decode_datareader_submessage(
        &self,
        secure_prefix: SecurePrefix,
        encoded_submessage: Submessage,
        secure_postfix: SecurePostfix,
        receiving_datawriter_crypto_handle: DatawriterCryptoHandle,
        sending_datareader_crypto_handle: DatareaderCryptoHandle,
    ) -> (r: Result<ReaderSubmessage, SecurityError>)
        ensures
            r matches Err(e) && e.msg@ == NoSecurity::refusal_message(),
    {
        Err(NoSecurity::refusal())
    }

    fn decode_serialized_payload(
        &self,
        encoded_payload: Vec<u8>,
        inline_qos: &Option<ParameterList>,
        source_guid: &GUID,
        reader_guid: &GUID,
    ) -> (r: Result<Vec<u8>, SecurityError>)
        ensures
            r matches Ok(v) && v == encoded_payload,
    {
        Ok(encoded_payload)
    }
}

} // verus!
