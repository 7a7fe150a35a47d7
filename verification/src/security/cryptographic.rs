use vstd::prelude::*;

verus! {

/// A handle by which the cryptographic plugin knows the keys of a writer.
pub type DatawriterCryptoHandle = u32;

/// A handle by which the cryptographic plugin knows the keys of a reader.
pub type DatareaderCryptoHandle = u32;

/// What a secured submessage turns out to hold, as the cryptographic plugin
/// tells from its prefix.
#[derive(PartialEq, Eq, Structural, Clone, Copy, Debug)]
pub enum SecureSubmessageKind {
    /// An interpreter submessage, which is not encoded.
    InfoSubmessage,
    /// A submessage of a writer: the handles of the sending writer and of
    /// the receiving reader.
    DatawriterSubmessage(DatawriterCryptoHandle, DatareaderCryptoHandle),
    /// A submessage of a reader: the handles of the sending reader and of
    /// the receiving writer.
    DatareaderSubmessage(DatareaderCryptoHandle, DatawriterCryptoHandle),
}

} // verus!
