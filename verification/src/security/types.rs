use vstd::prelude::*;

verus! {

/// A name and a string value.
#[derive(Debug, Clone, PartialEq, Eq)]
pub struct Property {
    pub name: String,
    pub value: String,
}

/// A name and a value of bytes.
#[derive(Debug, Clone, PartialEq, Eq)]
pub struct BinaryProperty {
    pub name: String,
    pub value: Vec<u8>,
}

/// The container in which the security plugins exchange their tokens: a
/// class id that tells what the token is, and its properties.
#[derive(Debug, Clone, PartialEq, Eq)]
pub struct DataHolder {
    pub class_id: String,
    pub properties: Vec<Property>,
    pub binary_properties: Vec<BinaryProperty>,
}

impl DataHolder {
    /// A holder of class "dummy" without properties, for use while a plugin
    /// is being developed.
    pub fn dummy() -> (r: DataHolder)
        ensures
            r.class_id@ == "dummy"@,
            r.properties@.len() == 0,
            r.binary_properties@.len() == 0,
    {
        DataHolder {
            class_id: "dummy".to_owned(),
            properties: Vec::new(),
            binary_properties: Vec::new(),
        }
    }
}

/// Why a security plugin refused.
#[derive(Debug, Clone, PartialEq, Eq)]
pub struct SecurityError {
    pub msg: String,
}

} // verus!
