//! The boundary to the security plugins: the transform interface that the
//! receiver calls, and the tokens of the authentication plugin.

pub mod types;
pub mod cryptographic;
pub mod security_plugins;
pub mod authentication;
