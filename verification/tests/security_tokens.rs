use rtps_core::security::authentication::types::{
    AuthRequestMessageToken, AuthenticatedPeerCredentialToken, HandshakeMessageToken,
    IdentityStatusToken, IdentityToken, ValidationOutcome, GMCLASSID_SECURITY_AUTH_HANDSHAKE,
    GMCLASSID_SECURITY_AUTH_REQUEST,
};
use rtps_core::security::types::{BinaryProperty, DataHolder, Property};

fn holder() -> DataHolder {
    DataHolder {
        class_id: GMCLASSID_SECURITY_AUTH_REQUEST.to_string(),
        properties: vec![Property { name: "n".to_string(), value: "v".to_string() }],
        binary_properties: vec![BinaryProperty { name: "b".to_string(), value: vec![1, 2, 3] }],
    }
}

#[test]
fn dummy_tokens_hold_the_dummy_holder() {
    assert_eq!(DataHolder::dummy(), IdentityToken::dummy().data_holder);
    assert_eq!(DataHolder::dummy(), IdentityStatusToken::dummy().data_holder);
    assert_eq!(DataHolder::dummy(), AuthRequestMessageToken::dummy().data_holder);
    assert_eq!(DataHolder::dummy(), HandshakeMessageToken::dummy().data_holder);
    assert_eq!(DataHolder::dummy(), AuthenticatedPeerCredentialToken::dummy().data_holder);
    assert_eq!("dummy", DataHolder::dummy().class_id);
    assert!(DataHolder::dummy().properties.is_empty());
    assert!(DataHolder::dummy().binary_properties.is_empty());
}

#[test]
fn tokens_are_made_from_their_holder() {
    assert_eq!(holder(), IdentityToken::from(holder()).data_holder);
    assert_eq!(holder(), IdentityStatusToken::from(holder()).data_holder);
    assert_eq!(holder(), AuthRequestMessageToken::from(holder()).data_holder);
    assert_eq!(holder(), HandshakeMessageToken::from(holder()).data_holder);
    assert_eq!(holder(), AuthenticatedPeerCredentialToken::from(holder()).data_holder);
}

#[test]
fn class_id_is_that_of_the_holder() {
    assert_eq!("dds.sec.auth_request", IdentityToken::from(holder()).class_id());
    assert_eq!("dummy", IdentityToken::dummy().class_id());
    assert_eq!("dds.sec.auth", GMCLASSID_SECURITY_AUTH_HANDSHAKE);
}

#[test]
fn validation_outcomes_differ() {
    assert_ne!(ValidationOutcome::ValidationOk, ValidationOutcome::OkFinalMessage);
    assert_ne!(
        ValidationOutcome::PendingHandshakeRequest,
        ValidationOutcome::PendingHandshakeMessage
    );
}
