use record_store::auth::AuthDecision;
use record_store::auth::AuthError;
use record_store::auth::CapabilityToken;
use record_store::auth::authenticate;
use record_store::auth::conclude_verification;
use record_store::config::ContractConfig;
use record_store::store::StoreError;

fn token(issuers: &[&str]) -> CapabilityToken {
    CapabilityToken { issuers: issuers.iter().map(|s| s.to_string()).collect() }
}

fn trusted(addrs: &[&str]) -> Vec<String> {
    addrs.iter().map(|s| s.to_string()).collect()
}

#[test]
fn no_token_is_anonymous() {
    let r = authenticate(None, &trusted(&["app1"]));
    assert_eq!(r, Ok(AuthDecision::Anonymous));
}

#[test]
fn a_token_without_issuers_is_refused() {
    let t = token(&[]);
    let r = authenticate(Some(&t), &trusted(&["app1"]));
    assert_eq!(r, Err(AuthError::NoIssuersDeclared));
}

#[test]
fn an_untrusted_issuer_is_refused() {
    let t = token(&["appx"]);
    let r = authenticate(Some(&t), &trusted(&["app1", "app2"]));
    assert_eq!(r, Err(AuthError::UntrustedIssuer));
}

#[test]
fn a_trusted_issuer_is_selected() {
    let t = token(&["app2"]);
    let r = authenticate(Some(&t), &trusted(&["app1", "app2"]));
    assert_eq!(r, Ok(AuthDecision::Verify { issuer: "app2".to_owned() }));
}

#[test]
fn the_first_trusted_issuer_wins_in_trusted_order() {
    let t = token(&["app2", "app1"]);
    let r = authenticate(Some(&t), &trusted(&["app1", "app2"]));
    assert_eq!(r, Ok(AuthDecision::Verify { issuer: "app1".to_owned() }));
}

#[test]
fn a_verified_token_yields_the_attested_principal() {
    let r = conclude_verification(Ok("alice".to_owned()));
    assert_eq!(r, Ok(Some("alice".to_owned())));
}

#[test]
fn a_verifier_refusal_is_verification_failed() {
    let r = conclude_verification(Err("bad signature".to_owned()));
    assert_eq!(r, Err(AuthError::VerificationFailed("bad signature".to_owned())));
}

#[test]
fn check_owner_admits_only_the_administrator() {
    let config = ContractConfig {
        my_address: "store".to_owned(),
        owner_address: "admin".to_owned(),
        applications_address: trusted(&["app1"]),
    };
    assert_eq!(config.check_owner(&"admin".to_owned()), Ok(()));
    assert_eq!(config.check_owner(&"bob".to_owned()), Err(StoreError::Forbidden));
}

#[test]
fn check_application_admits_only_listed_addresses() {
    let config = ContractConfig {
        my_address: "store".to_owned(),
        owner_address: "admin".to_owned(),
        applications_address: trusted(&["app1", "app2"]),
    };
    assert_eq!(config.check_application(&"app2".to_owned()), Ok(()));
    assert_eq!(config.check_application(&"appx".to_owned()), Err(StoreError::Forbidden));
}
