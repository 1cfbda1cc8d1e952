use nyanpasswd::identity::{authorize_admin, extract_cert_dn, extract_user, AdminRejection,
    CertDn, CertDnExtractionError, UserExtractionError, ERROR_MESSAGE_TLS_PROXY_MISCONFIGURED};
use nyanpasswd::Service;

#[test]
fn test_uid_regex() {
    let dn = CertDn::new(
        "O = nyantec GmbH, CN = Vika Shleina, GN = Viktoriya, SN = Shleina, pseudonym = Vika, UID = vsh"
            .to_string(),
    );
    assert_eq!(dn.uid().unwrap(), "vsh");
}

#[test]
fn uid_extraction_variants() {
    // No space, one space on either side, case-insensitive key.
    assert_eq!(CertDn::new("UID=vsh".to_string()).uid().unwrap(), "vsh");
    assert_eq!(CertDn::new("uid =mak".to_string()).uid().unwrap(), "mak");
    assert_eq!(CertDn::new("Uid= mvs".to_string()).uid().unwrap(), "mvs");
    // The token is the maximal alphanumeric run: it stops at the comma and
    // is not limited to three lowercase letters.
    assert_eq!(CertDn::new("UID = vsh, CN = Y".to_string()).uid().unwrap(), "vsh");
    assert_eq!(CertDn::new("UID = longname42, O = X".to_string()).uid().unwrap(), "longname42");
    assert_eq!(CertDn::new("UID = VSH".to_string()).uid().unwrap(), "VSH");
    assert_eq!(CertDn::new("UID = ab".to_string()).uid().unwrap(), "ab");
    // Leftmost attribute wins.
    assert_eq!(CertDn::new("UID = abc, UID = xyz".to_string()).uid().unwrap(), "abc");
    // No UID attribute at all: a distinct, detectable condition.
    assert!(CertDn::new("O = X, CN = Y".to_string()).uid().is_none());
    // An equals sign followed by no token character does not match.
    assert!(CertDn::new("UID = ,".to_string()).uid().is_none());
}

#[test]
fn header_extraction_outcomes() {
    // Headers entirely absent: the proxy is misconfigured, an internal
    // error with a fixed diagnostic body, not a client failure.
    let e = extract_cert_dn(None, None).unwrap_err();
    assert!(matches!(e, CertDnExtractionError::ReverseProxyMisconfigured));
    assert_eq!(e.status_code(), 500);
    assert!(ERROR_MESSAGE_TLS_PROXY_MISCONFIGURED.contains("proxy_set_header"));

    // No client certificate presented.
    let e = extract_cert_dn(Some("NONE"), Some("UID = vsh")).unwrap_err();
    assert!(matches!(e, CertDnExtractionError::NoTlsCert));
    assert_eq!(e.status_code(), 401);

    // Certificate validation failed; the reason is echoed.
    let e = extract_cert_dn(Some("FAILED:certificate revoked"), None).unwrap_err();
    match &e {
        CertDnExtractionError::CertValidationFailed(reason) => {
            assert_eq!(reason, "FAILED:certificate revoked");
        }
        _ => panic!("expected a validation failure"),
    }
    assert_eq!(e.status_code(), 403);

    // Verified, but the DN header is missing: misconfiguration again.
    let e = extract_cert_dn(Some("SUCCESS"), None).unwrap_err();
    assert!(matches!(e, CertDnExtractionError::ReverseProxyMisconfigured));

    // The good path hands the DN through.
    let dn = extract_cert_dn(Some("SUCCESS"), Some("UID = vsh")).unwrap();
    assert_eq!(dn.uid().unwrap(), "vsh");
}

#[test]
fn user_extraction_pipeline() {
    let mut svc = Service::new().run_migrations();
    svc.create_user("vsh", None, false).unwrap();

    // Full path: verified certificate, UID resolves to a user.
    let user = extract_user(Some("SUCCESS"), Some("O = X, CN = Y, UID = vsh"), &svc).unwrap();
    assert_eq!(user.username, "vsh");

    // A DN without a UID attribute is a client error.
    let e = extract_user(Some("SUCCESS"), Some("O = X, CN = Y"), &svc).unwrap_err();
    assert!(matches!(e, UserExtractionError::NoUidFieldInCert));
    assert_eq!(e.status_code(), 400);

    // A valid certificate for an identity unknown to this store.
    let e = extract_user(Some("SUCCESS"), Some("UID = mak"), &svc).unwrap_err();
    assert!(matches!(e, UserExtractionError::UserNotFound));
    assert_eq!(e.status_code(), 401);

    // Certificate-layer rejections keep their own statuses.
    let e = extract_user(Some("NONE"), None, &svc).unwrap_err();
    assert_eq!(e.status_code(), 401);
    let e = extract_user(None, None, &svc).unwrap_err();
    assert_eq!(e.status_code(), 500);
    let e = extract_user(Some("FAILED"), None, &svc).unwrap_err();
    assert_eq!(e.status_code(), 403);
}

#[test]
fn rejection_response_bodies() {
    // The misconfiguration rejection carries the fixed operator diagnostic
    // on every path.
    let e = extract_cert_dn(None, None).unwrap_err();
    assert_eq!(e.response_body(), ERROR_MESSAGE_TLS_PROXY_MISCONFIGURED);
    let svc = Service::new().run_migrations();
    let e = extract_user(None, None, &svc).unwrap_err();
    assert_eq!(e.response_body(), ERROR_MESSAGE_TLS_PROXY_MISCONFIGURED);
    let admins: Vec<String> = Vec::new();
    let e = authorize_admin(None, None, &admins).unwrap_err();
    assert_eq!(e.response_body(), ERROR_MESSAGE_TLS_PROXY_MISCONFIGURED);

    // The other rejections carry their own short texts.
    let e = extract_cert_dn(Some("NONE"), None).unwrap_err();
    assert_eq!(e.response_body(), "No TLS client certificate was provided");
    let e = extract_cert_dn(Some("FAILED:revoked"), None).unwrap_err();
    assert_eq!(e.response_body(), "Certificate validation FAILED:revoked");
    let e = extract_user(Some("SUCCESS"), Some("O = X"), &svc).unwrap_err();
    assert_eq!(e.response_body(), "No UID field in TLS client certificate's Subject DN");
    let e = extract_user(Some("SUCCESS"), Some("UID = mak"), &svc).unwrap_err();
    assert_eq!(e.response_body(), "User not found in database");
    let e = authorize_admin(Some("SUCCESS"), Some("UID = mak"), &admins).unwrap_err();
    assert_eq!(e.response_body(), "Not an administrator");
    let e = authorize_admin(Some("SUCCESS"), Some("O = X"), &admins).unwrap_err();
    assert_eq!(e.response_body(), "No UID in certificate");
}

#[test]
fn admin_authorization() {
    let admins = vec!["vsh".to_string(), "mvs".to_string()];

    let admin = authorize_admin(Some("SUCCESS"), Some("UID = vsh"), &admins).unwrap();
    assert_eq!(admin.uid(), "vsh");

    let e = authorize_admin(Some("SUCCESS"), Some("UID = mak"), &admins).unwrap_err();
    assert!(matches!(e, AdminRejection::NotAnAdmin));
    assert_eq!(e.status_code(), 403);

    let e = authorize_admin(Some("SUCCESS"), Some("O = X"), &admins).unwrap_err();
    assert!(matches!(e, AdminRejection::NoUidInCert));
    assert_eq!(e.status_code(), 401);

    let e = authorize_admin(Some("NONE"), None, &admins).unwrap_err();
    assert!(matches!(e, AdminRejection::Certificate(CertDnExtractionError::NoTlsCert)));
    assert_eq!(e.status_code(), 401);
}
