use nyanpasswd::crypto::{hash_secret, sample_alphanumeric, verify_candidate};

#[test]
fn generated_secrets_are_long_and_alphanumeric() {
    let a = sample_alphanumeric(64);
    let b = sample_alphanumeric(64);
    assert_eq!(a.len(), 64);
    assert_eq!(b.len(), 64);
    assert!(a.chars().all(|c| c.is_ascii_alphanumeric()));
    assert!(b.chars().all(|c| c.is_ascii_alphanumeric()));
    // Two independent draws of 64 characters coincide with negligible
    // probability.
    assert_ne!(a, b);
}

#[test]
fn hashing_salts_freshly_and_round_trips() {
    let h1 = hash_secret("correct horse battery staple");
    let h2 = hash_secret("correct horse battery staple");
    // A fresh random salt per call: two hashes of the same secret differ.
    assert_ne!(h1, h2);
    // Both verify against the secret they were made for.
    assert_eq!(verify_candidate("correct horse battery staple", &h1), Some(true));
    assert_eq!(verify_candidate("correct horse battery staple", &h2), Some(true));
    // A different candidate is rejected, not an error.
    assert_eq!(verify_candidate("correct horse battery stapl", &h1), Some(false));
    assert_eq!(verify_candidate("", &h1), Some(false));
}

#[test]
fn corrupt_stored_hash_is_an_error_not_a_mismatch() {
    // Not a PHC string at all: it does not parse.
    assert_eq!(verify_candidate("anything", "not a PHC string"), None);
    // A PHC string whose salt is shorter than argon2 accepts.
    assert_eq!(
        verify_candidate("anything", "$argon2i$v=19$m=65536,t=2,p=1$YWJj$aGFzaGhhc2hoYXNoaGFzaA"),
        None
    );
    // A PHC string naming an algorithm this verifier does not know.
    assert_eq!(
        verify_candidate(
            "anything",
            "$scrypt$v=19$m=65536,t=2,p=1$c2FsdHNhbHRzYWx0c2FsdA$aGFzaGhhc2hoYXNoaGFzaA"
        ),
        None
    );
}
