use maj_spirit::auth::passhash;

#[test]
fn passhash_is_hex_sha256_of_salted_password() {
    // SHA-256 of "abc"
    assert_eq!(
        passhash("ab", "c"),
        "ba7816bf8f01cfea414140de5dae2223b00361a396177a9cb410ff61f20015ad"
    );
    assert_eq!(
        passhash("", ""),
        "e3b0c44298fc1c149afbf4c8996fb92427ae41e4649b934ca495991b7852b855"
    );
}

#[test]
fn passhash_depends_on_salt() {
    assert_ne!(passhash("secret", "salt1"), passhash("secret", "salt2"));
    assert_eq!(passhash("secret", "salt1").len(), 64);
}
