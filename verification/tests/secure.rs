use carapace::secure::Secret;

#[test]
fn secret_round_trips_its_text() {
    let s = Secret::new("sk-ant-deadbeef".to_string());
    assert_eq!(s.as_str(), "sk-ant-deadbeef");
    assert!(!s.is_empty());
}

#[test]
fn empty_secret_is_empty() {
    let s = Secret::empty();
    assert!(s.is_empty());
    assert_eq!(s.as_str(), "");
}

#[test]
fn secret_wipes_on_drop() {
    let mut secret = Secret::new("sk-ant-deadbeef".to_string());
    let ptr = secret.as_str().as_ptr();
    let _ = secret.as_str();
    secret.zeroize();
    // After zeroize, the buffer is overwritten — no sk- prefix survives.
    assert!(!secret.as_str().contains("sk-ant"));
    let _ = ptr;
}
