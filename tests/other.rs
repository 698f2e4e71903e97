use synd_kvsd_protocol::interact::TestInteractor;
use synd_kvsd_protocol::request::{request_id, REQUEST_ID_LEN};

#[test]
fn request_ids_are_ten_alphanumerics() {
    let a = request_id();
    let b = request_id();
    assert_eq!(a.chars().count(), REQUEST_ID_LEN);
    assert!(a.chars().all(|c| c.is_ascii_alphanumeric()));
    assert_eq!(b.len(), 10);
    assert_ne!(a, b);
}

#[test]
fn test_interactor_does_nothing() {
    let i = TestInteractor::new();
    i.open_browser("https://example.com".to_owned());
}
