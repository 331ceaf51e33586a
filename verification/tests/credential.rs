use timetrial::credential::{hash_password, verify_password};

#[test]
fn password_verifies_against_its_own_hash() {
    let hash = hash_password(b"hunter2").expect("hashing must succeed");
    assert_eq!(verify_password(b"hunter2", &hash).unwrap(), true);
}

#[test]
fn wrong_password_is_false_not_error() {
    let hash = hash_password(b"hunter2").expect("hashing must succeed");
    assert_eq!(verify_password(b"hunter3", &hash).unwrap(), false);
    assert_eq!(verify_password(b"", &hash).unwrap(), false);
}

#[test]
fn same_password_hashes_differently_each_time() {
    let h1 = hash_password(b"hunter2").expect("hashing must succeed");
    let h2 = hash_password(b"hunter2").expect("hashing must succeed");
    assert_ne!(h1, h2, "a fresh random salt must change the encoding");
    assert_eq!(verify_password(b"hunter2", &h1).unwrap(), true);
    assert_eq!(verify_password(b"hunter2", &h2).unwrap(), true);
}

#[test]
fn malformed_stored_hash_is_an_error_not_a_mismatch() {
    let r = verify_password(b"hunter2", "not a phc string");
    let e = r.expect_err("a corrupted stored hash is an internal inconsistency");
    assert_eq!(e.status_code(), 500);
}

#[test]
fn empty_password_round_trips() {
    let hash = hash_password(b"").expect("hashing must succeed");
    assert_eq!(verify_password(b"", &hash).unwrap(), true);
    assert_eq!(verify_password(b"x", &hash).unwrap(), false);
}
