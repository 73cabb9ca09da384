use cambium::lock::{acquire, LockAttempt, LockError};

#[test]
fn a_refused_lock_keeps_the_instance_from_starting() {
    let err = acquire("/l", LockAttempt::Refused).unwrap_err();
    assert!(matches!(&err, LockError::AlreadyLocked { path } if path == "/l"));
    assert!(err.message().starts_with("another Cambium instance already holds the lock at /l \u{2014} "));
    assert!(acquire("/l", LockAttempt::Locked).is_ok());
}

#[test]
fn a_lock_file_that_cannot_be_opened_is_reported() {
    let err = acquire("/l", LockAttempt::NotOpened("denied".to_string())).unwrap_err();
    assert_eq!(err.message(), "could not open/create lock file /l: denied");
}
