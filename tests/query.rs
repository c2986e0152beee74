use benchmon::process::{ProcessInfoError, ProcessInfoFieldError};
use benchmon::query::{classify_enumeration_error, classify_field_error, FieldFailure, ProcessQueryError};

#[test]
fn field_denial_affects_one_field() {
    let r = classify_field_error::<()>(12, ProcessQueryError::AccessDenied(12));
    assert!(matches!(r, FieldFailure::Field(ProcessInfoFieldError::AccessDenied)));
}

#[test]
fn vanished_or_zombie_process_invalidates_the_record() {
    let r = classify_field_error::<()>(12, ProcessQueryError::NoSuchProcess(12));
    assert!(matches!(r, FieldFailure::Record(ProcessInfoError::NoSuchProcess)));
    let r = classify_field_error::<()>(12, ProcessQueryError::ZombieProcess(12));
    assert!(matches!(r, FieldFailure::Record(ProcessInfoError::ZombieProcess)));
}

#[test]
fn load_failure_is_fatal() {
    let r = classify_field_error(12, ProcessQueryError::Load("broken"));
    assert!(matches!(r, FieldFailure::Fatal("broken")));
    assert_eq!(classify_enumeration_error(ProcessQueryError::Load(3u8)).err(), Some(3u8));
}

#[test]
fn failure_for_another_process_is_flagged() {
    let r = classify_field_error::<()>(12, ProcessQueryError::AccessDenied(13));
    assert!(matches!(r, FieldFailure::WrongProcess { queried: 12, reported: 13 }));
    let r = classify_field_error::<()>(12, ProcessQueryError::ZombieProcess(1));
    assert!(matches!(r, FieldFailure::WrongProcess { queried: 12, reported: 1 }));
}

#[test]
fn enumeration_failure_keeps_the_pid() {
    let r = classify_enumeration_error::<()>(ProcessQueryError::NoSuchProcess(40)).unwrap();
    assert_eq!(r.0, 40);
    assert!(matches!(r.1, Err(ProcessInfoError::NoSuchProcess)));
    let r = classify_enumeration_error::<()>(ProcessQueryError::ZombieProcess(41)).unwrap();
    assert!(matches!(r, (41, Err(ProcessInfoError::ZombieProcess))));
    let r = classify_enumeration_error::<()>(ProcessQueryError::AccessDenied(42)).unwrap();
    assert!(matches!(r, (42, Err(ProcessInfoError::AccessDenied))));
}
