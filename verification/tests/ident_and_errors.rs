use agent_teams::error::{first_failure, StoreError};
use agent_teams::ident::{fresh_task_id, task_id_from, ThreadId};

#[test]
fn thread_id_keeps_its_bits() {
    let id = ThreadId::from_u128(0xa1a2a3a4b1b2c1c2d1d2d3d4d5d6d7d8);
    assert_eq!(id.as_u128(), 0xa1a2a3a4b1b2c1c2d1d2d3d4d5d6d7d8);
    assert_eq!(id, ThreadId::from_u128(0xa1a2a3a4b1b2c1c2d1d2d3d4d5d6d7d8));
    assert_ne!(id, ThreadId::from_u128(1));
}

#[test]
fn new_thread_ids_are_random_uuids() {
    let a = ThreadId::new();
    let b = ThreadId::new();
    assert_ne!(a, b);
    let mask = 0x0000_0000_0000_f000_c000_0000_0000_0000u128;
    let marks = 0x0000_0000_0000_4000_8000_0000_0000_0000u128;
    assert_eq!(a.as_u128() & mask, marks);
    assert_eq!(b.as_u128() & mask, marks);
}

#[test]
fn task_id_is_the_prefix_and_32_hex_digits() {
    assert_eq!(
        task_id_from(0x0123456789abcdef0fedcba987654321),
        "task-0123456789abcdef0fedcba987654321"
    );
    assert_eq!(task_id_from(0), "task-00000000000000000000000000000000");
    assert_eq!(task_id_from(u128::MAX), "task-ffffffffffffffffffffffffffffffff");
    assert_eq!(task_id_from(0xAB), "task-000000000000000000000000000000ab");
}

#[test]
fn fresh_task_ids_differ_and_carry_the_uuid_marks() {
    let a = fresh_task_id();
    let b = fresh_task_id();
    assert_ne!(a, b);
    assert_eq!(a.len(), 37);
    assert!(a.starts_with("task-"));
    let digits = &a[5..];
    assert!(digits.chars().all(|c| c.is_ascii_digit() || ('a'..='f').contains(&c)));
    assert_eq!(&digits[12..13], "4");
    assert!(matches!(&digits[16..17], "8" | "9" | "a" | "b"));
}

#[test]
fn every_error_has_its_message() {
    assert_eq!(StoreError::NotFound.message(), "not found");
    assert_eq!(StoreError::AlreadyExists.message(), "already exists");
    assert_eq!(StoreError::CorruptState.message(), "corrupt state");
    assert_eq!(StoreError::Busy.message(), "busy");
    assert_eq!(StoreError::IoFailure.message(), "internal storage error");
}

#[test]
fn first_failure_reports_the_first_error() {
    assert_eq!(first_failure(&vec![]), Ok(()));
    assert_eq!(first_failure(&vec![Ok(()), Ok(())]), Ok(()));
    assert_eq!(
        first_failure(&vec![Ok(()), Err(StoreError::Busy), Err(StoreError::IoFailure)]),
        Err(StoreError::Busy)
    );
    assert_eq!(
        first_failure(&vec![Err(StoreError::CorruptState), Ok(())]),
        Err(StoreError::CorruptState)
    );
    assert_eq!(first_failure(&vec![Ok(()), Ok(()), Err(StoreError::IoFailure)]), Err(StoreError::IoFailure));
}
