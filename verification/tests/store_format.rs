use rusteze::store::{decode_tasks, encode_tasks, PersistenceError, RECORD_LEN, TAG_UNMUTE};
use rusteze::task::{Task, TaskKind};

fn unmute(guild_id: u64, user_id: u64, role_id: u64, due: u64) -> Task {
    Task { due, kind: TaskKind::Unmute { guild_id, user_id, role_id } }
}

#[test]
fn round_trip_preserves_identities_and_due_times() {
    let tasks = vec![
        unmute(1, 42, 7, 100),
        unmute(u64::MAX, 0, u64::MAX, u64::MAX),
        unmute(3, 43, 9, 0),
    ];
    let bytes = encode_tasks(&tasks);
    assert_eq!(bytes.len(), tasks.len() * RECORD_LEN);
    let back = decode_tasks(&bytes).expect("a written store must read back");
    assert_eq!(back, tasks);
}

#[test]
fn round_trip_of_empty_store() {
    let bytes = encode_tasks(&Vec::new());
    assert!(bytes.is_empty());
    assert_eq!(decode_tasks(&bytes), Ok(Vec::new()));
}

#[test]
fn record_layout_is_tagged() {
    let bytes = encode_tasks(&vec![unmute(0x0102, 0x0304, 0x0506, 0x0708)]);
    assert_eq!(bytes[0], TAG_UNMUTE);
    // little-endian due-time right after the tag
    assert_eq!(&bytes[1..9], &[0x08, 0x07, 0, 0, 0, 0, 0, 0]);
    // then guild, user, role
    assert_eq!(&bytes[9..17], &[0x02, 0x01, 0, 0, 0, 0, 0, 0]);
    assert_eq!(&bytes[17..25], &[0x04, 0x03, 0, 0, 0, 0, 0, 0]);
    assert_eq!(&bytes[25..33], &[0x06, 0x05, 0, 0, 0, 0, 0, 0]);
}

#[test]
fn truncated_store_is_rejected() {
    let mut bytes = encode_tasks(&vec![unmute(1, 2, 3, 4)]);
    bytes.pop();
    assert_eq!(decode_tasks(&bytes), Err(PersistenceError::Truncated));
}

#[test]
fn unknown_tag_is_rejected() {
    let mut bytes = encode_tasks(&vec![unmute(1, 2, 3, 4)]);
    bytes[0] = 0xEE;
    assert_eq!(decode_tasks(&bytes), Err(PersistenceError::UnknownTag));
}

#[test]
fn error_after_valid_records_is_reported() {
    let mut bytes = encode_tasks(&vec![unmute(1, 2, 3, 4), unmute(5, 6, 7, 8)]);
    bytes[RECORD_LEN] = 0xEE;
    assert_eq!(decode_tasks(&bytes), Err(PersistenceError::UnknownTag));
}
