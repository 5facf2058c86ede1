use hearme::session::{SessionError, SessionSlot};

#[test]
fn second_start_is_rejected_and_keeps_the_running_session() {
    let mut slot: SessionSlot<&str> = SessionSlot::new();
    assert!(!slot.is_running());
    assert_eq!(slot.check_vacant(), Ok(()));
    assert_eq!(slot.install("first"), Ok(()));
    assert!(slot.is_running());
    assert_eq!(slot.check_vacant(), Err(SessionError::AlreadyRunning));
    assert_eq!(slot.install("second"), Err(SessionError::AlreadyRunning));
    assert_eq!(slot.take(), Some("first"));
}

#[test]
fn stopping_an_empty_slot_is_a_no_op() {
    let mut slot: SessionSlot<u32> = SessionSlot::new();
    assert_eq!(slot.take(), None);
    assert_eq!(slot.take(), None);
    assert!(!slot.is_running());
    slot.install(7).unwrap();
    assert_eq!(slot.take(), Some(7));
    assert_eq!(slot.take(), None);
    assert_eq!(slot.check_vacant(), Ok(()));
}
