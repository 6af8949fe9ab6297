use fusion_hawking::codec::SessionIdManager;

#[test]
fn test_session_id_increment() {
    let mut manager = SessionIdManager::new();

    assert_eq!(manager.next_session_id(0x1234, 0x0001), 1);
    assert_eq!(manager.next_session_id(0x1234, 0x0001), 2);
    assert_eq!(manager.next_session_id(0x1234, 0x0001), 3);
}

#[test]
fn test_different_services() {
    let mut manager = SessionIdManager::new();

    assert_eq!(manager.next_session_id(0x1234, 0x0001), 1);
    assert_eq!(manager.next_session_id(0x5678, 0x0001), 1);
    assert_eq!(manager.next_session_id(0x1234, 0x0001), 2);
    assert_eq!(manager.next_session_id(0x5678, 0x0001), 2);
}

#[test]
fn test_reset() {
    let mut manager = SessionIdManager::new();

    assert_eq!(manager.next_session_id(0x1234, 0x0001), 1);
    assert_eq!(manager.next_session_id(0x1234, 0x0001), 2);

    manager.reset(0x1234, 0x0001);

    assert_eq!(manager.next_session_id(0x1234, 0x0001), 1);
}

#[test]
fn test_session_id_wrap() {
    let mut manager = SessionIdManager::new();

    // Bring the pair's counter to 0xFFFE.
    for _ in 1..0xFFFE {
        manager.next_session_id(0x1234, 0x0001);
    }

    assert_eq!(manager.next_session_id(0x1234, 0x0001), 0xFFFE);
    assert_eq!(manager.next_session_id(0x1234, 0x0001), 0xFFFF);
    let wrapped = manager.next_session_id(0x1234, 0x0001);
    assert!(wrapped == 0 || wrapped == 1, "Expected 0 or 1 after wrap, got {}", wrapped);
}

#[test]
fn test_reset_all() {
    let mut manager = SessionIdManager::new();

    assert_eq!(manager.next_session_id(0x1234, 0x0001), 1);
    assert_eq!(manager.next_session_id(0x5678, 0x0001), 1);
    assert_eq!(manager.next_session_id(0x1234, 0x0001), 2);

    manager.reset_all();

    assert_eq!(manager.next_session_id(0x1234, 0x0001), 1);
    assert_eq!(manager.next_session_id(0x5678, 0x0001), 1);
}

#[test]
fn session_sequence_wraps_to_one_and_never_zero() {
    let mut manager = SessionIdManager::new();
    let mut prev = manager.next_session_id(7, 9);
    assert_eq!(prev, 1);
    for _ in 0..0x1_0005u32 {
        let id = manager.next_session_id(7, 9);
        assert_ne!(id, 0);
        if prev == 0xFFFF {
            assert_eq!(id, 1);
        } else {
            assert_eq!(id, prev + 1);
        }
        prev = id;
    }
}

#[test]
fn reset_of_unknown_pair_changes_nothing() {
    let mut manager = SessionIdManager::new();
    manager.next_session_id(1, 1);
    manager.reset(2, 2);
    assert_eq!(manager.next_session_id(1, 1), 2);
    assert_eq!(manager.next_session_id(2, 2), 1);
}
