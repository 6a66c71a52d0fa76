use chat_relay::registry::ConnectionRegistry;

#[test]
fn test_remove_client_writer() {
    let mut writers_to_clients: ConnectionRegistry<&str> = ConnectionRegistry::new();
    writers_to_clients.register(33333, "writer");
    assert_eq!(writers_to_clients.len(), 1);
    writers_to_clients.deregister(33333);
    assert_eq!(writers_to_clients.len(), 0);
}

#[test]
fn broadcast_skips_only_the_sender() {
    let mut reg = ConnectionRegistry::new();
    for id in [1u64, 2, 3, 4] {
        reg.register(id, id * 10);
    }
    let mut r = reg.recipients_except(2);
    r.sort();
    assert_eq!(r, vec![1, 3, 4]);
    let mut all = reg.recipients_except(99);
    all.sort();
    assert_eq!(all, vec![1, 2, 3, 4]);
    assert_eq!(reg.get(3), Some(&30));
    assert_eq!(reg.get(5), None);
}

#[test]
fn broken_peer_does_not_cut_off_others() {
    let mut reg = ConnectionRegistry::new();
    for id in [1u64, 2, 3, 4, 5] {
        reg.register(id, ());
    }
    // Peer 3's outbound path broke; after its teardown the next broadcast
    // from 1 still reaches the other N-2.
    assert!(reg.deregister(3));
    let mut r = reg.recipients_except(1);
    r.sort();
    assert_eq!(r, vec![2, 4, 5]);
}

#[test]
fn deregister_twice_is_harmless() {
    let mut reg = ConnectionRegistry::new();
    reg.register(7, "a");
    reg.register(8, "b");
    assert!(reg.deregister(7));
    assert!(!reg.deregister(7));
    assert!(!reg.contains(7));
    assert!(reg.contains(8));
    assert_eq!(reg.len(), 1);
}

#[test]
fn register_replaces_handle() {
    let mut reg = ConnectionRegistry::new();
    reg.register(1, "old");
    reg.register(1, "new");
    assert_eq!(reg.len(), 1);
    assert_eq!(reg.get(1), Some(&"new"));
}
