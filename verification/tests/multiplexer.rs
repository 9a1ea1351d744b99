use maix_net::addr::select_first_address;
use maix_net::addr::PeerAddr;
use maix_net::echo_reply;
use maix_net::multiplexer::PeerSet;
use maix_net::multiplexer::SERVICE_BUFFER_CAPACITY;

#[test]
fn peers_are_serviced_in_arrival_order() {
    let mut set = PeerSet::new();
    assert_eq!(set.count(), 0);
    set.add_peer(11);
    set.add_peers(&vec![22, 33]);
    set.add_peer(44);
    assert_eq!(set.count(), 4);
    assert_eq!(set.get(0), 11);
    assert_eq!(set.get(1), 22);
    assert_eq!(set.get(2), 33);
    assert_eq!(set.get(3), 44);
}

#[test]
fn draining_an_empty_handoff_changes_nothing() {
    let mut set = PeerSet::new();
    set.add_peer(5);
    set.add_peers(&Vec::new());
    assert_eq!(set.count(), 1);
    assert_eq!(set.get(0), 5);
}

#[test]
fn echo_writes_back_exactly_the_bytes_read() {
    let mut buffer = vec![0u8; SERVICE_BUFFER_CAPACITY];
    for (i, b) in buffer.iter_mut().enumerate() {
        *b = i as u8 + 1;
    }
    assert_eq!(echo_reply(&buffer, 4), vec![1, 2, 3, 4]);
    assert_eq!(echo_reply(&buffer, 0), Vec::<u8>::new());
    assert_eq!(
        echo_reply(&buffer, SERVICE_BUFFER_CAPACITY),
        vec![1, 2, 3, 4, 5, 6, 7, 8, 9, 10]
    );
}

#[test]
fn client_uses_only_the_first_resolved_address() {
    let a = PeerAddr { ip: 1, is_v6: false, port: 80 };
    let b = PeerAddr { ip: 2, is_v6: false, port: 81 };
    assert_eq!(select_first_address(&vec![a, b]), Some(a));
}

#[test]
fn empty_resolution_yields_no_address() {
    assert_eq!(select_first_address(&Vec::new()), None);
}
