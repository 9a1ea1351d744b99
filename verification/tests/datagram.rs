use maix_net::addr::PeerAddr;
use maix_net::datagram::datagram_echo_step;
use maix_net::datagram::DatagramBuffer;
use maix_net::datagram::DATAGRAM_CAPACITY;

#[test]
fn fresh_buffer_needs_a_receive() {
    let b = DatagramBuffer::new(DATAGRAM_CAPACITY);
    assert!(b.is_well_formed());
    assert!(b.needs_receive());
}

#[test]
fn small_reads_drain_one_datagram_in_order() {
    let mut b = DatagramBuffer::new(DATAGRAM_CAPACITY);
    b.accept_datagram(&[1, 2, 3, 4, 5, 6, 7, 8, 9, 10]);
    assert!(!b.needs_receive());

    let mut dst = vec![0u8; 4];
    assert_eq!(b.read_into(&mut dst), 4);
    assert_eq!(dst, vec![1, 2, 3, 4]);
    assert_eq!(b.read_into(&mut dst), 4);
    assert_eq!(dst, vec![5, 6, 7, 8]);

    // The last read yields only what is left of the datagram, and the
    // untouched rest of the destination keeps its old bytes.
    assert_eq!(b.read_into(&mut dst), 2);
    assert_eq!(dst, vec![9, 10, 7, 8]);
    assert!(b.needs_receive());
}

#[test]
fn reads_never_cross_a_datagram_boundary() {
    let mut b = DatagramBuffer::new(DATAGRAM_CAPACITY);
    b.accept_datagram(&[1, 2, 3]);
    let mut dst = vec![0u8; 8];
    // Even with room for more, one read stops at the datagram's end.
    assert_eq!(b.read_into(&mut dst), 3);
    assert_eq!(&dst[..3], &[1, 2, 3]);
    assert!(b.needs_receive());

    b.accept_datagram(&[9, 9]);
    assert_eq!(b.read_into(&mut dst), 2);
    assert_eq!(&dst[..2], &[9, 9]);
}

#[test]
fn oversized_datagram_is_truncated_to_capacity() {
    let mut b = DatagramBuffer::new(5);
    b.accept_datagram(&[10, 20, 30, 40, 50, 60, 70, 80]);
    let mut dst = vec![0u8; 10];
    assert_eq!(b.read_into(&mut dst), 5);
    assert_eq!(&dst[..5], &[10, 20, 30, 40, 50]);
    // The cut-off tail is gone for good.
    assert!(b.needs_receive());
}

#[test]
fn zero_length_destination_reads_nothing() {
    let mut b = DatagramBuffer::new(DATAGRAM_CAPACITY);
    b.accept_datagram(&[7, 8]);
    let mut dst: Vec<u8> = Vec::new();
    assert_eq!(b.read_into(&mut dst), 0);
    assert!(!b.needs_receive());
}

#[test]
fn echo_step_returns_payload_to_its_source() {
    let src = PeerAddr { ip: 0x7f000001, is_v6: false, port: 34567 };
    let buffer = vec![5, 6, 7, 8, 0, 0];
    let (payload, dest) = datagram_echo_step(&buffer, 4, src);
    assert_eq!(payload, vec![5, 6, 7, 8]);
    assert_eq!(dest, src);
}
