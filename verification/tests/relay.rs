use maix_net::relay::chunk_line;
use maix_net::relay::CHUNK_CAPACITY;

#[test]
fn short_line_becomes_one_chunk() {
    let line: Vec<u8> = b"hello world\n".to_vec();
    let chunks = chunk_line(&line);
    assert_eq!(chunks.len(), 1);
    assert_eq!(chunks[0].valid_len(), line.len());
    assert_eq!(chunks[0].valid_bytes(), line);
}

#[test]
fn empty_line_yields_no_chunks() {
    let chunks = chunk_line(&Vec::new());
    assert_eq!(chunks.len(), 0);
}

#[test]
fn exactly_one_capacity_fills_one_chunk() {
    let line = vec![7u8; CHUNK_CAPACITY];
    let chunks = chunk_line(&line);
    assert_eq!(chunks.len(), 1);
    assert_eq!(chunks[0].valid_len(), CHUNK_CAPACITY);
    assert_eq!(chunks[0].valid_bytes(), line);
}

#[test]
fn long_line_splits_in_order_without_loss() {
    let line: Vec<u8> = (0..350u32).map(|i| (i % 251) as u8).collect();
    let chunks = chunk_line(&line);
    assert_eq!(chunks.len(), 3);
    assert!(chunks.iter().all(|c| c.is_well_formed()));
    assert_eq!(chunks[0].valid_len(), CHUNK_CAPACITY);
    assert_eq!(chunks[1].valid_len(), CHUNK_CAPACITY);
    assert_eq!(chunks[2].valid_len(), 50);
    let rebuilt: Vec<u8> = chunks.iter().flat_map(|c| c.valid_bytes()).collect();
    assert_eq!(rebuilt, line);
}

#[test]
fn same_line_twice_chunks_identically_and_independently() {
    let line: Vec<u8> = (0..200u32).map(|i| i as u8).collect();
    let first = chunk_line(&line);
    let second = chunk_line(&line);
    assert_eq!(first.len(), second.len());
    for (a, b) in first.iter().zip(second.iter()) {
        assert_eq!(a.valid_bytes(), b.valid_bytes());
    }
    // Queued back to back, the two runs rebuild the line twice over, with
    // no chunk straddling the boundary between the two inputs.
    let mut stream: Vec<u8> = Vec::new();
    for c in first.iter().chain(second.iter()) {
        stream.extend_from_slice(&c.valid_bytes());
    }
    let mut twice = line.clone();
    twice.extend_from_slice(&line);
    assert_eq!(stream, twice);
}
