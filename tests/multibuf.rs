use pairing_crypto::multibuf::{next_chunk, MultiBuf};

#[test]
fn next_chunk_walks_chunks_then_returns_empty() {
    let mut buf = MultiBuf { chunks: vec![b"fearless".to_vec(), b"concurrency".to_vec()], pos: 0 };
    assert_eq!(next_chunk(&mut buf), b"fearless");
    assert_eq!(buf.pos, 1);
    assert_eq!(next_chunk(&mut buf), b"concurrency");
    assert_eq!(next_chunk(&mut buf), b"");
    assert_eq!(buf.pos, 3);
}

#[test]
fn next_chunk_saturates_position() {
    let mut buf = MultiBuf { chunks: vec![vec![1u8]], pos: usize::MAX };
    assert_eq!(next_chunk(&mut buf), b"");
    assert_eq!(buf.pos, usize::MAX);
}
