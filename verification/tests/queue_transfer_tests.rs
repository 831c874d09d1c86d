use rshell_core::queue::{ByteQueue, QUEUE_CAPACITY};
use rshell_core::transfer::{assemble_chunks, split_into_chunks, transfer_byte_count, TRANSFER_CHUNK};

#[test]
fn test_queue_fifo_order() {
    let mut q = ByteQueue::new();
    assert!(q.try_enqueue(b"first".to_vec()));
    assert!(q.try_enqueue(b"second".to_vec()));
    assert!(q.try_enqueue(b"third".to_vec()));
    assert_eq!(q.dequeue(), Some(b"first".to_vec()));
    assert_eq!(q.dequeue(), Some(b"second".to_vec()));
    assert_eq!(q.dequeue(), Some(b"third".to_vec()));
    assert_eq!(q.dequeue(), None);
}

#[test]
fn test_queue_rejects_when_full() {
    let mut q = ByteQueue::new();
    for i in 0..QUEUE_CAPACITY {
        assert!(q.try_enqueue(vec![i as u8]));
    }
    // The queue is full: the chunk is rejected, nothing is dropped.
    assert!(!q.try_enqueue(vec![0xff]));
    assert_eq!(q.queued_chunks(), QUEUE_CAPACITY);
    // After one dequeue there is room again.
    assert_eq!(q.dequeue(), Some(vec![0u8]));
    assert!(q.try_enqueue(vec![0xff]));
}

#[test]
fn test_transfer_round_trip_empty() {
    let data: Vec<u8> = Vec::new();
    let chunks = split_into_chunks(&data);
    assert!(chunks.is_empty());
    assert_eq!(assemble_chunks(&chunks), data);
}

#[test]
fn test_transfer_round_trip_single_byte() {
    let data = vec![0x42u8];
    let chunks = split_into_chunks(&data);
    assert_eq!(chunks.len(), 1);
    assert_eq!(assemble_chunks(&chunks), data);
}

#[test]
fn test_transfer_round_trip_multi_chunk() {
    // Larger than 64 KB: spans three transfer chunks.
    let data: Vec<u8> = (0..70000u32).map(|i| (i % 251) as u8).collect();
    let chunks = split_into_chunks(&data);
    assert_eq!(chunks.len(), 3);
    assert!(chunks.iter().all(|c| c.len() <= TRANSFER_CHUNK));
    assert_eq!(chunks[0].len(), TRANSFER_CHUNK);
    assert_eq!(assemble_chunks(&chunks), data);
}

#[test]
fn test_transfer_byte_count_matches_payload() {
    let data = vec![1u8, 2, 3, 4, 5];
    assert_eq!(transfer_byte_count(&data), 5);
    let empty: Vec<u8> = Vec::new();
    assert_eq!(transfer_byte_count(&empty), 0);
}
