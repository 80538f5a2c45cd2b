use solana_block_cacher::model::solana_block::{BlockBatch, Reverse, SerializedSolanaBlock, BATCH_SIZE};

#[test]
fn test_block_batch_new() {
    let global_start_slot: u64 = 100;
    let batch_start_slot: u64 = 150;
    let block_batch = BlockBatch::new(global_start_slot, batch_start_slot);

    assert_eq!(block_batch.sequence_number, 2);
    assert_eq!(block_batch.batch.len(), 0);
}

#[test]
fn test_block_batch_push() {
    let mut block_batch = BlockBatch::new(100, 150);
    let solana_block = SerializedSolanaBlock {
        slot_number: 123,
        data: "block_data".to_string(),
    };

    block_batch.push(solana_block);
    assert_eq!(block_batch.batch.len(), 1);
    assert_eq!(block_batch.batch[0].slot_number, 123);
    assert_eq!(block_batch.batch[0].data, "block_data");
}

#[test]
fn test_block_batch_ordering() {
    let batch1 = BlockBatch::new(100, 150);
    let batch2 = BlockBatch::new(100, 200);

    assert!(batch1 < batch2);
    assert!(batch2 > batch1);
    assert_ne!(batch1, batch2);
}

#[test]
fn test_reverse_ordering() {
    let mut vec = vec![Reverse(3), Reverse(1), Reverse(2)];
    vec.sort_by(|a, b| a.partial_cmp(b).unwrap());
    assert_eq!(vec, vec![Reverse(3), Reverse(2), Reverse(1)]);
}

#[test]
fn sequence_number_counts_windows_from_one() {
    assert_eq!(BlockBatch::new(100, 100).sequence_number, 1);
    assert_eq!(BlockBatch::new(100, 149).sequence_number, 1);
    assert_eq!(BlockBatch::new(100, 199).sequence_number, 2);
    assert_eq!(BlockBatch::new(100, 200).sequence_number, 3);
    assert_eq!(BlockBatch::new(0, 50 * BATCH_SIZE).sequence_number, 51);
}

#[test]
fn batch_starting_before_the_range_gets_number_zero() {
    assert_eq!(BlockBatch::new(100, 99).sequence_number, 0);
    assert_eq!(BlockBatch::new(100, 0).sequence_number, 0);
}

#[test]
fn push_keeps_order_and_sequence_number() {
    let mut batch = BlockBatch::new(0, 0);
    for slot in 0..3u64 {
        batch.push(SerializedSolanaBlock { slot_number: slot, data: format!("block {}", slot) });
    }
    assert_eq!(batch.sequence_number, 1);
    let slots: Vec<u64> = batch.batch.iter().map(|b| b.slot_number).collect();
    assert_eq!(slots, vec![0, 1, 2]);
    assert_eq!(batch.batch[2].data, "block 2");
}

#[test]
fn batches_compare_by_sequence_number_only() {
    let mut a = BlockBatch::new(0, 10);
    let b = BlockBatch::new(0, 20);
    a.push(SerializedSolanaBlock::default());
    assert_eq!(a, b);
    assert!(a <= b && a >= b);
}

#[test]
fn reverse_flips_comparisons() {
    assert!(Reverse(1) > Reverse(2));
    assert!(Reverse(BlockBatch::new(0, 0)) > Reverse(BlockBatch::new(0, 50)));
    assert_eq!(Reverse(4), Reverse(4));
}
