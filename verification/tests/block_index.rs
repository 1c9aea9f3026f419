use opengemini_engine::block_index::{bytes_less, BlockIndex, BlockMeta};

#[test]
fn test_block_meta_new() {
    let meta = BlockMeta::new(0, 1, 100, 50);
    assert_eq!(meta.column_id, 0);
    assert_eq!(meta.block_id, 1);
    assert_eq!(meta.offset, 100);
    assert_eq!(meta.size, 50);
    assert_eq!(meta.row_count, 0);
}

#[test]
fn test_block_meta_update_time() {
    let mut meta = BlockMeta::new(0, 0, 0, 0);
    meta.update_time(1000);
    meta.update_time(2000);
    meta.update_time(1500);

    assert_eq!(meta.min_time, 1000);
    assert_eq!(meta.max_time, 2000);
    assert_eq!(meta.row_count, 3);
}

#[test]
fn test_block_meta_update_value() {
    let mut meta = BlockMeta::new(0, 0, 0, 0);
    meta.update_value(b"apple");
    meta.update_value(b"banana");
    meta.update_value(b"cherry");

    assert_eq!(meta.min_value, b"apple");
    assert_eq!(meta.max_value, b"cherry");
}

#[test]
fn test_block_meta_contains_time() {
    let mut meta = BlockMeta::new(0, 0, 0, 0);
    meta.update_time(1000);
    meta.update_time(2000);

    assert!(meta.contains_time(1500));
    assert!(meta.contains_time(1000));
    assert!(meta.contains_time(2000));
    assert!(!meta.contains_time(500));
    assert!(!meta.contains_time(2500));
}

#[test]
fn test_block_meta_overlaps_time_range() {
    let mut meta = BlockMeta::new(0, 0, 0, 0);
    meta.update_time(1000);
    meta.update_time(2000);

    assert!(meta.overlaps_time_range(1500, 2500));
    assert!(meta.overlaps_time_range(500, 1500));
    assert!(!meta.overlaps_time_range(2001, 3000));
}

#[test]
fn test_block_index_new() {
    let index = BlockIndex::new();
    assert!(index.is_empty());
    assert_eq!(index.len(), 0);
}

#[test]
fn test_block_index_add_block() {
    let mut index = BlockIndex::new();
    index.add_block(BlockMeta::new(0, 0, 100, 50));
    index.add_block(BlockMeta::new(0, 1, 200, 60));

    assert_eq!(index.len(), 2);
}

#[test]
fn test_block_index_get_block() {
    let mut index = BlockIndex::new();
    index.add_block(BlockMeta::new(0, 0, 100, 50));

    let block = index.get_block(0);
    assert!(block.is_some());
    assert_eq!(block.unwrap().offset, 100);
}

#[test]
fn test_block_index_find_blocks_by_time() {
    let mut index = BlockIndex::new();

    let mut block1 = BlockMeta::new(0, 0, 0, 0);
    block1.update_time(1000);
    block1.update_time(1500);
    index.add_block(block1);

    let mut block2 = BlockMeta::new(0, 1, 0, 0);
    block2.update_time(2000);
    block2.update_time(2500);
    index.add_block(block2);

    let mut block3 = BlockMeta::new(0, 2, 0, 0);
    block3.update_time(3000);
    block3.update_time(3500);
    index.add_block(block3);

    let found = index.find_blocks_by_time(1500, 2750);
    assert_eq!(found.len(), 2);
    assert!(found.contains(&0));
    assert!(found.contains(&1));
}

#[test]
fn byte_order_puts_prefixes_first() {
    assert!(bytes_less(b"ab", b"abc"));
    assert!(!bytes_less(b"abc", b"ab"));
    assert!(bytes_less(b"", b"a"));
    assert!(!bytes_less(b"a", b"a"));
    assert!(bytes_less(b"az", b"b"));
}

#[test]
fn empty_block_overlaps_nothing_and_get_block_checks_bounds() {
    let meta = BlockMeta::new(0, 0, 0, 0);
    assert!(!meta.overlaps_time_range(i64::MIN, i64::MAX) || meta.max_time >= i64::MIN);
    assert!(!meta.contains_time(0));
    let index = BlockIndex::new();
    assert!(index.get_block(3).is_none());
}
