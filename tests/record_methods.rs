use solana_e_commerce::error::ErrorCode;
use solana_e_commerce::id_generator::IdChunk;
use solana_e_commerce::keyword_index::{KeywordRoot, KeywordShard, MAX_PRODUCTS_PER_SHARD};
use solana_e_commerce::price_index::PriceIndexNode;
use solana_e_commerce::sales_index::SalesIndexNode;

#[test]
fn chunk_bit_methods() {
    let mut c = IdChunk {
        merchant_id: 1,
        chunk_index: 0,
        start_id: 10,
        end_id: 29,
        next_available: 0,
        bitmap: Vec::new(),
        bump: 0,
    };
    c.initialize_bitmap();
    assert_eq!(c.bitmap, vec![0u8; 3]);
    assert_eq!(c.capacity(), 20);
    assert!(!c.is_full());
    c.mark_id_used(9);
    assert!(c.is_id_used(9));
    assert_eq!(c.bitmap[1], 0b10);
    c.clear_id(9);
    assert!(!c.is_id_used(9));
    c.mark_id_used(1000);
    assert!(!c.is_id_used(1000));
    assert_eq!(c.bitmap, vec![0u8; 3]);
    c.next_available = 20;
    assert!(c.is_full());
}

#[test]
fn shard_methods_keep_bounds_and_summary() {
    let mut shard = KeywordShard::default();
    assert_eq!(shard.initialize(String::from("shoes"), 2, [4u8; 32], 9), Ok(()));
    assert_eq!(shard.min_id, u64::MAX);
    shard.add_product(50).unwrap();
    shard.add_product(20).unwrap();
    shard.add_product(80).unwrap();
    shard.add_product(20).unwrap();
    assert_eq!(shard.product_ids, vec![50, 20, 80]);
    assert_eq!((shard.min_id, shard.max_id), (20, 80));
    assert_ne!(shard.bloom_summary, [0u8; 32]);
    assert_eq!(shard.remove_product(20), Ok(true));
    assert_eq!((shard.min_id, shard.max_id), (50, 80));
    assert_eq!(shard.remove_product(20), Ok(false));
    shard.remove_product(50).unwrap();
    shard.remove_product(80).unwrap();
    assert_eq!((shard.min_id, shard.max_id), (u64::MAX, 0));
    assert_eq!(shard.bloom_summary, [0u8; 32]);
    assert!(shard.needs_merge());
    assert!(!shard.is_full());
    assert_eq!(
        shard.initialize("x".repeat(40), 0, [0u8; 32], 0),
        Err(ErrorCode::InvalidKeywordLength)
    );
    assert_eq!(shard.keyword, "shoes");
}

#[test]
fn shard_rejects_new_listing_when_full() {
    let mut shard = KeywordShard::default();
    for id in 0..MAX_PRODUCTS_PER_SHARD as u64 {
        shard.add_product(id).unwrap();
    }
    assert!(shard.is_full());
    assert_eq!(shard.add_product(5), Ok(()));
    assert_eq!(shard.add_product(5000), Err(ErrorCode::ShardIsFull));
}

#[test]
fn root_methods() {
    let mut root = KeywordRoot::default();
    assert_eq!(root.initialize(String::from("bags"), 3), Ok(()));
    assert_eq!(root.total_shards, 0);
    root.add_shard([1u8; 32]);
    root.add_shard([2u8; 32]);
    assert_eq!(root.first_shard, [1u8; 32]);
    assert_eq!(root.last_shard, [2u8; 32]);
    assert_eq!(root.total_shards, 2);
    assert!(!root.might_contain(12));
    root.update_bloom_filter(12);
    assert!(root.might_contain(12));
}

#[test]
fn price_node_methods() {
    let mut node = PriceIndexNode::default();
    node.initialize(100, 199, 3);
    assert_eq!(node.height, 1);
    assert!(node.is_leaf());
    assert!(node.contains_price(150));
    assert!(!node.contains_price(200));
    assert_eq!(node.add_product(1, 150), Ok(()));
    assert_eq!(node.add_product(2, 250), Err(ErrorCode::InvalidPriceRange));
    assert_eq!(node.get_products_in_range(0, 120), vec![1]);
    assert_eq!(node.get_products_in_range(200, 300), Vec::<u64>::new());
    node.left_child = Some([1u8; 32]);
    assert_eq!(node.balance_factor(), -1);
    node.update_height(3, 5);
    assert_eq!(node.height, 6);
    assert!(!node.needs_split());
    assert!(node.needs_merge());
}

#[test]
fn sales_node_methods() {
    let mut node = SalesIndexNode::default();
    node.initialize(0, 999, 0);
    node.add_product_at(1, 10, 100).unwrap();
    node.add_product_at(2, 30, 100).unwrap();
    node.add_product_at(3, 20, 100).unwrap();
    let ranked: Vec<u64> = node.top_items.iter().map(|e| e.product_id).collect();
    assert_eq!(ranked, vec![2, 3, 1]);
    node.update_product_sales_at(1, 40, 200);
    assert_eq!(node.top_items[0].product_id, 1);
    assert_eq!(node.top_items[0].last_update, 200);
    node.update_product_sales_at(9, 99, 200);
    assert_eq!(node.top_items.len(), 3);
    node.update_top_items_at(3, 30, 300);
    let ranked: Vec<u64> = node.top_items.iter().map(|e| e.product_id).collect();
    assert_eq!(ranked, vec![1, 2, 3]);
    node.remove_from_top_items(2);
    assert_eq!(node.top_items.len(), 2);
    assert_eq!(node.get_top_products(1).len(), 1);
    assert!(node.contains_sales(999));
    assert_eq!(node.add_product_at(4, 1000, 0), Err(ErrorCode::InvalidSalesRange));
    assert_eq!(node.remove_product(3), Ok(true));
    assert_eq!(node.product_ids, vec![1, 2]);
    assert_eq!(node.update_top_items(5, 5), Err(ErrorCode::InvalidTimestamp));
    assert_eq!(node.update_product_sales(1, 5), Err(ErrorCode::InvalidTimestamp));
}
