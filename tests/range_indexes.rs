use solana_e_commerce::error::ErrorCode;
use solana_e_commerce::price_index::{
    add_product_to_price_index, calculate_price_range_end, calculate_price_range_start,
    find_price_node_for_price, remove_product_from_price_index, search_price_range,
    should_rebalance_price_tree, split_price_node, PriceIndexNode,
};
use solana_e_commerce::sales_index::{
    add_product_to_sales_index_at, find_sales_node_for_sales, get_top_selling_products,
    remove_product_from_sales_index, search_sales_range, split_sales_node,
    update_product_sales_index_at, SalesIndexNode, TOP_ITEMS_CAPACITY,
};

#[test]
fn test_price_range_calculation() {
    assert_eq!(calculate_price_range_start(15), 8);
    assert_eq!(calculate_price_range_end(15), 16);

    assert_eq!(calculate_price_range_start(1), 1);
    assert_eq!(calculate_price_range_end(1), 1);

    assert_eq!(calculate_price_range_start(8), 8);
    assert_eq!(calculate_price_range_end(8), 16);

    assert_eq!(calculate_price_range_start(16), 16);
    assert_eq!(calculate_price_range_end(16), 32);

    assert_eq!(calculate_price_range_start(0), 0);
    assert_eq!(calculate_price_range_end(0), 0);

    assert_eq!(calculate_price_range_start(2), 2);
    assert_eq!(calculate_price_range_end(2), 4);

    assert_eq!(calculate_price_range_start(7), 4);
    assert_eq!(calculate_price_range_end(7), 8);

    assert_eq!(calculate_price_range_start(50), 32);
    assert_eq!(calculate_price_range_end(50), 64);
}

#[test]
fn largest_price_bucket() {
    let p = (1u64 << 63) - 1;
    assert_eq!(calculate_price_range_start(p), 1u64 << 62);
    assert_eq!(calculate_price_range_end(p), 1u64 << 63);
}

#[test]
fn fixed_width_buckets() {
    assert_eq!(find_price_node_for_price(0), (0, 0));
    assert_eq!(find_price_node_for_price(1999), (1024, 2048));
    assert_eq!(find_price_node_for_price(50), (32, 64));
    assert_eq!(find_sales_node_for_sales(2500), (2000, 2999));
}

#[test]
fn price_insert_creates_bucket_node() {
    let mut node = PriceIndexNode::default();
    assert_eq!(add_product_to_price_index(&mut node, 7, 50, 32, 64, 9), Ok(()));
    assert_eq!((node.price_range_start, node.price_range_end), (32, 64));
    assert_eq!(node.bump, 9);
    assert_eq!(add_product_to_price_index(&mut node, 8, 33, 32, 64, 9), Ok(()));
    assert_eq!(add_product_to_price_index(&mut node, 7, 50, 32, 64, 9), Ok(()));
    assert_eq!(node.product_ids, vec![7, 8]);
    assert_eq!(
        add_product_to_price_index(&mut node, 9, 50, 16, 32, 9),
        Err(ErrorCode::InvalidPriceRange)
    );
    assert_eq!(
        add_product_to_price_index(&mut node, 9, 1u64 << 63, 1u64 << 63, 0, 9),
        Err(ErrorCode::InvalidPriceRange)
    );
    assert_eq!(remove_product_from_price_index(&mut node, 7), Ok(true));
    assert_eq!(remove_product_from_price_index(&mut node, 7), Ok(false));
    assert_eq!(node.product_ids, vec![8]);
    assert!(should_rebalance_price_tree(&node));
}

#[test]
fn price_node_full() {
    let mut node = PriceIndexNode::default();
    for id in 0..1000u64 {
        add_product_to_price_index(&mut node, id, 40, 32, 64, 0).unwrap();
    }
    assert_eq!(
        add_product_to_price_index(&mut node, 5000, 40, 32, 64, 0),
        Err(ErrorCode::ShardIsFull)
    );
    assert_eq!(node.product_ids.len(), 1000);
}

#[test]
fn split_moves_each_listing_to_one_half() {
    let mut node = PriceIndexNode::default();
    let listings = [(1u64, 40u64), (2, 63), (3, 32), (4, 48), (5, 49), (6, 60)];
    for (id, price) in listings {
        add_product_to_price_index(&mut node, id, price, 32, 64, 0).unwrap();
    }
    let prices: Vec<u64> = listings.iter().map(|l| l.1).collect();
    let upper = split_price_node(&mut node, &prices, 32, 64, 4).unwrap();
    assert_eq!((node.price_range_start, node.price_range_end), (32, 48));
    assert_eq!((upper.price_range_start, upper.price_range_end), (49, 64));
    assert_eq!(node.product_ids, vec![1, 3, 4]);
    assert_eq!(upper.product_ids, vec![2, 5, 6]);
    let mut all: Vec<u64> = node.product_ids.iter().chain(upper.product_ids.iter()).copied().collect();
    all.sort();
    assert_eq!(all, vec![1, 2, 3, 4, 5, 6]);
}

#[test]
fn split_rejects_bad_input() {
    let mut node = PriceIndexNode::default();
    add_product_to_price_index(&mut node, 1, 40, 32, 64, 0).unwrap();
    assert_eq!(split_price_node(&mut node, &vec![40], 16, 32, 0).err(), Some(ErrorCode::InvalidPriceRange));
    assert_eq!(split_price_node(&mut node, &vec![], 32, 64, 0).err(), Some(ErrorCode::InvalidPriceRange));
    assert_eq!(split_price_node(&mut node, &vec![70], 32, 64, 0).err(), Some(ErrorCode::InvalidPriceRange));
    assert_eq!(node.price_range_end, 64);
}

#[test]
fn price_search_pages() {
    let mut node = PriceIndexNode::default();
    for id in 1..=5u64 {
        add_product_to_price_index(&mut node, id, 40, 32, 64, 0).unwrap();
    }
    assert_eq!(search_price_range(&node, 0, 100, 1, 2), Ok(vec![2, 3]));
    assert_eq!(search_price_range(&node, 65, 100, 0, 10), Ok(vec![]));
    assert_eq!(search_price_range(&node, 10, 5, 0, 10), Err(ErrorCode::InvalidPriceRange));
}

#[test]
fn sales_top_list_is_ranked_and_bounded() {
    let mut node = SalesIndexNode::default();
    for id in 0..30u64 {
        let sales = ((id * 37) % 999) as u32 + 1;
        add_product_to_sales_index_at(&mut node, 0, 999, id, sales, 1_700_000_000, 0).unwrap();
    }
    assert_eq!(node.product_ids.len(), 30);
    assert_eq!(node.top_items.len(), TOP_ITEMS_CAPACITY);
    for w in node.top_items.windows(2) {
        assert!(w[0].sales >= w[1].sales);
    }
    let top3 = get_top_selling_products(&node, 3);
    assert_eq!(top3.len(), 3);
    assert_eq!(top3[0].product_id, node.top_items[0].product_id);
    assert_eq!(top3[0].last_update, 1_700_000_000);
    let best = (0..30u64).max_by_key(|id| (id * 37) % 999).unwrap();
    assert_eq!(top3[0].product_id, best);
}

#[test]
fn sales_zero_is_listed_but_not_ranked() {
    let mut node = SalesIndexNode::default();
    add_product_to_sales_index_at(&mut node, 0, 999, 4, 0, 10, 0).unwrap();
    assert_eq!(node.product_ids, vec![4]);
    assert!(node.top_items.is_empty());
    assert_eq!(
        add_product_to_sales_index_at(&mut node, 0, 999, 5, 1000, 10, 0),
        Err(ErrorCode::InvalidSalesRange)
    );
}

#[test]
fn sales_update_within_and_across_buckets() {
    let mut low = SalesIndexNode::default();
    let mut high = SalesIndexNode::default();
    add_product_to_sales_index_at(&mut low, 0, 999, 1, 10, 5, 0).unwrap();
    add_product_to_sales_index_at(&mut low, 0, 999, 2, 20, 5, 0).unwrap();
    add_product_to_sales_index_at(&mut high, 1000, 1999, 3, 1500, 5, 0).unwrap();
    update_product_sales_index_at(&mut low, &mut high, 1, 10, 30, 6).unwrap();
    assert_eq!(low.top_items[0].product_id, 1);
    assert_eq!(low.top_items[0].sales, 30);
    assert_eq!(low.top_items.len(), 2);
    update_product_sales_index_at(&mut low, &mut high, 1, 30, 1800, 7).unwrap();
    assert_eq!(low.product_ids, vec![2]);
    assert_eq!(low.top_items.len(), 1);
    assert_eq!(high.product_ids, vec![3, 1]);
    assert_eq!(high.top_items[0].product_id, 1);
    assert_eq!(high.top_items[0].last_update, 7);
    assert_eq!(
        update_product_sales_index_at(&mut low, &mut high, 2, 20, 2500, 8),
        Err(ErrorCode::InvalidSalesRange)
    );
    assert_eq!(remove_product_from_sales_index(&mut high, 1), Ok(true));
    assert_eq!(high.top_items.len(), 1);
    assert_eq!(search_sales_range(&high, 1000, 1200, 0, 5), Ok(vec![3]));
    assert_eq!(search_sales_range(&high, 5, 4, 0, 5), Err(ErrorCode::InvalidSalesRange));
}

#[test]
fn sales_split_moves_listings_and_their_rank_entries() {
    let mut node = SalesIndexNode::default();
    let listings = [(1u64, 100u32), (2, 600), (3, 499), (4, 900)];
    for (id, sales) in listings {
        add_product_to_sales_index_at(&mut node, 0, 999, id, sales, 3, 0).unwrap();
    }
    let sales: Vec<u32> = listings.iter().map(|l| l.1).collect();
    let upper = split_sales_node(&mut node, &sales, 0, 999, 1).unwrap();
    assert_eq!((node.sales_range_start, node.sales_range_end), (0, 499));
    assert_eq!((upper.sales_range_start, upper.sales_range_end), (500, 999));
    assert_eq!(node.product_ids, vec![1, 3]);
    assert_eq!(upper.product_ids, vec![2, 4]);
    let low_top: Vec<u64> = node.top_items.iter().map(|e| e.product_id).collect();
    let high_top: Vec<u64> = upper.top_items.iter().map(|e| e.product_id).collect();
    assert_eq!(low_top, vec![3, 1]);
    assert_eq!(high_top, vec![4, 2]);
    assert_eq!(
        split_sales_node(&mut node, &vec![100], 0, 499, 1).err(),
        Some(ErrorCode::InvalidSalesRange)
    );
}

#[test]
fn price_zero_bucket_keeps_its_listings() {
    let mut node = PriceIndexNode::default();
    add_product_to_price_index(&mut node, 1, 0, 0, 0, 0).unwrap();
    add_product_to_price_index(&mut node, 2, 0, 0, 0, 0).unwrap();
    assert_eq!(node.product_ids, vec![1, 2]);
    let mut one = PriceIndexNode::default();
    add_product_to_price_index(&mut one, 3, 1, 1, 1, 0).unwrap();
    assert_eq!((one.price_range_start, one.price_range_end), (1, 1));
}

#[test]
fn removal_purges_rank_entry_of_unlisted_id() {
    let mut node = SalesIndexNode::default();
    let mut other = SalesIndexNode::default();
    add_product_to_sales_index_at(&mut node, 0, 999, 1, 10, 0, 0).unwrap();
    update_product_sales_index_at(&mut node, &mut other, 7, 5, 50, 1).unwrap();
    assert!(node.top_items.iter().any(|e| e.product_id == 7));
    assert_eq!(node.product_ids, vec![1]);
    assert_eq!(remove_product_from_sales_index(&mut node, 7), Ok(false));
    assert!(node.top_items.iter().all(|e| e.product_id != 7));
    assert_eq!(node.product_ids, vec![1]);
    assert_eq!(node.top_items.len(), 1);
}
