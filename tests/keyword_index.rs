use solana_e_commerce::error::ErrorCode;
use solana_e_commerce::keyword_index::{
    add_product_to_keyword_index_if_needed, check_shard_merge_needed, check_shard_split_needed,
    close_keyword_root, close_keyword_shard, create_keyword_shard, initialize_keyword_index_if_needed,
    remove_product_from_keyword_index, search_keyword_index, KeywordRoot, KeywordShard,
    MAX_PRODUCTS_PER_SHARD,
};

const SHARD0: [u8; 32] = [1u8; 32];

fn phone_index(ids: &[u64]) -> (KeywordRoot, KeywordShard, String) {
    let keyword = String::from("phone");
    let mut root = KeywordRoot::default();
    let mut shard = KeywordShard::default();
    for &id in ids {
        add_product_to_keyword_index_if_needed(&mut root, &mut shard, &keyword, id, &SHARD0, 1, 2).unwrap();
    }
    (root, shard, keyword)
}

#[test]
fn phone_insert_remove_keeps_false_positive() {
    let (mut root, mut shard, keyword) = phone_index(&[1, 2, 3]);
    assert_eq!(root.total_products, 3);
    assert_eq!(root.total_shards, 1);
    assert_eq!(root.first_shard, SHARD0);
    assert_eq!(shard.product_ids, vec![1, 2, 3]);
    assert_eq!(remove_product_from_keyword_index(&mut root, &mut shard, &keyword, 2), Ok(true));
    assert_eq!(root.total_products, 2);
    assert_eq!(shard.product_ids, vec![1, 3]);
    assert!(root.might_contain(2));
    assert_eq!(shard.min_id, 1);
    assert_eq!(shard.max_id, 3);
}

#[test]
fn inserting_twice_changes_nothing() {
    let (mut root, mut shard, keyword) = phone_index(&[5, 6]);
    let filter = root.bloom_filter;
    add_product_to_keyword_index_if_needed(&mut root, &mut shard, &keyword, 5, &SHARD0, 1, 2).unwrap();
    assert_eq!(shard.product_ids, vec![5, 6]);
    assert_eq!(root.total_products, 2);
    assert_eq!(root.bloom_filter, filter);
}

#[test]
fn removing_unknown_id_is_not_found() {
    let (mut root, mut shard, keyword) = phone_index(&[5, 6]);
    let filter = root.bloom_filter;
    let summary = shard.bloom_summary;
    assert_eq!(remove_product_from_keyword_index(&mut root, &mut shard, &keyword, 99), Ok(false));
    assert_eq!(shard.product_ids, vec![5, 6]);
    assert_eq!(root.total_products, 2);
    assert_eq!(root.bloom_filter, filter);
    assert_eq!(shard.bloom_summary, summary);
}

#[test]
fn records_of_another_keyword_are_rejected() {
    let (mut root, mut shard, _) = phone_index(&[1]);
    let other = String::from("laptop");
    assert_eq!(
        add_product_to_keyword_index_if_needed(&mut root, &mut shard, &other, 2, &SHARD0, 1, 2),
        Err(ErrorCode::InvalidKeyword)
    );
    assert_eq!(
        remove_product_from_keyword_index(&mut root, &mut shard, &other, 1),
        Err(ErrorCode::InvalidKeyword)
    );
    assert_eq!(shard.product_ids, vec![1]);
}

#[test]
fn bad_keywords_are_rejected() {
    let mut root = KeywordRoot::default();
    let mut shard = KeywordShard::default();
    let empty = String::new();
    let long = "k".repeat(33);
    assert_eq!(
        add_product_to_keyword_index_if_needed(&mut root, &mut shard, &empty, 1, &SHARD0, 1, 2),
        Err(ErrorCode::InvalidKeywordLength)
    );
    assert_eq!(
        initialize_keyword_index_if_needed(&mut root, &mut shard, &long, &SHARD0, 1, 2),
        Err(ErrorCode::InvalidKeywordLength)
    );
    assert!(root.keyword.is_empty());
}

#[test]
fn full_shard_is_rejected() {
    let ids: Vec<u64> = (0..MAX_PRODUCTS_PER_SHARD as u64).collect();
    let (mut root, mut shard, keyword) = phone_index(&ids);
    assert_eq!(shard.product_ids.len(), MAX_PRODUCTS_PER_SHARD);
    assert_eq!(
        add_product_to_keyword_index_if_needed(&mut root, &mut shard, &keyword, 1000, &SHARD0, 1, 2),
        Err(ErrorCode::ShardIsFull)
    );
    assert_eq!(root.total_products, MAX_PRODUCTS_PER_SHARD as u32);
    assert!(check_shard_split_needed(&shard));
    assert!(!check_shard_merge_needed(&shard));
}

#[test]
fn initialization_is_idempotent() {
    let keyword = String::from("tablet");
    let mut root = KeywordRoot::default();
    let mut shard = KeywordShard::default();
    initialize_keyword_index_if_needed(&mut root, &mut shard, &keyword, &SHARD0, 4, 5).unwrap();
    assert_eq!(root.keyword, "tablet");
    assert_eq!(root.total_shards, 1);
    assert_eq!(shard.shard_index, 0);
    assert_eq!(shard.bump, 5);
    add_product_to_keyword_index_if_needed(&mut root, &mut shard, &keyword, 8, &SHARD0, 4, 5).unwrap();
    initialize_keyword_index_if_needed(&mut root, &mut shard, &keyword, &[9u8; 32], 6, 7).unwrap();
    assert_eq!(shard.product_ids, vec![8]);
    assert_eq!(root.first_shard, SHARD0);
    assert_eq!(root.bump, 4);
}

#[test]
fn shard_chain_grows_in_order() {
    let (mut root, mut shard, keyword) = phone_index(&[1]);
    let next = [2u8; 32];
    assert_eq!(
        create_keyword_shard(&mut root, &mut shard, &keyword, 2, &SHARD0, &next, 3).err(),
        Some(ErrorCode::InvalidShardIndex)
    );
    let new_shard = create_keyword_shard(&mut root, &mut shard, &keyword, 1, &SHARD0, &next, 3).unwrap();
    assert_eq!(new_shard.shard_index, 1);
    assert_eq!(new_shard.prev_shard, SHARD0);
    assert!(new_shard.product_ids.is_empty());
    assert_eq!(shard.next_shard, Some(next));
    assert_eq!(root.total_shards, 2);
    assert_eq!(root.last_shard, next);
    assert_eq!(root.first_shard, SHARD0);
}

#[test]
fn search_pages_through_one_shard() {
    let (root, shard, keyword) = phone_index(&[10, 20, 30, 40, 50]);
    assert_eq!(search_keyword_index(&root, &shard, &keyword, 1, 2), Ok(vec![20, 30]));
    assert_eq!(search_keyword_index(&root, &shard, &keyword, 4, 10), Ok(vec![50]));
    assert_eq!(search_keyword_index(&root, &shard, &keyword, 5, 10), Ok(vec![]));
    let (mut emptied, mut other, _) = phone_index(&[7]);
    remove_product_from_keyword_index(&mut emptied, &mut other, &keyword, 7).unwrap();
    assert_eq!(emptied.total_products, 0);
    assert_eq!(search_keyword_index(&emptied, &shard, &keyword, 0, 10), Ok(vec![]));
}

#[test]
fn closing_keyword_records() {
    let (mut root, mut shard, keyword) = phone_index(&[1]);
    assert_eq!(close_keyword_root(&root, &keyword, false), Err(ErrorCode::KeywordIndexNotEmpty));
    assert_eq!(close_keyword_shard(&shard, &keyword, 0, false), Err(ErrorCode::KeywordShardNotEmpty));
    assert_eq!(close_keyword_shard(&shard, &keyword, 1, true), Err(ErrorCode::InvalidShardIndex));
    assert_eq!(close_keyword_root(&root, &keyword, true), Ok(()));
    remove_product_from_keyword_index(&mut root, &mut shard, &keyword, 1).unwrap();
    assert_eq!(close_keyword_root(&root, &keyword, false), Ok(()));
    assert_eq!(close_keyword_shard(&shard, &keyword, 0, false), Ok(()));
    assert_eq!(close_keyword_root(&root, &String::from("x"), true), Err(ErrorCode::InvalidKeyword));
}
