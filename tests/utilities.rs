use anchor_lang::prelude::Pubkey;
use solana_e_commerce::address::{derive_address, same_address, verify_pda};
use solana_e_commerce::clock::{calculate_time_diff, get_current_timestamp};
use solana_e_commerce::error::ErrorCode;
use solana_e_commerce::id_generator::{GlobalIdRoot, IdChunk, MerchantIdAccount};
use solana_e_commerce::keyword_index::{KeywordRoot, KeywordShard};
use solana_e_commerce::pagination::{
    calculate_range, paginate_slice, validate_pagination, ErrorCode as PageError, PaginationParams,
    PaginationResult,
};
use solana_e_commerce::price_index::PriceIndexNode;
use solana_e_commerce::sales_index::{
    add_product_to_sales_index_at, add_product_to_sales_index_if_needed, update_global_bestsellers,
    SalesIndexNode,
};
use solana_e_commerce::search::{
    binary_search_range, generate_seed, intersect_sorted_vecs, is_sorted, union_sorted_vecs,
    SearchFilter, SearchResult,
};

#[test]
fn derived_addresses_match_the_runtime() {
    let program_id = [42u8; 32];
    let seeds = vec![b"prefix_index".to_vec(), b"test".to_vec()];
    let (addr, bump) = derive_address(&seeds, &program_id).unwrap();
    let (expected, expected_bump) =
        Pubkey::find_program_address(&[b"prefix_index", b"test"], &Pubkey::new_from_array(program_id));
    assert_eq!(addr, expected.to_bytes());
    assert_eq!(bump, expected_bump);
    assert_eq!(verify_pda(&addr, &seeds, &program_id), Ok(bump));
    assert_eq!(verify_pda(&[0u8; 32], &seeds, &program_id), Err(ErrorCode::InvalidPda));
    assert_ne!(addr, program_id);
}

#[test]
fn oversized_seeds_are_refused() {
    let program_id = [42u8; 32];
    assert_eq!(derive_address(&vec![vec![1u8; 33]], &program_id), Err(ErrorCode::InvalidAccountSeeds));
    assert_eq!(derive_address(&vec![vec![1u8]; 16], &program_id), Err(ErrorCode::InvalidAccountSeeds));
}

#[test]
fn address_comparison() {
    assert!(same_address(&[3u8; 32], &[3u8; 32]));
    let mut other = [3u8; 32];
    other[31] = 4;
    assert!(!same_address(&[3u8; 32], &other));
}

#[test]
fn record_seeds_are_tag_and_fields() {
    assert_eq!(GlobalIdRoot::seeds(), vec![b"global_id_root".to_vec()]);
    assert_eq!(
        MerchantIdAccount::seeds(&[5u8; 32]),
        vec![b"merchant_id".to_vec(), vec![5u8; 32]]
    );
    assert_eq!(
        IdChunk::seeds(7, 258),
        vec![b"id_chunk".to_vec(), 7u32.to_le_bytes().to_vec(), 258u32.to_le_bytes().to_vec()]
    );
    assert_eq!(KeywordRoot::seeds("phone"), vec![b"keyword_root".to_vec(), b"phone".to_vec()]);
    assert_eq!(
        KeywordShard::seeds("phone", 3),
        vec![b"keyword_shard".to_vec(), b"phone".to_vec(), 3u32.to_le_bytes().to_vec()]
    );
    assert_eq!(
        PriceIndexNode::seeds(8, 16),
        vec![b"price_index".to_vec(), 8u64.to_le_bytes().to_vec(), 16u64.to_le_bytes().to_vec()]
    );
    assert_eq!(
        SalesIndexNode::seeds(0, 999),
        vec![b"sales_index".to_vec(), 0u32.to_le_bytes().to_vec(), 999u32.to_le_bytes().to_vec()]
    );
}

#[test]
fn clock_is_unavailable_off_chain() {
    assert_eq!(get_current_timestamp(), Err(ErrorCode::InvalidTimestamp));
    let mut node = SalesIndexNode::default();
    assert_eq!(
        add_product_to_sales_index_if_needed(&mut node, 0, 999, 1, 5, 0),
        Err(ErrorCode::InvalidTimestamp)
    );
    assert!(node.product_ids.is_empty());
    assert_eq!(node.add_product(1, 5), Err(ErrorCode::InvalidTimestamp));
}

#[test]
fn time_differences() {
    assert_eq!(calculate_time_diff(100, 160), 60);
    assert_eq!(calculate_time_diff(160, 100), 0);
    assert_eq!(calculate_time_diff(-5, 5), 10);
}

#[test]
fn bestsellers_across_nodes() {
    let mut a = SalesIndexNode::default();
    let mut b = SalesIndexNode::default();
    add_product_to_sales_index_at(&mut a, 0, 999, 1, 50, 1, 0).unwrap();
    add_product_to_sales_index_at(&mut a, 0, 999, 2, 900, 1, 0).unwrap();
    add_product_to_sales_index_at(&mut b, 0, 999, 1, 700, 2, 0).unwrap();
    add_product_to_sales_index_at(&mut b, 0, 999, 3, 300, 2, 0).unwrap();
    let best = update_global_bestsellers(&vec![a, b]);
    let ranked: Vec<(u64, u32)> = best.iter().map(|e| (e.product_id, e.sales)).collect();
    assert_eq!(ranked, vec![(2, 900), (1, 700), (3, 300)]);
    assert!(update_global_bestsellers(&vec![]).is_empty());
}

#[test]
fn bestsellers_are_cut_to_limit() {
    let mut nodes = Vec::new();
    for n in 0..6u64 {
        let mut node = SalesIndexNode::default();
        for k in 0..20u64 {
            let id = n * 100 + k;
            add_product_to_sales_index_at(&mut node, 0, 999, id, (id % 997) as u32 + 1, 0, 0).unwrap();
        }
        nodes.push(node);
    }
    let best = update_global_bestsellers(&nodes);
    assert_eq!(best.len(), 100);
    for w in best.windows(2) {
        assert!(w[0].sales >= w[1].sales);
    }
}

#[test]
fn page_parameters() {
    let p = PaginationParams::new(2, 500);
    assert_eq!(p.page_size, 100);
    assert_eq!(PaginationParams::new(0, 0).page_size, 1);
    assert_eq!(p.offset(), 200);
    assert_eq!(p.limit(), 100);
    let d = PaginationParams::default();
    assert_eq!((d.page, d.page_size), (0, 20));
    assert_eq!(validate_pagination(&PaginationParams { page: 0, page_size: 0 }), Err(PageError::InvalidPageSize));
    assert_eq!(
        validate_pagination(&PaginationParams { page: 0, page_size: 101 }),
        Err(PageError::PageSizeTooLarge)
    );
    assert_eq!(validate_pagination(&d), Ok(()));
    assert_eq!(calculate_range(PaginationParams { page: 3, page_size: 10 }), (30, 40));
}

#[test]
fn slicing_pages() {
    let data: Vec<u64> = (1..=25).collect();
    let page = paginate_slice(&data, PaginationParams { page: 2, page_size: 10 });
    assert_eq!(page.items, vec![21, 22, 23, 24, 25]);
    assert_eq!(page.total_count, 25);
    assert_eq!(page.total_pages, 3);
    assert!(!page.has_next);
    assert!(page.has_prev);
    let first = paginate_slice(&data, PaginationParams { page: 0, page_size: 10 });
    assert!(first.has_next && !first.has_prev);
    let past = paginate_slice(&data, PaginationParams { page: 5, page_size: 10 });
    assert!(past.items.is_empty());
    let empty: PaginationResult<u64> = PaginationResult::empty(PaginationParams { page: 0, page_size: 10 });
    assert_eq!(empty.total_pages, 0);
}

#[test]
fn search_result_next_offset() {
    let r = SearchResult::new(vec![1, 2], 10, 0, 2);
    assert!(r.has_more);
    assert_eq!(r.next_offset, 2);
    let last = SearchResult::new(vec![9, 10], 10, 8, 2);
    assert!(!last.has_more);
    assert_eq!(last.next_offset, 10);
    let f = SearchFilter::default();
    assert!(f.is_active_only && f.keywords.is_none());
}

#[test]
fn sorted_list_operations() {
    assert!(is_sorted(&[1, 2, 2, 5]));
    assert!(!is_sorted(&[3, 1]));
    assert!(is_sorted(&[]));
    assert_eq!(intersect_sorted_vecs(&[1, 3, 5, 7], &[2, 3, 7, 9]), vec![3, 7]);
    assert_eq!(intersect_sorted_vecs(&[], &[1]), Vec::<u64>::new());
    assert_eq!(union_sorted_vecs(&[1, 3, 5], &[2, 3, 9]), vec![1, 2, 3, 5, 9]);
    assert_eq!(union_sorted_vecs(&[], &[4]), vec![4]);
    assert_eq!(binary_search_range(&[1, 3, 5, 7, 9], 3, 7), (1, 4));
    assert_eq!(binary_search_range(&[1, 3, 5, 7, 9], 4, 4), (2, 2));
    assert_eq!(binary_search_range(&[1, 3, 5], 0, 100), (0, 3));
}

#[test]
fn seeds_mix_deterministically() {
    let h = 7u64.wrapping_mul(0x9e3779b97f4a7c15).wrapping_add(9).wrapping_mul(0x85ebca6b);
    assert_eq!(generate_seed(7, 9), h.rotate_left(13));
    assert_ne!(generate_seed(7, 9), generate_seed(9, 7));
}
