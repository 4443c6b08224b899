use anchor_lang::prelude::Pubkey;
use solana_e_commerce::error::ErrorCode;
use solana_e_commerce::id_generator::{
    allocate_id_in_chunk, allocate_new_chunk, batch_generate_ids, close_id_chunk,
    close_merchant_id_account, generate_product_id, initialize_system, is_id_exists,
    register_merchant_ids, release_id, release_id_in_chunk, should_preallocate_chunk,
    switch_or_allocate_chunk, IdChunk, MerchantIdAccount,
};

fn merchant(id: u32, active: [u8; 32]) -> MerchantIdAccount {
    MerchantIdAccount {
        merchant_id: id,
        last_chunk_index: 0,
        last_local_id: 0,
        active_chunk: active,
        unused_chunks: Vec::new(),
        bump: 0,
    }
}

fn chunk(start: u64, capacity: u64) -> IdChunk {
    IdChunk {
        merchant_id: 1,
        chunk_index: 0,
        start_id: start,
        end_id: start + capacity - 1,
        next_available: 0,
        bitmap: vec![0u8; ((capacity + 7) / 8) as usize],
        bump: 0,
    }
}

fn used_bits(c: &IdChunk) -> u32 {
    c.bitmap.iter().map(|b| b.count_ones()).sum()
}

#[test]
fn four_ids_then_exhaustion_then_reuse() {
    let mut m = merchant(1, [0u8; 32]);
    let mut c = chunk(10000, 4);
    for expected in 10000..10004u64 {
        assert_eq!(allocate_id_in_chunk(&mut m, &mut c), Ok(expected));
    }
    assert_eq!(allocate_id_in_chunk(&mut m, &mut c), Err(ErrorCode::NoAvailableId));
    assert_eq!(c.next_available, 4);
    assert_eq!(release_id(&mut c, 10001), Ok(()));
    assert_eq!(allocate_id_in_chunk(&mut m, &mut c), Ok(10001));
    assert_eq!(m.last_local_id, 1);
}

#[test]
fn capacity_allocations_then_failure() {
    let mut m = merchant(2, [0u8; 32]);
    let mut c = chunk(20000, 13);
    let mut seen = Vec::new();
    for _ in 0..13 {
        let id = generate_product_id(&mut m, &mut c).unwrap();
        assert!(!seen.contains(&id));
        seen.push(id);
    }
    assert_eq!(generate_product_id(&mut m, &mut c), Err(ErrorCode::NoAvailableId));
    assert_eq!(used_bits(&c), 13);
}

#[test]
fn released_offset_found_after_cursor_wraps() {
    let mut m = merchant(1, [0u8; 32]);
    let mut c = chunk(500, 10);
    for _ in 0..6 {
        allocate_id_in_chunk(&mut m, &mut c).unwrap();
    }
    release_id_in_chunk(&mut c, 502).unwrap();
    // Free offsets ahead of the cursor come first, then the released one.
    for expected in 506..510u64 {
        assert_eq!(allocate_id_in_chunk(&mut m, &mut c), Ok(expected));
    }
    assert_eq!(allocate_id_in_chunk(&mut m, &mut c), Ok(502));
    assert_eq!(allocate_id_in_chunk(&mut m, &mut c), Err(ErrorCode::NoAvailableId));
}

#[test]
fn set_bits_track_allocations_minus_releases() {
    let mut m = merchant(1, [0u8; 32]);
    let mut c = chunk(0, 20);
    for _ in 0..9 {
        allocate_id_in_chunk(&mut m, &mut c).unwrap();
    }
    release_id(&mut c, 3).unwrap();
    release_id(&mut c, 7).unwrap();
    assert_eq!(used_bits(&c), 7);
    assert!(c.next_available <= 20);
    release_id(&mut c, 15).unwrap();
    assert_eq!(used_bits(&c), 7);
}

#[test]
fn release_outside_chunk_is_rejected() {
    let mut c = chunk(100, 8);
    assert_eq!(release_id(&mut c, 99), Err(ErrorCode::InvalidId));
    assert_eq!(release_id(&mut c, 108), Err(ErrorCode::InvalidId));
}

#[test]
fn batch_is_all_or_nothing() {
    let active = [7u8; 32];
    let mut m = merchant(1, active);
    let mut c = chunk(1000, 5);
    assert_eq!(batch_generate_ids(&mut m, &mut c, &active, 3), Ok(vec![1000, 1001, 1002]));
    assert_eq!(m.last_local_id, 2);
    let before = c.bitmap.clone();
    assert_eq!(batch_generate_ids(&mut m, &mut c, &active, 3), Err(ErrorCode::NoAvailableId));
    assert_eq!(c.bitmap, before);
    assert_eq!(c.next_available, 3);
    assert_eq!(batch_generate_ids(&mut m, &mut c, &active, 2), Ok(vec![1003, 1004]));
}

#[test]
fn batch_checks_chunk_and_count() {
    let active = [7u8; 32];
    let mut m = merchant(1, active);
    let mut c = chunk(1000, 5);
    assert_eq!(batch_generate_ids(&mut m, &mut c, &[8u8; 32], 1), Err(ErrorCode::InvalidActiveChunk));
    assert_eq!(batch_generate_ids(&mut m, &mut c, &active, 0), Err(ErrorCode::InvalidId));
    assert_eq!(batch_generate_ids(&mut m, &mut c, &active, 101), Err(ErrorCode::InvalidId));
}

#[test]
fn preallocation_hint_above_eighty_percent() {
    let mut c = chunk(0, 10);
    c.next_available = 8;
    assert!(!should_preallocate_chunk(&c));
    c.next_available = 9;
    assert!(should_preallocate_chunk(&c));
}

#[test]
fn closing_needs_empty_records_unless_forced() {
    let mut m = merchant(1, [0u8; 32]);
    let mut c = chunk(0, 8);
    assert_eq!(close_id_chunk(&c, false), Ok(()));
    allocate_id_in_chunk(&mut m, &mut c).unwrap();
    assert_eq!(close_id_chunk(&c, false), Err(ErrorCode::IdChunkNotEmpty));
    assert_eq!(close_id_chunk(&c, true), Ok(()));
    release_id(&mut c, 0).unwrap();
    assert_eq!(close_id_chunk(&c, false), Ok(()));
    m.unused_chunks.push([1u8; 32]);
    assert_eq!(close_merchant_id_account(&m, false), Err(ErrorCode::MerchantIdAccountNotEmpty));
    assert_eq!(close_merchant_id_account(&m, true), Ok(()));
}

#[test]
fn registration_derives_addresses_and_first_chunk() {
    let program_id = [3u8; 32];
    let owner = [9u8; 32];
    let mut root = initialize_system(100, 100, 10, 256, 255).unwrap();
    let (account, account_address, first, first_address) =
        register_merchant_ids(&mut root, &owner, &program_id).unwrap();
    assert_eq!(account.merchant_id, 1);
    assert_eq!(first.start_id, 1_010_000);
    assert_eq!(first.end_id, 1_010_099);
    assert_eq!(root.last_global_id, 1_010_100);
    assert_eq!(root.merchants, vec![account_address]);
    let pid = Pubkey::new_from_array(program_id);
    let (expected_account, bump) =
        Pubkey::find_program_address(&[b"merchant_id", owner.as_ref()], &pid);
    assert_eq!(account_address, expected_account.to_bytes());
    assert_eq!(account.bump, bump);
    let (expected_chunk, _) =
        Pubkey::find_program_address(&[b"id_chunk", owner.as_ref(), &0u32.to_le_bytes()], &pid);
    assert_eq!(first_address, expected_chunk.to_bytes());
    assert_eq!(account.active_chunk, first_address);
}

#[test]
fn zero_chunk_size_is_rejected() {
    assert!(matches!(initialize_system(0, 100, 10, 256, 0), Err(ErrorCode::InvalidId)));
}

#[test]
fn new_chunk_follows_in_owner_range() {
    let program_id = [3u8; 32];
    let owner = [9u8; 32];
    let mut root = initialize_system(100, 100, 10, 256, 0).unwrap();
    let (mut account, _, _, first_address) =
        register_merchant_ids(&mut root, &owner, &program_id).unwrap();
    let (second, second_address) =
        allocate_new_chunk(&mut root, &mut account, &owner, &program_id).unwrap();
    assert_eq!(second.chunk_index, 1);
    assert_eq!(second.start_id, 1_010_100);
    assert_eq!(second.end_id, 1_010_199);
    assert_eq!(root.last_global_id, 1_010_200);
    assert_eq!(account.unused_chunks, vec![first_address]);
    assert_eq!(account.active_chunk, second_address);
    let (expected, _) = Pubkey::find_program_address(
        &[b"id_chunk", owner.as_ref(), &1u32.to_le_bytes()],
        &Pubkey::new_from_array(program_id),
    );
    assert_eq!(second_address, expected.to_bytes());
}

#[test]
fn new_chunk_past_reserved_range_is_rejected() {
    let program_id = [3u8; 32];
    let owner = [9u8; 32];
    let mut root = initialize_system(600_000, 100, 10, 256, 0).unwrap();
    let (mut account, _, _, _) = register_merchant_ids(&mut root, &owner, &program_id).unwrap();
    assert!(matches!(
        allocate_new_chunk(&mut root, &mut account, &owner, &program_id),
        Err(ErrorCode::IdRangeOverflow)
    ));
    assert_eq!(account.last_chunk_index, 0);
    assert_eq!(root.last_global_id, 1_610_000);
    assert_eq!(
        switch_or_allocate_chunk(&mut account, &mut root, &owner, &program_id),
        Err(ErrorCode::IdRangeOverflow)
    );
}

#[test]
fn default_chunks_fill_the_owner_range_without_overlap() {
    let program_id = [3u8; 32];
    let owner = [9u8; 32];
    let mut root = initialize_system(10_000, 100, 10, 256, 0).unwrap();
    let (mut account, _, first, _) = register_merchant_ids(&mut root, &owner, &program_id).unwrap();
    let (second, _) = allocate_new_chunk(&mut root, &mut account, &owner, &program_id).unwrap();
    assert_eq!(second.start_id, first.end_id + 1);
    account.last_chunk_index = 99;
    account.unused_chunks.clear();
    let (last, _) = allocate_new_chunk(&mut root, &mut account, &owner, &program_id).unwrap();
    assert_eq!(last.chunk_index, 100);
    assert_eq!(last.end_id, 2 * 1_010_000 - 1);
    assert!(matches!(
        allocate_new_chunk(&mut root, &mut account, &owner, &program_id),
        Err(ErrorCode::InvalidShardIndex)
    ));
    assert_eq!(account.last_chunk_index, 100);
}

#[test]
fn switching_reuses_before_growing() {
    let program_id = [3u8; 32];
    let owner = [9u8; 32];
    let mut root = initialize_system(100, 100, 10, 256, 0).unwrap();
    let mut m = merchant(1, [1u8; 32]);
    m.unused_chunks.push([5u8; 32]);
    assert_eq!(switch_or_allocate_chunk(&mut m, &mut root, &owner, &program_id), Ok([5u8; 32]));
    assert_eq!(m.active_chunk, [5u8; 32]);
    assert_eq!(m.last_chunk_index, 1);
    assert_eq!(root.last_global_id, 0);
    let grown = switch_or_allocate_chunk(&mut m, &mut root, &owner, &program_id).unwrap();
    assert_eq!(m.last_chunk_index, 2);
    assert_eq!(root.last_global_id, 100);
    let (expected, _) = Pubkey::find_program_address(
        &[b"id_chunk", owner.as_ref(), &2u32.to_le_bytes()],
        &Pubkey::new_from_array(program_id),
    );
    assert_eq!(grown, expected.to_bytes());
}

#[test]
fn id_existence_checks_chunk_address() {
    let program_id = [3u8; 32];
    let owner = [9u8; 32];
    let mut root = initialize_system(10_000, 100, 10, 256, 0).unwrap();
    let (mut account, _, mut first, first_address) =
        register_merchant_ids(&mut root, &owner, &program_id).unwrap();
    let id = generate_product_id(&mut account, &mut first).unwrap();
    assert_eq!(id, 1_010_000);
    assert_eq!(is_id_exists(&account, &owner, &program_id, &first_address, &first, id), Ok(true));
    assert_eq!(is_id_exists(&account, &owner, &program_id, &first_address, &first, id + 1), Ok(false));
    assert_eq!(is_id_exists(&account, &owner, &program_id, &first_address, &first, 5), Ok(false));
    assert_eq!(
        is_id_exists(&account, &owner, &program_id, &[0u8; 32], &first, id),
        Err(ErrorCode::InvalidPda)
    );
}
