//! Duplicate-free lists of listing identifiers, as every index keeps them.
use vstd::prelude::*;

verus! {

/// The list after inserting `id`: unchanged when it is already there,
/// otherwise `id` appended.
pub open spec fn inserted_ids(ids: Seq<u64>, id: u64) -> Seq<u64> {
    if ids.contains(id) {
        ids
    } else {
        ids.push(id)
    }
}

/// The list after removing `id`: unchanged when it is not there.
pub open spec fn removed_ids(ids: Seq<u64>, id: u64) -> Seq<u64> {
    if ids.contains(id) {
        ids.remove(ids.index_of(id))
    } else {
        ids
    }
}

/// The page of `limit` entries starting at `offset`; empty past the end.
pub open spec fn page_of(ids: Seq<u64>, offset: int, limit: int) -> Seq<u64> {
    if offset >= ids.len() {
        Seq::empty()
    } else if offset + limit <= ids.len() {
        ids.subrange(offset, offset + limit)
    } else {
        ids.subrange(offset, ids.len() as int)
    }
}

/// Inserting an identifier a second time changes nothing.
pub proof fn lemma_insert_idempotent(ids: Seq<u64>, id: u64)
    ensures
        inserted_ids(inserted_ids(ids, id), id) == inserted_ids(ids, id),
        inserted_ids(ids, id).contains(id),
{
    if !ids.contains(id) {
        assert(ids.push(id)[ids.len() as int] == id);
    }
}

/// Removing an identifier that is not listed changes nothing.
pub proof fn lemma_remove_absent(ids: Seq<u64>, id: u64)
    requires
        !ids.contains(id),
    ensures
        removed_ids(ids, id) == ids,
{
}

/// Inserting keeps a list free of duplicates.
pub proof fn lemma_inserted_no_duplicates(ids: Seq<u64>, id: u64)
    requires
        ids.no_duplicates(),
    ensures
        inserted_ids(ids, id).no_duplicates(),
{
}

/// Removing keeps a list free of duplicates and drops every copy of `id`.
pub proof fn lemma_removed_no_duplicates(ids: Seq<u64>, id: u64)
    requires
        ids.no_duplicates(),
    ensures
        removed_ids(ids, id).no_duplicates(),
        !removed_ids(ids, id).contains(id),
        forall|x: u64| x != id ==> (removed_ids(ids, id).contains(x) == ids.contains(x)),
{
    if ids.contains(id) {
        let k = ids.index_of(id);
        let r = ids.remove(k);
        assert forall|x: u64| x != id implies (r.contains(x) == ids.contains(x)) by {
            if ids.contains(x) {
                let j = choose|j: int| 0 <= j < ids.len() && ids[j] == x;
                if j < k {
                    assert(r[j] == x);
                } else {
                    assert(r[j - 1] == x);
                }
            }
        }
        if r.contains(id) {
            let j = choose|j: int| 0 <= j < r.len() && r[j] == id;
            if j < k {
                assert(ids[j] == id);
            } else {
                assert(ids[j + 1] == id);
            }
        }
    }
}

/// Whether `id` is listed.
pub fn contains_id(ids: &Vec<u64>, id: u64) -> (r: bool)
    ensures
        r == ids@.contains(id),
{
    match position_of(ids, id) {
        Some(_) => true,
        None => false,
    }
}

/// Where `id` is listed first.
pub fn position_of(ids: &Vec<u64>, id: u64) -> (r: Option<usize>)
    ensures
        match r {
            Some(i) => i < ids@.len() && ids@[i as int] == id && forall|j: int|
                0 <= j < i ==> ids@[j] != id,
            None => !ids@.contains(id),
        },
{
    let mut i: usize = 0;
    while i < ids.len()
        invariant
            i <= ids@.len(),
            forall|j: int| 0 <= j < i ==> ids@[j] != id,
        decreases ids@.len() - i,
    {
        if ids[i] == id {
            return Some(i);
        }
        i = i + 1;
    }
    None
}

/// Removes `id` from a duplicate-free list; true when it was listed.
pub fn remove_id(ids: &mut Vec<u64>, id: u64) -> (r: bool)
    requires
        old(ids)@.no_duplicates(),
    ensures
        r == old(ids)@.contains(id),
        final(ids)@ == removed_ids(old(ids)@, id),
{
    match position_of(ids, id) {
        Some(i) => {
            proof {
                let k = ids@.index_of(id);
                assert(ids@.contains(id));
                assert(k == i);
            }
            ids.remove(i);
            true
        },
        None => false,
    }
}

/// The page of `limit` entries starting at `offset`.
pub fn page(ids: &Vec<u64>, offset: u32, limit: u16) -> (r: Vec<u64>)
    ensures
        r@ == page_of(ids@, offset as int, limit as int),
{
    let len = ids.len();
    let start = offset as usize;
    if start >= len {
        return Vec::new();
    }
    let end = if (limit as usize) <= len - start {
        start + limit as usize
    } else {
        len
    };
    let mut r: Vec<u64> = Vec::new();
    let mut i: usize = start;
    while i < end
        invariant
            start <= i <= end <= ids@.len(),
            r@ == ids@.subrange(start as int, i as int),
        decreases end - i,
    {
        r.push(ids[i]);
        i = i + 1;
        assert(r@ =~= ids@.subrange(start as int, i as int));
    }
    r
}

} // verus!
