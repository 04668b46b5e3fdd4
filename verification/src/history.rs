//! The ordered list of entries: what each step of an engine operation does
//! to it, as functions on sequences, and the loops that carry the steps out.

use crate::models::{ClipboardItem, ItemView, MAX_ITEMS};
use vstd::prelude::*;

verus! {

/// The entries of a list, each by its mathematical value.
pub open spec fn entries(items: Seq<ClipboardItem>) -> Seq<ItemView> {
    items.map_values(|item: ClipboardItem| item@)
}

/// The test for a pinned entry.
pub open spec fn is_pinned() -> spec_fn(ItemView) -> bool {
    |entry: ItemView| entry.pinned
}

/// The test for an unpinned entry.
pub open spec fn is_unpinned() -> spec_fn(ItemView) -> bool {
    |entry: ItemView| !entry.pinned
}

/// The test that an insertion of fingerprint `hash` leaves an entry in place:
/// it is pinned, or its fingerprint differs.
pub open spec fn survives(hash: u64) -> spec_fn(ItemView) -> bool {
    |entry: ItemView| entry.pinned || entry.content_hash != hash
}

/// The test for an entry whose identifier is not `id`.
pub open spec fn has_other_id(id: Seq<char>) -> spec_fn(ItemView) -> bool {
    |entry: ItemView| entry.id != id
}

/// The pinned entries of `list`, in their order.
#[verifier::opaque]
pub open spec fn pinned_part(list: Seq<ItemView>) -> Seq<ItemView> {
    list.filter(is_pinned())
}

/// The unpinned entries of `list`, in their order.
#[verifier::opaque]
pub open spec fn unpinned_part(list: Seq<ItemView>) -> Seq<ItemView> {
    list.filter(is_unpinned())
}

/// No unpinned entry stands before a pinned one.
pub open spec fn pinned_first(list: Seq<ItemView>) -> bool {
    forall|i: int, j: int|
        #![trigger list[i], list[j]]
        0 <= i < j < list.len() && list[j].pinned ==> list[i].pinned
}

/// No two entries of `list` have the same fingerprint.
pub open spec fn hashes_differ(list: Seq<ItemView>) -> bool {
    forall|i: int, j: int|
        #![trigger list[i], list[j]]
        0 <= i < j < list.len() ==> list[i].content_hash != list[j].content_hash
}

/// No two unpinned entries of `list` have the same fingerprint.
pub open spec fn unpinned_distinct(list: Seq<ItemView>) -> bool {
    hashes_differ(unpinned_part(list))
}

/// `list` without its unpinned entries of fingerprint `hash`.
pub open spec fn without_hash(list: Seq<ItemView>, hash: u64) -> Seq<ItemView> {
    list.filter(survives(hash))
}

/// Removes the unpinned entries whose fingerprint is `hash`.
pub fn remove_unpinned_with_hash(items: Vec<ClipboardItem>, hash: u64) -> (kept: Vec<ClipboardItem>)
    ensures
        entries(kept@) == without_hash(entries(items@), hash),
{
    let ghost source = entries(items@);
    let mut kept: Vec<ClipboardItem> = Vec::new();
    for item in it: items
        invariant
            it.seq() == items@,
            entries(kept@) == without_hash(source.take(it.index() as int), hash),
            source == entries(items@),
    {
        proof {
            let k = it.index() as int;
            reveal(Seq::filter);
            reveal(pinned_part);
            reveal(unpinned_part);
            assert(source.take(k + 1).drop_last() =~= source.take(k));
            assert(source.take(k + 1).last() == item@);
            assert(entries(kept@.push(item)) =~= entries(kept@).push(item@));
        }
        if item.pinned || item.content_hash != hash {
            kept.push(item);
        }
    }
    proof {
        assert(source.take(items@.len() as int) =~= source);
    }
    kept
}

/// `list` cut down to `limit` unpinned entries: an entry stays when it is
/// pinned, or when fewer than `limit` unpinned entries stand before it.
pub open spec fn keep_recent(list: Seq<ItemView>, limit: nat) -> Seq<ItemView>
    decreases list.len(),
{
    if list.len() == 0 {
        list
    } else {
        let front = keep_recent(list.drop_last(), limit);
        if list.last().pinned || unpinned_part(list.drop_last()).len() < limit {
            front.push(list.last())
        } else {
            front
        }
    }
}

/// Drops every unpinned entry that has `limit` or more unpinned entries
/// before it.
pub fn trim_unpinned(items: Vec<ClipboardItem>, limit: usize) -> (kept: Vec<ClipboardItem>)
    ensures
        entries(kept@) == keep_recent(entries(items@), limit as nat),
{
    let ghost source = entries(items@);
    let mut kept: Vec<ClipboardItem> = Vec::new();
    let mut unpinned_seen: usize = 0;
    let total: usize = items.len();
    proof {
        reveal(unpinned_part);
    }
    for item in it: items
        invariant
            it.seq() == items@,
            it.seq().len() == total,
            source == entries(items@),
            entries(kept@) == keep_recent(source.take(it.index() as int), limit as nat),
            unpinned_seen == unpinned_part(source.take(it.index() as int)).len(),
            unpinned_seen <= it.index(),
    {
        proof {
            let k = it.index() as int;
            reveal(Seq::filter);
            reveal(pinned_part);
            reveal(unpinned_part);
            assert(source.take(k + 1).drop_last() =~= source.take(k));
            assert(source.take(k + 1).last() == item@);
            assert(entries(kept@.push(item)) =~= entries(kept@).push(item@));
        }
        if item.pinned {
            kept.push(item);
        } else {
            if unpinned_seen < limit {
                kept.push(item);
            }
            unpinned_seen = unpinned_seen + 1;
        }
    }
    proof {
        assert(source.take(items@.len() as int) =~= source);
    }
    kept
}

/// The pinned entries of `list` followed by its unpinned entries, each group
/// in the order it had.
pub open spec fn stable_partition(list: Seq<ItemView>) -> Seq<ItemView> {
    pinned_part(list) + unpinned_part(list)
}

/// Moves the pinned entries to the front without reordering either group.
pub fn partition_pinned_first(items: Vec<ClipboardItem>) -> (sorted: Vec<ClipboardItem>)
    ensures
        entries(sorted@) == stable_partition(entries(items@)),
{
    let ghost source = entries(items@);
    let mut front: Vec<ClipboardItem> = Vec::new();
    let mut back: Vec<ClipboardItem> = Vec::new();
    proof {
        reveal(pinned_part);
        reveal(unpinned_part);
    }
    for item in it: items
        invariant
            it.seq() == items@,
            source == entries(items@),
            entries(front@) == pinned_part(source.take(it.index() as int)),
            entries(back@) == unpinned_part(source.take(it.index() as int)),
    {
        proof {
            let k = it.index() as int;
            reveal(Seq::filter);
            reveal(pinned_part);
            reveal(unpinned_part);
            assert(source.take(k + 1).drop_last() =~= source.take(k));
            assert(source.take(k + 1).last() == item@);
            assert(entries(front@.push(item)) =~= entries(front@).push(item@));
            assert(entries(back@.push(item)) =~= entries(back@).push(item@));
        }
        if item.pinned {
            front.push(item);
        } else {
            back.push(item);
        }
    }
    proof {
        assert(source.take(items@.len() as int) =~= source);
        assert(entries(front@ + back@) =~= entries(front@) + entries(back@));
    }
    front.append(&mut back);
    front
}

/// `list` without the entries whose identifier is `id`.
pub open spec fn without_id(list: Seq<ItemView>, id: Seq<char>) -> Seq<ItemView> {
    list.filter(has_other_id(id))
}

/// Removes every entry whose identifier is `id`.
pub fn remove_with_id(items: Vec<ClipboardItem>, id: &String) -> (kept: Vec<ClipboardItem>)
    ensures
        entries(kept@) == without_id(entries(items@), id@),
{
    let ghost source = entries(items@);
    let mut kept: Vec<ClipboardItem> = Vec::new();
    for item in it: items
        invariant
            it.seq() == items@,
            source == entries(items@),
            entries(kept@) == without_id(source.take(it.index() as int), id@),
    {
        proof {
            let k = it.index() as int;
            reveal(Seq::filter);
            reveal(pinned_part);
            reveal(unpinned_part);
            assert(source.take(k + 1).drop_last() =~= source.take(k));
            assert(source.take(k + 1).last() == item@);
            assert(entries(kept@.push(item)) =~= entries(kept@).push(item@));
        }
        if item.id != *id {
            kept.push(item);
        }
    }
    proof {
        assert(source.take(items@.len() as int) =~= source);
    }
    kept
}

/// Some entry of `list` has the identifier `id`.
pub open spec fn has_id(list: Seq<ItemView>, id: Seq<char>) -> bool {
    exists|i: int| 0 <= i < list.len() && (#[trigger] list[i]).id == id
}

/// `index` is where the first entry with the identifier `id` stands.
pub open spec fn is_first_with_id(list: Seq<ItemView>, id: Seq<char>, index: int) -> bool {
    &&& 0 <= index < list.len()
    &&& list[index].id == id
    &&& forall|j: int| 0 <= j < index ==> (#[trigger] list[j]).id != id
}

/// Where the first entry with the identifier `id` stands, if there is one.
pub open spec fn index_of_id(list: Seq<ItemView>, id: Seq<char>) -> Option<int> {
    if has_id(list, id) {
        Some(choose|index: int| is_first_with_id(list, id, index))
    } else {
        None
    }
}

/// Only one index can be the first with a given identifier, so finding it
/// settles [`index_of_id`].
pub proof fn lemma_first_with_id_is_index(list: Seq<ItemView>, id: Seq<char>, index: int)
    requires
        is_first_with_id(list, id, index),
    ensures
        index_of_id(list, id) == Some(index),
{
    assert(has_id(list, id));
    let chosen = choose|k: int| is_first_with_id(list, id, k);
    assert(is_first_with_id(list, id, chosen));
    if chosen < index {
        assert(list[chosen].id != id);
    }
    if index < chosen {
        assert(list[index].id != id);
    }
}

/// Before any entry with the identifier `id` stands a first one.
proof fn lemma_first_before(list: Seq<ItemView>, id: Seq<char>, witness: int) -> (first: int)
    requires
        0 <= witness < list.len(),
        list[witness].id == id,
    ensures
        is_first_with_id(list, id, first),
    decreases witness,
{
    if forall|j: int| 0 <= j < witness ==> (#[trigger] list[j]).id != id {
        witness
    } else {
        let earlier = choose|j: int| 0 <= j < witness && (#[trigger] list[j]).id == id;
        lemma_first_before(list, id, earlier)
    }
}

/// What [`index_of_id`] gives is the first index with the identifier, and
/// it gives none only where no entry has the identifier.
pub proof fn lemma_index_of_id(list: Seq<ItemView>, id: Seq<char>)
    ensures
        match index_of_id(list, id) {
            Some(index) => is_first_with_id(list, id, index),
            None => forall|i: int| 0 <= i < list.len() ==> (#[trigger] list[i]).id != id,
        },
{
    if has_id(list, id) {
        let witness = choose|i: int| 0 <= i < list.len() && (#[trigger] list[i]).id == id;
        let first = lemma_first_before(list, id, witness);
        assert(is_first_with_id(list, id, first));
    }
}

/// Finds the first entry whose identifier is `id`.
pub fn find_id(items: &Vec<ClipboardItem>, id: &String) -> (found: Option<usize>)
    ensures
        match found {
            Some(index) => index_of_id(entries(items@), id@) == Some(index as int)
                && index < items@.len(),
            None => index_of_id(entries(items@), id@) is None,
        },
{
    let ghost list = entries(items@);
    let mut index: usize = 0;
    while index < items.len()
        invariant
            index <= items.len(),
            list == entries(items@),
            forall|j: int| 0 <= j < index ==> (#[trigger] list[j]).id != id@,
        decreases items.len() - index,
    {
        if items[index].id == *id {
            proof {
                lemma_first_with_id_is_index(list, id@, index as int);
            }
            return Some(index);
        }
        index = index + 1;
    }
    None
}

/// Counts the pinned entries.
pub fn count_pinned(items: &Vec<ClipboardItem>) -> (count: usize)
    ensures
        count == pinned_part(entries(items@)).len(),
{
    let ghost list = entries(items@);
    let mut count: usize = 0;
    let mut index: usize = 0;
    proof {
        reveal(pinned_part);
    }
    while index < items.len()
        invariant
            index <= items.len(),
            list == entries(items@),
            count == pinned_part(list.take(index as int)).len(),
            count <= index,
        decreases items.len() - index,
    {
        proof {
            reveal(Seq::filter);
            reveal(pinned_part);
            reveal(unpinned_part);
            assert(list.take(index + 1).drop_last() =~= list.take(index as int));
        }
        if items[index].pinned {
            count = count + 1;
        }
        index = index + 1;
    }
    proof {
        assert(list.take(items@.len() as int) =~= list);
    }
    count
}

/// `entry` with its pin flag flipped.
pub open spec fn flipped(entry: ItemView) -> ItemView {
    ItemView { pinned: !entry.pinned, ..entry }
}

/// The list after `entry` was inserted: the unpinned entries of its
/// fingerprint leave, the entry goes in behind as many entries as there are
/// pinned ones, and the unpinned entries are cut down to `MAX_ITEMS`.
pub open spec fn inserted(list: Seq<ItemView>, entry: ItemView) -> Seq<ItemView> {
    let cleared = without_hash(list, entry.content_hash);
    keep_recent(cleared.insert(pinned_part(cleared).len() as int, entry), MAX_ITEMS as nat)
}

/// The list after the pin of the first entry with the identifier `id` was
/// toggled: that entry's flag is flipped and the pinned entries are moved to
/// the front. A list without such an entry stays as it is.
pub open spec fn toggled(list: Seq<ItemView>, id: Seq<char>) -> Seq<ItemView> {
    match index_of_id(list, id) {
        Some(index) => stable_partition(list.update(index, flipped(list[index]))),
        None => list,
    }
}

/// Carries out [`inserted`].
pub fn insert_entry(items: Vec<ClipboardItem>, item: ClipboardItem) -> (placed: Vec<ClipboardItem>)
    ensures
        entries(placed@) == inserted(entries(items@), item@),
{
    let mut cleared = remove_unpinned_with_hash(items, item.content_hash);
    let at = count_pinned(&cleared);
    proof {
        reveal(pinned_part);
        entries(cleared@).lemma_filter_len(is_pinned());
        assert(entries(cleared@.insert(at as int, item)) =~= entries(cleared@).insert(
            at as int,
            item@,
        ));
    }
    cleared.insert(at, item);
    trim_unpinned(cleared, MAX_ITEMS)
}

/// Carries out [`toggled`].
pub fn toggle_entry(items: Vec<ClipboardItem>, id: &String) -> (sorted: Vec<ClipboardItem>)
    ensures
        entries(sorted@) == toggled(entries(items@), id@),
{
    match find_id(&items, id) {
        None => items,
        Some(index) => {
            let mut items = items;
            let ghost before = entries(items@);
            let mut item = items.remove(index);
            item.pinned = !item.pinned;
            proof {
                assert(item@ == flipped(before[index as int]));
                assert(entries(items@.insert(index as int, item)) =~= before.update(
                    index as int,
                    item@,
                ));
            }
            items.insert(index, item);
            partition_pinned_first(items)
        },
    }
}

} // verus!
