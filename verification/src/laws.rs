//! What holds of the history whatever is done to it: the order of pinned and
//! unpinned entries, the bound on unpinned entries, and what inserting,
//! toggling and reloading come to. Each law is proved here from the
//! definitions that the engine's contracts use.

use crate::clipboard::{after_insert, insert_outcome, is_fresh_entry, EngineView};
use crate::history::{
    flipped, has_id, has_other_id, hashes_differ, index_of_id, inserted, is_first_with_id,
    is_pinned, is_unpinned, keep_recent, lemma_first_with_id_is_index, lemma_index_of_id,
    pinned_first, pinned_part,
    stable_partition, survives, toggled, unpinned_distinct, unpinned_part, without_hash,
    without_id,
};
use crate::models::{
    content_eq, fingerprint, hash_feed, hash_is_current, ContentView, ItemView,
    EXACT_COMPARE_LIMIT, MAX_ITEMS,
};
use crate::storage::{all_current, loaded, refreshed, with_current_hash};
use vstd::math::min;
use vstd::prelude::*;

verus! {

/// Filtering a list with one more entry at its end filters the list and
/// keeps the entry if it passes the test.
pub proof fn lemma_filter_push(
    list: Seq<ItemView>,
    test: spec_fn(ItemView) -> bool,
    entry: ItemView,
)
    ensures
        list.push(entry).filter(test) == if test(entry) {
            list.filter(test).push(entry)
        } else {
            list.filter(test)
        },
{
    reveal(Seq::filter);
    assert(list.push(entry).drop_last() =~= list);
}

/// A filter keeps a list whole when every entry passes the test.
pub proof fn lemma_filter_keeps_all(list: Seq<ItemView>, test: spec_fn(ItemView) -> bool)
    requires
        forall|i: int| 0 <= i < list.len() ==> test(#[trigger] list[i]),
    ensures
        list.filter(test) == list,
    decreases list.len(),
{
    reveal(Seq::filter);
    if list.len() > 0 {
        lemma_filter_keeps_all(list.drop_last(), test);
        assert(list.drop_last().push(list.last()) =~= list);
    }
}

/// A filter leaves nothing when no entry passes the test.
pub proof fn lemma_filter_keeps_none(list: Seq<ItemView>, test: spec_fn(ItemView) -> bool)
    requires
        forall|i: int| 0 <= i < list.len() ==> !test(#[trigger] list[i]),
    ensures
        list.filter(test) == Seq::<ItemView>::empty(),
    decreases list.len(),
{
    reveal(Seq::filter);
    if list.len() > 0 {
        lemma_filter_keeps_none(list.drop_last(), test);
    } else {
        assert(list =~= Seq::<ItemView>::empty());
    }
}

/// Two filters give the same list in either order.
pub proof fn lemma_filter_commutes(
    list: Seq<ItemView>,
    first: spec_fn(ItemView) -> bool,
    second: spec_fn(ItemView) -> bool,
)
    ensures
        list.filter(first).filter(second) == list.filter(second).filter(first),
    decreases list.len(),
{
    if list.len() == 0 {
        reveal(Seq::filter);
    } else {
        let front = list.drop_last();
        let last = list.last();
        lemma_filter_commutes(front, first, second);
        assert(front.push(last) =~= list);
        lemma_filter_push(front, first, last);
        lemma_filter_push(front, second, last);
        lemma_filter_push(front.filter(first), second, last);
        lemma_filter_push(front.filter(second), first, last);
    }
}

/// The parts of an empty list are empty.
pub proof fn lemma_parts_of_empty()
    ensures
        pinned_part(Seq::<ItemView>::empty()) == Seq::<ItemView>::empty(),
        unpinned_part(Seq::<ItemView>::empty()) == Seq::<ItemView>::empty(),
{
    reveal(pinned_part);
    reveal(unpinned_part);
    reveal(Seq::filter);
}

/// An entry added at the end goes to the end of the part it belongs to.
pub proof fn lemma_parts_of_push(list: Seq<ItemView>, entry: ItemView)
    ensures
        pinned_part(list.push(entry)) == if entry.pinned {
            pinned_part(list).push(entry)
        } else {
            pinned_part(list)
        },
        unpinned_part(list.push(entry)) == if entry.pinned {
            unpinned_part(list)
        } else {
            unpinned_part(list).push(entry)
        },
{
    reveal(pinned_part);
    reveal(unpinned_part);
    lemma_filter_push(list, is_pinned(), entry);
    lemma_filter_push(list, is_unpinned(), entry);
}

/// The parts of two lists joined are the parts of each, joined.
pub proof fn lemma_parts_of_add(left: Seq<ItemView>, right: Seq<ItemView>)
    ensures
        pinned_part(left + right) == pinned_part(left) + pinned_part(right),
        unpinned_part(left + right) == unpinned_part(left) + unpinned_part(right),
{
    reveal(pinned_part);
    reveal(unpinned_part);
    Seq::filter_distributes_over_add(left, right, is_pinned());
    Seq::filter_distributes_over_add(left, right, is_unpinned());
}

/// Every entry of the pinned part is pinned, every entry of the unpinned
/// part is not, and neither part is longer than the list.
pub proof fn lemma_parts_are_pure(list: Seq<ItemView>)
    ensures
        forall|i: int| 0 <= i < pinned_part(list).len() ==> (#[trigger] pinned_part(list)[i]).pinned,
        forall|i: int|
            0 <= i < unpinned_part(list).len() ==> !(#[trigger] unpinned_part(list)[i]).pinned,
        pinned_part(list).len() <= list.len(),
        unpinned_part(list).len() <= list.len(),
{
    reveal(pinned_part);
    reveal(unpinned_part);
    list.lemma_filter_len(is_pinned());
    list.lemma_filter_len(is_unpinned());
    assert forall|i: int| 0 <= i < list.filter(is_pinned()).len() implies (#[trigger] list.filter(
        is_pinned(),
    )[i]).pinned by {
        list.lemma_filter_pred(is_pinned(), i);
    }
    assert forall|i: int| 0 <= i < list.filter(is_unpinned()).len() implies !(
    #[trigger] list.filter(is_unpinned())[i]).pinned by {
        list.lemma_filter_pred(is_unpinned(), i);
    }
}

/// A list of pinned entries is its own pinned part and has no unpinned part.
pub proof fn lemma_parts_of_pinned(list: Seq<ItemView>)
    requires
        forall|i: int| 0 <= i < list.len() ==> (#[trigger] list[i]).pinned,
    ensures
        pinned_part(list) == list,
        unpinned_part(list) == Seq::<ItemView>::empty(),
{
    reveal(pinned_part);
    reveal(unpinned_part);
    lemma_filter_keeps_all(list, is_pinned());
    lemma_filter_keeps_none(list, is_unpinned());
}

/// A list of unpinned entries is its own unpinned part and has no pinned part.
pub proof fn lemma_parts_of_unpinned(list: Seq<ItemView>)
    requires
        forall|i: int| 0 <= i < list.len() ==> !(#[trigger] list[i]).pinned,
    ensures
        pinned_part(list) == Seq::<ItemView>::empty(),
        unpinned_part(list) == list,
{
    reveal(pinned_part);
    reveal(unpinned_part);
    lemma_filter_keeps_none(list, is_pinned());
    lemma_filter_keeps_all(list, is_unpinned());
}

/// The parts of a list of pinned entries followed by unpinned entries are
/// those two lists, and the list is in order.
pub proof fn lemma_parts_of_joined(pinned: Seq<ItemView>, unpinned: Seq<ItemView>)
    requires
        forall|i: int| 0 <= i < pinned.len() ==> (#[trigger] pinned[i]).pinned,
        forall|i: int| 0 <= i < unpinned.len() ==> !(#[trigger] unpinned[i]).pinned,
    ensures
        pinned_part(pinned + unpinned) == pinned,
        unpinned_part(pinned + unpinned) == unpinned,
        pinned_first(pinned + unpinned),
{
    lemma_parts_of_add(pinned, unpinned);
    lemma_parts_of_pinned(pinned);
    lemma_parts_of_unpinned(unpinned);
    assert(pinned + Seq::<ItemView>::empty() =~= pinned);
    assert(Seq::<ItemView>::empty() + unpinned =~= unpinned);
    let joined = pinned + unpinned;
    assert forall|i: int, j: int| 0 <= i < j < joined.len() && joined[j].pinned implies joined[i].pinned by {
        if j >= pinned.len() {
            assert(joined[j] == unpinned[j - pinned.len()]);
        }
        assert(joined[i] == pinned[i]);
    }
}

/// Moving the pinned entries to the front gives a list in which no unpinned
/// entry stands before a pinned one, with the same two parts.
pub proof fn lemma_partition_is_ordered(list: Seq<ItemView>)
    ensures
        pinned_first(stable_partition(list)),
        pinned_part(stable_partition(list)) == pinned_part(list),
        unpinned_part(stable_partition(list)) == unpinned_part(list),
{
    lemma_parts_are_pure(list);
    lemma_parts_of_joined(pinned_part(list), unpinned_part(list));
}

/// A list in which no unpinned entry stands before a pinned one is its
/// pinned part followed by its unpinned part.
pub proof fn lemma_ordered_is_partitioned(list: Seq<ItemView>)
    requires
        pinned_first(list),
    ensures
        list == stable_partition(list),
    decreases list.len(),
{
    if list.len() == 0 {
        assert(list =~= Seq::<ItemView>::empty());
        lemma_parts_of_empty();
        assert(stable_partition(list) =~= list);
    } else {
        let front = list.drop_last();
        let last = list.last();
        assert(pinned_first(front)) by {
            assert forall|i: int, j: int| 0 <= i < j < front.len() && front[j].pinned implies front[i].pinned by {
                assert(list[j].pinned);
                assert(list[i].pinned);
            }
        }
        lemma_ordered_is_partitioned(front);
        assert(front.push(last) =~= list);
        lemma_parts_of_push(front, last);
        if last.pinned {
            assert forall|i: int| 0 <= i < front.len() implies (#[trigger] front[i]).pinned by {
                assert(list[list.len() - 1].pinned);
                assert(list[i].pinned);
            }
            lemma_parts_of_pinned(front);
            assert(stable_partition(list) =~= list);
        } else {
            assert(stable_partition(list) =~= list);
        }
    }
}

/// The parts of a filtered list are the filtered parts.
pub proof fn lemma_parts_of_filtered(list: Seq<ItemView>, test: spec_fn(ItemView) -> bool)
    ensures
        pinned_part(list.filter(test)) == pinned_part(list).filter(test),
        unpinned_part(list.filter(test)) == unpinned_part(list).filter(test),
{
    reveal(pinned_part);
    reveal(unpinned_part);
    lemma_filter_commutes(list, is_pinned(), test);
    lemma_filter_commutes(list, is_unpinned(), test);
}

/// Filtering a list in which no unpinned entry stands before a pinned one
/// gives such a list again.
pub proof fn lemma_filter_keeps_order(list: Seq<ItemView>, test: spec_fn(ItemView) -> bool)
    requires
        pinned_first(list),
    ensures
        pinned_first(list.filter(test)),
{
    lemma_ordered_is_partitioned(list);
    Seq::filter_distributes_over_add(pinned_part(list), unpinned_part(list), test);
    lemma_parts_of_filtered(list, test);
    assert(list.filter(test) == stable_partition(list.filter(test)));
    lemma_partition_is_ordered(list.filter(test));
}

/// What cutting down to `limit` unpinned entries comes to: the pinned
/// entries all stay, and of the unpinned entries the first `limit` stay.
pub proof fn lemma_keep_recent_parts(list: Seq<ItemView>, limit: nat)
    ensures
        pinned_part(keep_recent(list, limit)) == pinned_part(list),
        unpinned_part(keep_recent(list, limit)) == unpinned_part(list).take(
            min(limit as int, unpinned_part(list).len() as int),
        ),
        unpinned_part(keep_recent(list, limit)).len() <= limit,
    decreases list.len(),
{
    if list.len() == 0 {
        assert(list =~= Seq::<ItemView>::empty());
        lemma_parts_of_empty();
        assert(unpinned_part(list).take(0) =~= unpinned_part(list));
    } else {
        let front = list.drop_last();
        let last = list.last();
        lemma_keep_recent_parts(front, limit);
        assert(front.push(last) =~= list);
        lemma_parts_of_push(front, last);
        lemma_parts_of_push(keep_recent(front, limit), last);
        let loose = unpinned_part(front);
        if !last.pinned {
            if loose.len() < limit {
                assert(loose.take(loose.len() as int) =~= loose);
                assert(loose.push(last).take(loose.len() as int + 1) =~= loose.push(last));
            } else {
                assert(loose.push(last).take(limit as int) =~= loose.take(limit as int));
            }
        }
    }
}

/// Cutting down a list in which no unpinned entry stands before a pinned
/// one leaves its pinned part followed by its first `limit` unpinned entries,
/// a list in order again.
pub proof fn lemma_keep_recent_keeps_order(list: Seq<ItemView>, limit: nat)
    requires
        pinned_first(list),
    ensures
        keep_recent(list, limit) == pinned_part(list) + unpinned_part(list).take(
            min(limit as int, unpinned_part(list).len() as int),
        ),
        pinned_first(keep_recent(list, limit)),
{
    let kept = keep_recent(list, limit);
    let loose = unpinned_part(list);
    let count = min(limit as int, loose.len() as int);
    lemma_keep_recent_parts(list, limit);
    lemma_parts_are_pure(list);
    lemma_keep_recent_in_order(list, limit);
    lemma_ordered_is_partitioned(kept);
    assert forall|i: int| 0 <= i < loose.take(count).len() implies !(#[trigger] loose.take(
        count,
    )[i]).pinned by {
        assert(loose.take(count)[i] == loose[i]);
    }
    lemma_parts_of_joined(pinned_part(list), loose.take(count));
}

/// Cutting down leaves the entries in the order they had, so a list in which
/// no unpinned entry stands before a pinned one stays one.
proof fn lemma_keep_recent_in_order(list: Seq<ItemView>, limit: nat)
    requires
        pinned_first(list),
    ensures
        pinned_first(keep_recent(list, limit)),
    decreases list.len(),
{
    if list.len() > 0 {
        let front = list.drop_last();
        let last = list.last();
        assert(pinned_first(front)) by {
            assert forall|i: int, j: int| 0 <= i < j < front.len() && front[j].pinned implies front[i].pinned by {
                assert(list[j].pinned);
                assert(list[i].pinned);
            }
        }
        lemma_keep_recent_in_order(front, limit);
        let kept = keep_recent(front, limit);
        if last.pinned {
            assert forall|i: int| 0 <= i < front.len() implies (#[trigger] front[i]).pinned by {
                assert(list[list.len() - 1].pinned);
                assert(list[i].pinned);
            }
            lemma_keep_recent_of_pinned(front, limit);
            assert(kept.push(last) =~= list);
        } else {
            let longer = kept.push(last);
            assert forall|i: int, j: int| 0 <= i < j < longer.len() && longer[j].pinned implies longer[i].pinned by {
                assert(longer[j] == kept[j]);
                assert(longer[i] == kept[i]);
            }
        }
    }
}

/// Cutting down leaves a list of pinned entries as it is.
proof fn lemma_keep_recent_of_pinned(list: Seq<ItemView>, limit: nat)
    requires
        forall|i: int| 0 <= i < list.len() ==> (#[trigger] list[i]).pinned,
    ensures
        keep_recent(list, limit) == list,
    decreases list.len(),
{
    if list.len() > 0 {
        let front = list.drop_last();
        assert forall|i: int| 0 <= i < front.len() implies (#[trigger] front[i]).pinned by {
            assert(list[i].pinned);
        }
        lemma_keep_recent_of_pinned(front, limit);
        assert(list[list.len() - 1].pinned);
        assert(front.push(list.last()) =~= list);
    }
}

/// Removing the unpinned entries of one fingerprint leaves the pinned part
/// as it is and takes those entries out of the unpinned part.
pub proof fn lemma_without_hash_parts(list: Seq<ItemView>, hash: u64)
    ensures
        pinned_part(without_hash(list, hash)) == pinned_part(list),
        unpinned_part(without_hash(list, hash)) == unpinned_part(list).filter(survives(hash)),
{
    lemma_parts_of_filtered(list, survives(hash));
    lemma_parts_are_pure(list);
    lemma_filter_keeps_all(pinned_part(list), survives(hash));
}

/// Putting an unpinned entry into a list leaves the pinned part as it is.
pub proof fn lemma_insert_keeps_pinned(list: Seq<ItemView>, at: int, entry: ItemView)
    requires
        0 <= at <= list.len(),
        !entry.pinned,
    ensures
        pinned_part(list.insert(at, entry)) == pinned_part(list),
        unpinned_part(list.insert(at, entry)) == unpinned_part(list.take(at)).push(entry)
            + unpinned_part(list.skip(at)),
{
    let head = list.take(at);
    let rest = list.skip(at);
    assert(list.insert(at, entry) =~= head.push(entry) + rest);
    assert(list =~= head + rest);
    lemma_parts_of_add(head.push(entry), rest);
    lemma_parts_of_add(head, rest);
    lemma_parts_of_push(head, entry);
}

/// After an insertion the history holds `MAX_ITEMS` unpinned entries at
/// most, whatever it held before.
pub proof fn law_insert_bounds_unpinned(list: Seq<ItemView>, entry: ItemView)
    ensures
        unpinned_part(inserted(list, entry)).len() <= MAX_ITEMS,
{
    let cleared = without_hash(list, entry.content_hash);
    lemma_keep_recent_parts(
        cleared.insert(pinned_part(cleared).len() as int, entry),
        MAX_ITEMS as nat,
    );
}

/// An insertion evicts no pinned entry: the pinned entries are the same
/// before and after, in the same order.
pub proof fn law_insert_keeps_pinned(list: Seq<ItemView>, entry: ItemView)
    requires
        !entry.pinned,
    ensures
        pinned_part(inserted(list, entry)) == pinned_part(list),
{
    let cleared = without_hash(list, entry.content_hash);
    let at = pinned_part(cleared).len() as int;
    lemma_parts_are_pure(cleared);
    lemma_insert_keeps_pinned(cleared, at, entry);
    lemma_keep_recent_parts(cleared.insert(at, entry), MAX_ITEMS as nat);
    lemma_without_hash_parts(list, entry.content_hash);
}

/// What an insertion comes to in a history in which no unpinned entry stands
/// before a pinned one: the pinned entries stay, the new entry is the first
/// unpinned one, the unpinned entries of other fingerprints follow it in
/// their order, and what goes beyond `MAX_ITEMS` unpinned entries is dropped
/// from the end. The history is in order again.
pub proof fn law_insert_in_order(list: Seq<ItemView>, entry: ItemView)
    requires
        pinned_first(list),
        !entry.pinned,
    ensures
        inserted(list, entry) == pinned_part(list) + (seq![entry] + unpinned_part(list).filter(
            survives(entry.content_hash),
        )).take(
            min(
                MAX_ITEMS as int,
                1 + unpinned_part(list).filter(survives(entry.content_hash)).len() as int,
            ),
        ),
        pinned_first(inserted(list, entry)),
        pinned_part(list).len() < inserted(list, entry).len(),
        inserted(list, entry)[pinned_part(list).len() as int] == entry,
{
    let hash = entry.content_hash;
    let cleared = without_hash(list, hash);
    let fixed = pinned_part(cleared);
    let loose = unpinned_part(cleared);
    let at = fixed.len() as int;
    lemma_filter_keeps_order(list, survives(hash));
    lemma_ordered_is_partitioned(cleared);
    lemma_parts_are_pure(cleared);
    lemma_without_hash_parts(list, hash);
    let placed = cleared.insert(at, entry);
    let tail = seq![entry] + loose;
    assert(placed =~= fixed + tail);
    assert forall|i: int| 0 <= i < tail.len() implies !(#[trigger] tail[i]).pinned by {
        if i > 0 {
            assert(tail[i] == loose[i - 1]);
        }
    }
    lemma_parts_of_joined(fixed, tail);
    lemma_keep_recent_keeps_order(placed, MAX_ITEMS as nat);
}

/// After a toggle that found its entry no unpinned entry stands before a
/// pinned one, and a toggle that found none leaves the history as it was.
pub proof fn law_toggle_in_order(list: Seq<ItemView>, id: Seq<char>)
    ensures
        has_id(list, id) ==> pinned_first(toggled(list, id)),
        !has_id(list, id) ==> toggled(list, id) == list,
{
    if has_id(list, id) {
        let index = index_of_id(list, id)->0;
        lemma_partition_is_ordered(list.update(index, flipped(list[index])));
    }
}

/// A deletion leaves the entries that stay in the order they had.
pub proof fn law_delete_in_order(list: Seq<ItemView>, id: Seq<char>)
    requires
        pinned_first(list),
    ensures
        pinned_first(without_id(list, id)),
{
    lemma_filter_keeps_order(list, has_other_id(id));
}

/// What passes a filter has whatever holds of every entry that passes.
pub proof fn lemma_filter_inherits(
    list: Seq<ItemView>,
    test: spec_fn(ItemView) -> bool,
    good: spec_fn(ItemView) -> bool,
)
    requires
        forall|i: int| 0 <= i < list.len() && test(list[i]) ==> good(#[trigger] list[i]),
    ensures
        forall|k: int| 0 <= k < list.filter(test).len() ==> good(#[trigger] list.filter(test)[k]),
    decreases list.len(),
{
    if list.len() == 0 {
        list.lemma_filter_len(test);
    } else {
        let front = list.drop_last();
        let last = list.last();
        assert forall|i: int| 0 <= i < front.len() && test(front[i]) implies good(
            #[trigger] front[i],
        ) by {
            assert(front[i] == list[i]);
        }
        lemma_filter_inherits(front, test, good);
        assert(front.push(last) =~= list);
        lemma_filter_push(front, test, last);
        assert(list[list.len() - 1] == last);
        let passed = list.filter(test);
        assert forall|k: int| 0 <= k < passed.len() implies good(#[trigger] passed[k]) by {
            if k < front.filter(test).len() {
                assert(passed[k] == front.filter(test)[k]);
            }
        }
    }
}

/// The entries of a part have whatever holds of every entry of the list
/// that belongs to that part.
pub proof fn lemma_parts_inherit(list: Seq<ItemView>, good: spec_fn(ItemView) -> bool)
    ensures
        (forall|i: int| 0 <= i < list.len() && list[i].pinned ==> good(#[trigger] list[i]))
            ==> (forall|k: int|
            0 <= k < pinned_part(list).len() ==> good(#[trigger] pinned_part(list)[k])),
        (forall|i: int| 0 <= i < list.len() && !list[i].pinned ==> good(#[trigger] list[i]))
            ==> (forall|k: int|
            0 <= k < unpinned_part(list).len() ==> good(#[trigger] unpinned_part(list)[k])),
{
    reveal(pinned_part);
    reveal(unpinned_part);
    if forall|i: int| 0 <= i < list.len() && list[i].pinned ==> good(#[trigger] list[i]) {
        lemma_filter_inherits(list, is_pinned(), good);
    }
    if forall|i: int| 0 <= i < list.len() && !list[i].pinned ==> good(#[trigger] list[i]) {
        lemma_filter_inherits(list, is_unpinned(), good);
    }
}

/// Moving the pinned entries to the front in a list that is cut in two
/// around one entry: the entry ends up behind the pinned entries if it is
/// pinned, behind the unpinned entries of the first piece if it is not.
pub proof fn lemma_partition_of_split(head: Seq<ItemView>, entry: ItemView, back: Seq<ItemView>)
    ensures
        stable_partition(head.push(entry) + back) == if entry.pinned {
            pinned_part(head).push(entry) + (pinned_part(back) + (unpinned_part(head)
                + unpinned_part(back)))
        } else {
            ((pinned_part(head) + pinned_part(back)) + unpinned_part(head)).push(entry)
                + unpinned_part(back)
        },
{
    lemma_parts_of_add(head.push(entry), back);
    lemma_parts_of_push(head, entry);
    let whole = stable_partition(head.push(entry) + back);
    if entry.pinned {
        assert(whole =~= pinned_part(head).push(entry) + (pinned_part(back) + (unpinned_part(head)
            + unpinned_part(back))));
    } else {
        assert(whole =~= ((pinned_part(head) + pinned_part(back)) + unpinned_part(head)).push(
            entry,
        ) + unpinned_part(back));
    }
}

/// One toggle moves one entry and nothing else.
///
/// Let the first entry with the identifier stand at `index`. After the
/// toggle that entry, its flag flipped, stands at the end of the pinned
/// entries if it is pinned now, and among the unpinned entries where it
/// stood among them before if it is not. Without it the list is the other
/// entries, pinned ones first, each group in the order it had.
pub proof fn law_toggle_keeps_others(list: Seq<ItemView>, id: Seq<char>, index: int)
    requires
        is_first_with_id(list, id, index),
    ensures
        ({
            let others = list.remove(index);
            let once = toggled(list, id);
            let at = if list[index].pinned {
                (pinned_part(others).len() + unpinned_part(list.take(index)).len()) as int
            } else {
                pinned_part(list.take(index)).len() as int
            };
            &&& 0 <= at < once.len()
            &&& once[at] == flipped(list[index])
            &&& once.remove(at) == stable_partition(others)
        }),
{
    let turned = flipped(list[index]);
    let others = list.remove(index);
    let head = list.take(index);
    let back = list.skip(index + 1);
    assert(others =~= head + back);
    assert(list.update(index, turned) =~= head.push(turned) + back);
    lemma_first_with_id_is_index(list, id, index);
    lemma_partition_of_split(head, turned, back);
    lemma_parts_of_add(head, back);
    let once = toggled(list, id);
    if turned.pinned {
        let at = pinned_part(head).len() as int;
        assert(once.remove(at) =~= stable_partition(others));
    } else {
        let at = (pinned_part(others).len() + unpinned_part(head).len()) as int;
        assert(once.remove(at) =~= stable_partition(others));
    }
}

/// Toggling the same pin twice in a row.
///
/// Let the first entry with the identifier stand at `index`, and let no
/// other pinned entry share the identifier if that entry is pinned. Then the
/// entry has its old pin flag again, and it stands between the other pinned
/// entries and the other unpinned entries, each group in the order it had.
pub proof fn law_toggle_twice(list: Seq<ItemView>, id: Seq<char>, index: int)
    requires
        is_first_with_id(list, id, index),
        list[index].pinned ==> forall|j: int|
            0 <= j < list.len() && j != index && list[j].pinned ==> (#[trigger] list[j]).id != id,
    ensures
        ({
            let others = list.remove(index);
            let twice = toggled(toggled(list, id), id);
            let at = pinned_part(others).len() as int;
            &&& twice == pinned_part(others).push(list[index]) + unpinned_part(others)
            &&& twice[at] == list[index]
            &&& pinned_part(twice.remove(at)) == pinned_part(others)
            &&& unpinned_part(twice.remove(at)) == unpinned_part(others)
        }),
{
    let entry = list[index];
    let turned = flipped(entry);
    let others = list.remove(index);
    let head = list.take(index);
    let back = list.skip(index + 1);
    let other_id = has_other_id(id);
    assert(others =~= head + back);
    assert(list.update(index, turned) =~= head.push(turned) + back);
    assert(flipped(turned) == entry);
    lemma_first_with_id_is_index(list, id, index);
    let once = toggled(list, id);
    lemma_partition_of_split(head, turned, back);
    lemma_parts_of_add(head, back);
    lemma_parts_are_pure(head);
    lemma_parts_are_pure(back);
    assert forall|i: int| 0 <= i < head.len() implies other_id(#[trigger] head[i]) by {
        assert(head[i] == list[i]);
    }
    lemma_parts_inherit(head, other_id);
    let (left, right) = if turned.pinned {
        (pinned_part(head), pinned_part(back) + (unpinned_part(head) + unpinned_part(back)))
    } else {
        ((pinned_part(head) + pinned_part(back)) + unpinned_part(head), unpinned_part(back))
    };
    if !turned.pinned {
        assert forall|i: int| 0 <= i < back.len() && back[i].pinned implies other_id(
            #[trigger] back[i],
        ) by {
            assert(back[i] == list[index + 1 + i]);
        }
        lemma_parts_inherit(back, other_id);
    }
    assert(once == left.push(turned) + right);
    let found = left.len() as int;
    assert(is_first_with_id(once, id, found)) by {
        assert(once[found] == turned);
        assert forall|j: int| 0 <= j < found implies (#[trigger] once[j]).id != id by {
            assert(once[j] == left[j]);
            if turned.pinned {
                assert(other_id(pinned_part(head)[j]));
            } else {
                let fixed = pinned_part(head) + pinned_part(back);
                if j < pinned_part(head).len() {
                    assert(other_id(pinned_part(head)[j]));
                } else if j < fixed.len() {
                    assert(other_id(pinned_part(back)[j - pinned_part(head).len()]));
                } else {
                    assert(other_id(unpinned_part(head)[j - fixed.len()]));
                }
            }
        }
    }
    lemma_first_with_id_is_index(once, id, found);
    assert(once.update(found, entry) =~= left.push(entry) + right);
    let twice = toggled(once, id);
    lemma_partition_of_split(left, entry, right);
    lemma_parts_of_pinned(pinned_part(head));
    lemma_parts_of_pinned(pinned_part(back));
    lemma_parts_of_unpinned(unpinned_part(head));
    lemma_parts_of_unpinned(unpinned_part(back));
    let empty = Seq::<ItemView>::empty();
    if turned.pinned {
        lemma_parts_of_add(unpinned_part(head), unpinned_part(back));
        lemma_parts_of_add(pinned_part(back), unpinned_part(head) + unpinned_part(back));
        assert(empty + empty =~= empty);
        assert(pinned_part(back) + empty =~= pinned_part(back));
        assert(empty + (unpinned_part(head) + unpinned_part(back)) =~= unpinned_part(head)
            + unpinned_part(back));
        assert(twice =~= pinned_part(others).push(entry) + unpinned_part(others));
    } else {
        lemma_parts_of_add(pinned_part(head), pinned_part(back));
        lemma_parts_of_add(pinned_part(head) + pinned_part(back), unpinned_part(head));
        assert(empty + empty =~= empty);
        assert((pinned_part(head) + pinned_part(back)) + empty =~= pinned_part(head) + pinned_part(
            back,
        ));
        assert(empty + unpinned_part(head) =~= unpinned_part(head));
        assert(twice =~= pinned_part(others).push(entry) + unpinned_part(others));
    }
    let at = pinned_part(others).len() as int;
    lemma_parts_are_pure(others);
    assert(twice.remove(at) =~= pinned_part(others) + unpinned_part(others));
    lemma_parts_of_joined(pinned_part(others), unpinned_part(others));
}

/// A filter leaves fingerprints that differ as they are.
pub proof fn lemma_filter_keeps_differ(list: Seq<ItemView>, test: spec_fn(ItemView) -> bool)
    requires
        hashes_differ(list),
    ensures
        hashes_differ(list.filter(test)),
    decreases list.len(),
{
    if list.len() == 0 {
        list.lemma_filter_len(test);
    } else {
        let front = list.drop_last();
        let last = list.last();
        assert(hashes_differ(front)) by {
            assert forall|i: int, j: int| 0 <= i < j < front.len() implies front[i].content_hash
                != front[j].content_hash by {
                assert(list[i].content_hash != list[j].content_hash);
            }
        }
        lemma_filter_keeps_differ(front, test);
        assert(front.push(last) =~= list);
        lemma_filter_push(front, test, last);
        let unlike = |entry: ItemView| entry.content_hash != last.content_hash;
        assert forall|i: int| 0 <= i < front.len() && test(front[i]) implies unlike(
            #[trigger] front[i],
        ) by {
            assert(list[i].content_hash != list[list.len() - 1].content_hash);
        }
        lemma_filter_inherits(front, test, unlike);
        let passed = list.filter(test);
        let before = front.filter(test);
        assert forall|i: int, j: int| 0 <= i < j < passed.len() implies passed[i].content_hash
            != passed[j].content_hash by {
            if j < before.len() {
                assert(before[i].content_hash != before[j].content_hash);
            } else {
                assert(unlike(before[i]));
            }
        }
    }
}

/// An insertion leaves no two unpinned entries with the same fingerprint,
/// if there were none before.
pub proof fn law_insert_keeps_distinct(list: Seq<ItemView>, entry: ItemView)
    requires
        unpinned_distinct(list),
        !entry.pinned,
    ensures
        unpinned_distinct(inserted(list, entry)),
{
    let hash = entry.content_hash;
    let cleared = without_hash(list, hash);
    let at = pinned_part(cleared).len() as int;
    let head = cleared.take(at);
    let rest = cleared.skip(at);
    let placed = cleared.insert(at, entry);
    let unlike = |other: ItemView| other.content_hash != hash;
    lemma_parts_are_pure(cleared);
    lemma_without_hash_parts(list, hash);
    lemma_filter_keeps_differ(unpinned_part(list), survives(hash));
    assert(cleared =~= head + rest);
    lemma_parts_of_add(head, rest);
    lemma_insert_keeps_pinned(cleared, at, entry);
    assert forall|i: int| 0 <= i < cleared.len() && !cleared[i].pinned implies unlike(
        #[trigger] cleared[i],
    ) by {
        list.lemma_filter_pred(survives(hash), i);
    }
    lemma_parts_inherit(cleared, unlike);
    let loose = unpinned_part(cleared);
    let first = unpinned_part(head);
    let second = unpinned_part(rest);
    let joined = first.push(entry) + second;
    assert(hashes_differ(joined)) by {
        assert forall|i: int, j: int| 0 <= i < j < joined.len() implies joined[i].content_hash
            != joined[j].content_hash by {
            let a = if i < first.len() { i } else { i - 1 };
            let b = if j < first.len() { j } else { j - 1 };
            if i != first.len() {
                assert(joined[i] == loose[a]);
                assert(unlike(loose[a]));
            }
            if j != first.len() {
                assert(joined[j] == loose[b]);
                assert(unlike(loose[b]));
            }
            if i != first.len() && j != first.len() {
                assert(loose[a].content_hash != loose[b].content_hash);
            }
        }
    }
    lemma_keep_recent_parts(placed, MAX_ITEMS as nat);
    let kept = unpinned_part(inserted(list, entry));
    assert forall|i: int, j: int| 0 <= i < j < kept.len() implies kept[i].content_hash
        != kept[j].content_hash by {
        assert(kept[i] == joined[i]);
        assert(kept[j] == joined[j]);
    }
}

/// A deletion leaves no two unpinned entries with the same fingerprint, if
/// there were none before.
pub proof fn law_delete_keeps_distinct(list: Seq<ItemView>, id: Seq<char>)
    requires
        unpinned_distinct(list),
    ensures
        unpinned_distinct(without_id(list, id)),
{
    lemma_parts_of_filtered(list, has_other_id(id));
    lemma_filter_keeps_differ(unpinned_part(list), has_other_id(id));
}

/// Cutting down leaves only entries that were there.
pub proof fn lemma_keep_recent_inherits(
    list: Seq<ItemView>,
    limit: nat,
    good: spec_fn(ItemView) -> bool,
)
    requires
        forall|i: int| 0 <= i < list.len() ==> good(#[trigger] list[i]),
    ensures
        forall|k: int|
            0 <= k < keep_recent(list, limit).len() ==> good(#[trigger] keep_recent(list, limit)[k]),
    decreases list.len(),
{
    if list.len() > 0 {
        let front = list.drop_last();
        assert forall|i: int| 0 <= i < front.len() implies good(#[trigger] front[i]) by {
            assert(front[i] == list[i]);
        }
        lemma_keep_recent_inherits(front, limit, good);
        assert(good(list[list.len() - 1]));
        let kept = keep_recent(list, limit);
        let before = keep_recent(front, limit);
        assert forall|k: int| 0 <= k < kept.len() implies good(#[trigger] kept[k]) by {
            if k < before.len() {
                assert(kept[k] == before[k]);
            }
        }
    }
}

/// The test for an entry that carries the fingerprint of its content.
pub open spec fn is_current() -> spec_fn(ItemView) -> bool {
    |entry: ItemView| hash_is_current(entry)
}

/// An insertion of an entry with a current fingerprint leaves every
/// fingerprint current, if every one was.
pub proof fn law_insert_keeps_current(list: Seq<ItemView>, entry: ItemView)
    requires
        all_current(list),
        hash_is_current(entry),
    ensures
        all_current(inserted(list, entry)),
{
    let cleared = without_hash(list, entry.content_hash);
    let at = pinned_part(cleared).len() as int;
    lemma_parts_are_pure(cleared);
    assert forall|i: int| 0 <= i < list.len() implies is_current()(#[trigger] list[i]) by {
        assert(hash_is_current(list[i]));
    }
    lemma_filter_inherits(list, survives(entry.content_hash), is_current());
    let placed = cleared.insert(at, entry);
    assert forall|i: int| 0 <= i < placed.len() implies is_current()(#[trigger] placed[i]) by {
        if i < at {
            assert(placed[i] == cleared[i]);
            assert(is_current()(cleared[i]));
        } else if i > at {
            assert(placed[i] == cleared[i - 1]);
            assert(is_current()(cleared[i - 1]));
        }
    }
    lemma_keep_recent_inherits(placed, MAX_ITEMS as nat, is_current());
    let result = inserted(list, entry);
    assert forall|k: int| 0 <= k < result.len() implies hash_is_current(#[trigger] result[k]) by {
        assert(is_current()(result[k]));
    }
}

/// A toggle leaves every fingerprint current, if every one was.
pub proof fn law_toggle_keeps_current(list: Seq<ItemView>, id: Seq<char>)
    requires
        all_current(list),
    ensures
        all_current(toggled(list, id)),
{
    if has_id(list, id) {
        lemma_index_of_id(list, id);
        let index = index_of_id(list, id)->0;
        let turned = list.update(index, flipped(list[index]));
        assert forall|i: int| 0 <= i < turned.len() implies is_current()(#[trigger] turned[i]) by {
            assert(hash_is_current(list[i]));
        }
        lemma_parts_inherit(turned, is_current());
        let fixed = pinned_part(turned);
        let loose = unpinned_part(turned);
        let result = toggled(list, id);
        assert forall|k: int| 0 <= k < result.len() implies hash_is_current(#[trigger] result[k]) by {
            if k < fixed.len() {
                assert(is_current()(fixed[k]));
            } else {
                assert(is_current()(loose[k - fixed.len()]));
            }
        }
    }
}

/// A deletion leaves every fingerprint current, if every one was.
pub proof fn law_delete_keeps_current(list: Seq<ItemView>, id: Seq<char>)
    requires
        all_current(list),
    ensures
        all_current(without_id(list, id)),
{
    assert forall|i: int| 0 <= i < list.len() implies is_current()(#[trigger] list[i]) by {
        assert(hash_is_current(list[i]));
    }
    lemma_filter_inherits(list, has_other_id(id), is_current());
    let result = without_id(list, id);
    assert forall|k: int| 0 <= k < result.len() implies hash_is_current(#[trigger] result[k]) by {
        assert(is_current()(result[k]));
    }
}

/// Inserting again what was inserted last is refused.
///
/// Let an insertion of `content` have gone through and made `entry`. Then a
/// second insertion of the same content, whatever comes of it under the
/// engine's contract, adds nothing and leaves the state as the first left it.
pub proof fn law_repeated_insert_is_refused(
    first: EngineView,
    content: ContentView,
    entry: ItemView,
    second: EngineView,
    added: bool,
)
    requires
        is_fresh_entry(entry, content),
        insert_outcome(after_insert(first, entry), content, second, added),
    ensures
        !added,
        second == after_insert(first, entry),
        second.items == after_insert(first, entry).items,
{
}

/// Computing the fingerprints anew changes no pin flag, so the order of
/// pinned and unpinned entries is what it was.
pub proof fn lemma_refreshed_keeps_order(list: Seq<ItemView>)
    ensures
        pinned_first(refreshed(list)) == pinned_first(list),
        all_current(refreshed(list)),
{
    let fresh = refreshed(list);
    if pinned_first(list) {
        assert forall|i: int, j: int| 0 <= i < j < fresh.len() && fresh[j].pinned implies fresh[i].pinned by {
            assert(list[j].pinned);
            assert(list[i].pinned);
        }
    }
    if pinned_first(fresh) {
        assert forall|i: int, j: int| 0 <= i < j < list.len() && list[j].pinned implies list[i].pinned by {
            assert(fresh[j].pinned);
            assert(fresh[i].pinned);
        }
    }
}

/// Two entries that agree in what the history file stores of an entry:
/// content, timestamp, pin flag and identifier.
pub open spec fn same_record(a: ItemView, b: ItemView) -> bool {
    &&& a.content == b.content
    &&& a.timestamp == b.timestamp
    &&& a.pinned == b.pinned
    &&& a.id == b.id
}

/// Saving and loading give the history back.
///
/// Let `decoded` be what was read back for the list `saved`: as long, and
/// entry by entry the same record. Then the loaded list has the records of
/// `saved` with each fingerprint computed from the saved content, and it is
/// `saved` itself if the fingerprints of `saved` were current.
pub proof fn law_reload_restores(saved: Seq<ItemView>, decoded: Seq<ItemView>)
    requires
        decoded.len() == saved.len(),
        forall|i: int| 0 <= i < saved.len() ==> same_record(#[trigger] saved[i], decoded[i]),
    ensures
        loaded(Some(decoded)).len() == saved.len(),
        forall|i: int|
            0 <= i < saved.len() ==> same_record(#[trigger] loaded(Some(decoded))[i], saved[i])
                && loaded(Some(decoded))[i].content_hash == fingerprint(saved[i].content),
        all_current(saved) ==> loaded(Some(decoded)) == saved,
{
    let back = loaded(Some(decoded));
    assert forall|i: int| 0 <= i < saved.len() implies same_record(#[trigger] back[i], saved[i])
        && back[i].content_hash == fingerprint(saved[i].content) by {
        assert(same_record(saved[i], decoded[i]));
        assert(back[i] == with_current_hash(decoded[i]));
    }
    if all_current(saved) {
        assert forall|i: int| 0 <= i < saved.len() implies back[i] == saved[i] by {
            assert(same_record(back[i], saved[i]));
            assert(hash_is_current(saved[i]));
        }
        assert(back =~= saved);
    }
}

/// Equality of contents is an equivalence: every content equals itself, and
/// equality can be turned round and chained.
pub proof fn law_content_eq_is_equivalence(a: ContentView, b: ContentView, c: ContentView)
    ensures
        content_eq(a, a),
        content_eq(a, b) ==> content_eq(b, a),
        content_eq(a, b) && content_eq(b, c) ==> content_eq(a, c),
{
}

/// Equal contents have equal fingerprints, as far as equality looks at all
/// that the fingerprint takes in: always for texts; for images where width
/// and height agree and the PNG file is short enough to be compared byte by
/// byte.
pub proof fn law_equal_contents_share_fingerprint(a: ContentView, b: ContentView)
    requires
        content_eq(a, b),
        a matches ContentView::Image { png_data, width, height, .. } ==> {
            &&& png_data.len() <= EXACT_COMPARE_LIMIT
            &&& b matches ContentView::Image { width: other_width, height: other_height, .. }
            &&& other_width == width
            &&& other_height == height
        },
    ensures
        fingerprint(a) == fingerprint(b),
{
    assert(hash_feed(a) == hash_feed(b));
}

} // verus!
