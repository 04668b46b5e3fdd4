//! The snapshot mailbox between the engine and the writer of the history
//! file, and what is done to a list that was read back from that file.
//!
//! The mailbox holds one snapshot at most. A snapshot that arrives while
//! another is waiting replaces it, so the writer only ever sees the latest
//! state, however fast the engine changes.

use crate::history::entries;
use crate::models::{fingerprint, hash_is_current, ClipboardItem, ItemView};
use vstd::prelude::*;

verus! {

/// The mailbox. Its value is the snapshot that waits to be written, if any.
pub struct Storage {
    pending: Option<Vec<ClipboardItem>>,
}

impl View for Storage {
    type V = Option<Seq<ItemView>>;

    closed spec fn view(&self) -> Option<Seq<ItemView>> {
        match self.pending {
            Some(items) => Some(entries(items@)),
            None => None,
        }
    }
}

/// `entry` with the fingerprint of its content in `content_hash`.
pub open spec fn with_current_hash(entry: ItemView) -> ItemView {
    ItemView { content_hash: fingerprint(entry.content), ..entry }
}

/// `list` with every entry's fingerprint computed anew.
pub open spec fn refreshed(list: Seq<ItemView>) -> Seq<ItemView> {
    list.map_values(|entry: ItemView| with_current_hash(entry))
}

/// What a program starts with after reading the history file: nothing where
/// the file was missing or unreadable, else the decoded list, refreshed.
pub open spec fn loaded(decoded: Option<Seq<ItemView>>) -> Seq<ItemView> {
    match decoded {
        Some(list) => refreshed(list),
        None => Seq::empty(),
    }
}

/// Every entry of `list` carries the fingerprint of its content.
pub open spec fn all_current(list: Seq<ItemView>) -> bool {
    forall|i: int| 0 <= i < list.len() ==> hash_is_current(#[trigger] list[i])
}

/// Copies a list of entries.
pub fn copy_items(items: &[ClipboardItem]) -> (copy: Vec<ClipboardItem>)
    ensures
        entries(copy@) == entries(items@),
{
    let mut copy: Vec<ClipboardItem> = Vec::new();
    let mut index: usize = 0;
    while index < items.len()
        invariant
            index <= items.len(),
            entries(copy@) == entries(items@).take(index as int),
        decreases items.len() - index,
    {
        let item = items[index].clone();
        proof {
            assert(entries(copy@.push(item)) =~= entries(copy@).push(item@));
            assert(entries(items@).take(index + 1) =~= entries(items@).take(index as int).push(
                items@[index as int]@,
            ));
        }
        copy.push(item);
        index = index + 1;
    }
    proof {
        assert(entries(items@).take(items@.len() as int) =~= entries(items@));
    }
    copy
}

impl Storage {
    /// An empty mailbox.
    pub fn new() -> (storage: Self)
        ensures
            storage@ is None,
    {
        Storage { pending: None }
    }

    /// Leaves a copy of `items` in the mailbox, in place of whatever waited
    /// there, and returns at once.
    pub fn save_items_async(&mut self, items: &[ClipboardItem])
        ensures
            final(self)@ == Some(entries(items@)),
    {
        self.pending = Some(copy_items(items));
    }

    /// Takes the waiting snapshot out of the mailbox.
    pub fn take_pending(&mut self) -> (snapshot: Option<Vec<ClipboardItem>>)
        ensures
            final(self)@ is None,
            match snapshot {
                Some(items) => old(self)@ == Some(entries(items@)),
                None => old(self)@ is None,
            },
    {
        self.pending.take()
    }

    /// Turns what was decoded from the history file into the list to start
    /// with: `None`, for a missing or unreadable file, gives an empty list;
    /// a decoded list comes back with every fingerprint computed anew.
    pub fn load_items(&self, decoded: Option<Vec<ClipboardItem>>) -> (items: Vec<ClipboardItem>)
        ensures
            entries(items@) == loaded(
                match decoded {
                    Some(list) => Some(entries(list@)),
                    None => None,
                },
            ),
            all_current(entries(items@)),
            items@.len() == match decoded {
                Some(list) => list@.len(),
                None => 0,
            },
    {
        let mut items: Vec<ClipboardItem> = Vec::new();
        match decoded {
            None => {
                assert(entries(items@) =~= Seq::<ItemView>::empty());
            },
            Some(list) => {
                let ghost source = entries(list@);
                for item in it: list
                    invariant
                        it.seq() == list@,
                        source == entries(list@),
                        entries(items@) == refreshed(source.take(it.index() as int)),
                {
                    let mut item = item;
                    item.recompute_hash();
                    proof {
                        let k = it.index() as int;
                        assert(entries(items@.push(item)) =~= entries(items@).push(item@));
                        assert(refreshed(source.take(k + 1)) =~= refreshed(source.take(k)).push(
                            with_current_hash(source[k]),
                        ));
                    }
                    items.push(item);
                }
                proof {
                    assert(source.take(list@.len() as int) =~= source);
                }
            },
        }
        items
    }
}

} // verus!
