//! The history engine: what it holds, and what each operation does to it.
//!
//! The engine never touches the system clipboard or a file. Its caller reads
//! the clipboard and hands the reading in, writes what a paste hands out, and
//! carries the snapshots that wait in the mailbox to the history file.

use crate::history::{
    entries, find_id, has_id, index_of_id, insert_entry, inserted, pinned_first, pinned_part,
    remove_with_id, toggle_entry, toggled, unpinned_distinct, unpinned_part, without_id,
};
use crate::imaging::{
    create_thumbnail, png_of_rgba, png_to_rgba, rgba_of_image, rgba_to_png, thumbnail_of_rgba,
};
use crate::models::{
    compute_hash, content_size, fingerprint, hash_is_current, is_clock_time, is_hyphenated_id,
    ClipboardContent, ClipboardItem, ContentView, ItemView, HASH_SAMPLE_SIZE, MAX_IMAGE_SIZE,
    MAX_ITEMS, MAX_TEXT_SIZE,
};
use crate::laws::{
    law_delete_in_order, law_delete_keeps_current, law_delete_keeps_distinct,
    law_insert_bounds_unpinned, law_insert_in_order, law_insert_keeps_current,
    law_insert_keeps_distinct, law_insert_keeps_pinned, law_toggle_in_order,
    law_toggle_keeps_current, lemma_refreshed_keeps_order,
};
use crate::storage::{all_current, loaded, Storage};
use std::collections::hash_map::DefaultHasher;
use std::hash::Hasher;
use vstd::bytes::{spec_u32_to_le_bytes, spec_u64_to_le_bytes, u32_to_le_bytes, u64_to_le_bytes};
use vstd::prelude::*;
use vstd::slice::slice_subrange;
use vstd::std_specs::hash::DefaultHasherAdditionalSpecFns;

verus! {

/// An image as the system clipboard gives it: four bytes for each pixel.
#[derive(Debug)]
pub struct RawImage {
    pub bytes: Vec<u8>,
    pub width: u32,
    pub height: u32,
}

/// The mathematical value of a [`RawImage`].
pub struct RawImageView {
    pub bytes: Seq<u8>,
    pub width: u32,
    pub height: u32,
}

impl View for RawImage {
    type V = RawImageView;

    open spec fn view(&self) -> RawImageView {
        RawImageView { bytes: self.bytes@, width: self.width, height: self.height }
    }
}

/// What one look at the system clipboard found.
#[derive(Debug)]
pub struct ClipboardReading {
    pub image: Option<RawImage>,
    pub text: Option<String>,
}

/// The mathematical value of a [`ClipboardReading`].
pub struct ReadingView {
    pub image: Option<RawImageView>,
    pub text: Option<Seq<char>>,
}

impl View for ClipboardReading {
    type V = ReadingView;

    open spec fn view(&self) -> ReadingView {
        ReadingView {
            image: match self.image {
                Some(image) => Some(image@),
                None => None,
            },
            text: match self.text {
                Some(text) => Some(text@),
                None => None,
            },
        }
    }
}

/// What a paste asks its caller to put on the system clipboard.
#[derive(Debug)]
pub enum ClipboardPayload {
    Text(String),
    Image(RawImage),
}

/// The mathematical value of a [`ClipboardPayload`].
pub enum PayloadView {
    Text(Seq<char>),
    Image(RawImageView),
}

impl View for ClipboardPayload {
    type V = PayloadView;

    open spec fn view(&self) -> PayloadView {
        match self {
            ClipboardPayload::Text(text) => PayloadView::Text(text@),
            ClipboardPayload::Image(image) => PayloadView::Image(image@),
        }
    }
}

/// Why a paste did not happen.
#[derive(Debug)]
pub enum PasteError {
    /// No entry has the identifier.
    NotFound,
    /// The engine holds no connection to the system clipboard.
    ClipboardUnavailable,
    /// The stored image could not be turned back into pixels.
    DecodeFailed,
    /// The system clipboard refused the write; the text is its message.
    WriteFailed(String),
}

/// The mathematical value of a [`PasteError`].
pub enum PasteErrorView {
    NotFound,
    ClipboardUnavailable,
    DecodeFailed,
    WriteFailed(Seq<char>),
}

impl View for PasteError {
    type V = PasteErrorView;

    open spec fn view(&self) -> PasteErrorView {
        match self {
            PasteError::NotFound => PasteErrorView::NotFound,
            PasteError::ClipboardUnavailable => PasteErrorView::ClipboardUnavailable,
            PasteError::DecodeFailed => PasteErrorView::DecodeFailed,
            PasteError::WriteFailed(message) => PasteErrorView::WriteFailed(message@),
        }
    }
}

impl PasteError {
    /// The error in words.
    pub fn message(&self) -> (text: String)
        ensures
            text@ == match self@ {
                PasteErrorView::NotFound => "Item not found"@,
                PasteErrorView::ClipboardUnavailable => "Clipboard not available"@,
                PasteErrorView::DecodeFailed => "Failed to decode image"@,
                PasteErrorView::WriteFailed(message) => message,
            },
    {
        match self {
            PasteError::NotFound => "Item not found".to_owned(),
            PasteError::ClipboardUnavailable => "Clipboard not available".to_owned(),
            PasteError::DecodeFailed => "Failed to decode image".to_owned(),
            PasteError::WriteFailed(message) => message.clone(),
        }
    }
}

/// The state of the engine.
pub struct EngineView {
    /// The history, first entry first.
    pub items: Seq<ItemView>,
    /// The fingerprint of the text that was last inserted or pasted.
    pub last_text_hash: u64,
    /// The fingerprint of the image that was last inserted or pasted.
    pub last_image_hash: u64,
    /// The snapshot that waits to be written to the history file.
    pub pending: Option<Seq<ItemView>>,
    /// Whether a connection to the system clipboard is held.
    pub clipboard_ready: bool,
}

/// The last-seen fingerprint that belongs to the kind of `content`.
pub open spec fn last_seen(state: EngineView, content: ContentView) -> u64 {
    match content {
        ContentView::Text(_) => state.last_text_hash,
        ContentView::Image { .. } => state.last_image_hash,
    }
}

/// The largest size that the history accepts for the kind of `content`.
pub open spec fn size_limit(content: ContentView) -> nat {
    match content {
        ContentView::Text(_) => MAX_TEXT_SIZE as nat,
        ContentView::Image { .. } => MAX_IMAGE_SIZE as nat,
    }
}

/// Whether an insertion of `content` goes through: its fingerprint is not the
/// one last seen for its kind, and it is neither empty nor over the limit.
pub open spec fn accepts(state: EngineView, content: ContentView) -> bool {
    &&& fingerprint(content) != last_seen(state, content)
    &&& 0 < content_size(content) <= size_limit(content)
}

/// `state` with the fingerprint of `entry` as the last seen of its kind.
pub open spec fn with_last_seen(state: EngineView, entry: ItemView) -> EngineView {
    match entry.content {
        ContentView::Text(_) => EngineView { last_text_hash: entry.content_hash, ..state },
        ContentView::Image { .. } => EngineView { last_image_hash: entry.content_hash, ..state },
    }
}

/// `state` with `items` as its history and as the waiting snapshot.
pub open spec fn with_saved_items(state: EngineView, items: Seq<ItemView>) -> EngineView {
    EngineView { items, pending: Some(items), ..state }
}

/// The state after `entry` went into the history.
pub open spec fn after_insert(state: EngineView, entry: ItemView) -> EngineView {
    with_saved_items(with_last_seen(state, entry), inserted(state.items, entry))
}

/// The state after the pin of `id` was toggled: nothing changes where no
/// entry has the identifier.
pub open spec fn after_toggle(state: EngineView, id: Seq<char>) -> EngineView {
    if has_id(state.items, id) {
        with_saved_items(state, toggled(state.items, id))
    } else {
        state
    }
}

/// The state after the entries with the identifier `id` were deleted:
/// nothing changes where no entry has the identifier.
pub open spec fn after_delete(state: EngineView, id: Seq<char>) -> EngineView {
    if has_id(state.items, id) {
        with_saved_items(state, without_id(state.items, id))
    } else {
        state
    }
}

/// An entry as an insertion of `content` makes it: unpinned, with the
/// content's fingerprint, a wall-clock time and a hyphenated identifier.
pub open spec fn is_fresh_entry(entry: ItemView, content: ContentView) -> bool {
    &&& entry.content == content
    &&& !entry.pinned
    &&& entry.content_hash == fingerprint(content)
    &&& is_clock_time(entry.timestamp)
    &&& is_hyphenated_id(entry.id)
}

/// What an insertion of `content` owes: it goes through exactly when the
/// state accepts the content; a refused insertion changes nothing; one that
/// goes through leads to [`after_insert`] for some fresh entry. Where no
/// unpinned entry stood before a pinned one, that entry is found right behind
/// the pinned entries.
pub open spec fn insert_outcome(
    before: EngineView,
    content: ContentView,
    after: EngineView,
    added: bool,
) -> bool {
    &&& added == accepts(before, content)
    &&& !added ==> after == before
    &&& added ==> exists|entry: ItemView|
        is_fresh_entry(entry, content) && after == #[trigger] after_insert(before, entry)
    &&& added && pinned_first(before.items) ==> {
        let at = pinned_part(before.items).len() as int;
        &&& at < after.items.len()
        &&& is_fresh_entry(after.items[at], content)
        &&& after == after_insert(before, after.items[at])
    }
}

/// The writes that the quick fingerprint of a raw image makes: width, height
/// and byte count in little-endian bytes, then, unless there are no pixels,
/// the first `HASH_SAMPLE_SIZE` bytes (or all, if there are fewer) behind
/// their count.
pub open spec fn raw_image_feed(image: RawImageView) -> Seq<Seq<u8>> {
    let head = if image.bytes.len() < HASH_SAMPLE_SIZE {
        image.bytes.len() as int
    } else {
        HASH_SAMPLE_SIZE as int
    };
    let start = seq![
        spec_u32_to_le_bytes(image.width),
        spec_u32_to_le_bytes(image.height),
        spec_u64_to_le_bytes(image.bytes.len() as u64),
    ];
    if image.bytes.len() == 0 {
        start
    } else {
        start + seq![spec_u64_to_le_bytes(head as u64), image.bytes.subrange(0, head)]
    }
}

/// The quick fingerprint of a raw image.
pub open spec fn raw_image_fingerprint(image: RawImageView) -> u64 {
    DefaultHasher::spec_finish(raw_image_feed(image))
}

/// Computes the quick fingerprint of a raw image.
pub fn quick_hash(image: &RawImage) -> (hash: u64)
    ensures
        hash == raw_image_fingerprint(image@),
{
    let mut hasher = DefaultHasher::new();
    let len: usize = image.bytes.len();
    hasher.write(u32_to_le_bytes(image.width).as_slice());
    hasher.write(u32_to_le_bytes(image.height).as_slice());
    hasher.write(u64_to_le_bytes(len as u64).as_slice());
    if len > 0 {
        let head: usize = if len < HASH_SAMPLE_SIZE { len } else { HASH_SAMPLE_SIZE };
        hasher.write(u64_to_le_bytes(head as u64).as_slice());
        hasher.write(slice_subrange(image.bytes.as_slice(), 0, head));
    }
    assert(hasher@ =~= raw_image_feed(image@));
    hasher.finish()
}

/// The content that an encoded image and its thumbnail make, where the codec
/// gave both.
pub open spec fn image_content_of(
    png: Option<Seq<u8>>,
    thumbnail: Option<Seq<u8>>,
    width: u32,
    height: u32,
) -> Option<ContentView> {
    match (png, thumbnail) {
        (Some(png_data), Some(thumbnail_png)) => Some(
            ContentView::Image { png_data, thumbnail_png, width, height },
        ),
        _ => None,
    }
}

/// Puts an encoded image and its thumbnail together.
pub fn image_content(
    png: Option<Vec<u8>>,
    thumbnail: Option<Vec<u8>>,
    width: u32,
    height: u32,
) -> (content: Option<ClipboardContent>)
    ensures
        match content {
            Some(made) => image_content_of(
                match png {
                    Some(bytes) => Some(bytes@),
                    None => None,
                },
                match thumbnail {
                    Some(bytes) => Some(bytes@),
                    None => None,
                },
                width,
                height,
            ) == Some(made@),
            None => png is None || thumbnail is None,
        },
{
    match (png, thumbnail) {
        (Some(png_data), Some(thumbnail_png)) => Some(
            ClipboardContent::Image { png_data, thumbnail_png, width, height },
        ),
        _ => None,
    }
}

/// The image content that a reading leads to: none where the image's quick
/// fingerprint is the last-seen image fingerprint, or where the codec gives
/// no PNG file or no thumbnail for it.
pub open spec fn image_candidate(state: EngineView, image: RawImageView) -> Option<ContentView> {
    if raw_image_fingerprint(image) == state.last_image_hash {
        None
    } else {
        image_content_of(
            png_of_rgba(image.bytes, image.width, image.height),
            thumbnail_of_rgba(image.bytes, image.width, image.height),
            image.width,
            image.height,
        )
    }
}

/// The text content that a reading leads to: none for an empty text or one
/// whose fingerprint is the last-seen text fingerprint.
pub open spec fn text_candidate(state: EngineView, text: Seq<char>) -> Option<ContentView> {
    if text.len() == 0 || fingerprint(ContentView::Text(text)) == state.last_text_hash {
        None
    } else {
        Some(ContentView::Text(text))
    }
}

/// The content that a reading hands to an insertion, if any: the image where
/// it leads to one, else the text. Without a clipboard connection there is
/// none.
pub open spec fn candidate(state: EngineView, reading: ReadingView) -> Option<ContentView> {
    if !state.clipboard_ready {
        None
    } else {
        let from_image = match reading.image {
            Some(image) => image_candidate(state, image),
            None => None,
        };
        match from_image {
            Some(content) => Some(content),
            None => match reading.text {
                Some(text) => text_candidate(state, text),
                None => None,
            },
        }
    }
}

/// What a stored content puts on the system clipboard: a text as it is, an
/// image as the pixels that the codec decodes from its PNG file.
pub open spec fn payload_of(content: ContentView) -> Result<PayloadView, PasteErrorView> {
    match content {
        ContentView::Text(text) => Ok(PayloadView::Text(text)),
        ContentView::Image { png_data, .. } => match rgba_of_image(png_data) {
            Some((bytes, width, height)) => Ok(
                PayloadView::Image(RawImageView { bytes, width, height }),
            ),
            None => Err(PasteErrorView::DecodeFailed),
        },
    }
}

/// What a paste of `id` asks for: an unknown identifier and a missing
/// clipboard connection are refused, in that order.
pub open spec fn paste_request(state: EngineView, id: Seq<char>) -> Result<
    PayloadView,
    PasteErrorView,
> {
    match index_of_id(state.items, id) {
        None => Err(PasteErrorView::NotFound),
        Some(index) => if !state.clipboard_ready {
            Err(PasteErrorView::ClipboardUnavailable)
        } else {
            payload_of(state.items[index].content)
        },
    }
}

/// The payload for decoded pixels, or the error for none.
pub fn image_payload(decoded: Option<(Vec<u8>, u32, u32)>) -> (payload: Result<
    ClipboardPayload,
    PasteError,
>)
    ensures
        match decoded {
            Some((bytes, width, height)) => {
                &&& payload matches Ok(made)
                &&& made@ == PayloadView::Image(RawImageView { bytes: bytes@, width, height })
            },
            None => {
                &&& payload matches Err(error)
                &&& error@ == PasteErrorView::DecodeFailed
            },
        },
{
    match decoded {
        Some((bytes, width, height)) => Ok(
            ClipboardPayload::Image(RawImage { bytes, width, height }),
        ),
        None => Err(PasteError::DecodeFailed),
    }
}

/// The history engine.
pub struct ClipboardManager {
    items: Vec<ClipboardItem>,
    last_text_hash: u64,
    last_image_hash: u64,
    storage: Storage,
    clipboard_ready: bool,
}

impl View for ClipboardManager {
    type V = EngineView;

    closed spec fn view(&self) -> EngineView {
        EngineView {
            items: entries(self.items@),
            last_text_hash: self.last_text_hash,
            last_image_hash: self.last_image_hash,
            pending: self.storage@,
            clipboard_ready: self.clipboard_ready,
        }
    }
}

impl ClipboardManager {
    /// Every entry of the history carries the fingerprint of its content.
    #[verifier::type_invariant]
    spec fn fingerprints_current(self) -> bool {
        all_current(entries(self.items@))
    }

    /// An engine that starts with what was decoded from the history file
    /// (`None` for a missing or unreadable file), every fingerprint computed
    /// anew. `clipboard_ready` says whether the caller holds a connection to
    /// the system clipboard.
    pub fn new(decoded: Option<Vec<ClipboardItem>>, clipboard_ready: bool) -> (engine: Self)
        ensures
            engine@ == (EngineView {
                items: loaded(
                    match decoded {
                        Some(list) => Some(entries(list@)),
                        None => None,
                    },
                ),
                last_text_hash: 0,
                last_image_hash: 0,
                pending: None,
                clipboard_ready,
            }),
            all_current(engine@.items),
            match decoded {
                Some(list) => pinned_first(engine@.items) == pinned_first(entries(list@)),
                None => pinned_first(engine@.items),
            },
    {
        proof {
            if decoded is Some {
                lemma_refreshed_keeps_order(entries(decoded->0@));
            }
        }
        let storage = Storage::new();
        let items = storage.load_items(decoded);
        ClipboardManager { items, last_text_hash: 0, last_image_hash: 0, storage, clipboard_ready }
    }

    /// The history, first entry first.
    pub fn get_items(&self) -> (items: &[ClipboardItem])
        ensures
            entries(items@) == self@.items,
            all_current(self@.items),
    {
        proof {
            use_type_invariant(self);
        }
        self.items.as_slice()
    }

    /// Whether the engine counts on a connection to the system clipboard.
    pub fn is_clipboard_ready(&self) -> (ready: bool)
        ensures
            ready == self@.clipboard_ready,
    {
        self.clipboard_ready
    }

    /// Records whether the caller's attempt at a fresh connection to the
    /// system clipboard gave one.
    pub fn refresh_clipboard(&mut self, acquired: bool)
        ensures
            final(self)@ == (EngineView { clipboard_ready: acquired, ..old(self)@ }),
    {
        proof {
            use_type_invariant(&*self);
        }
        self.clipboard_ready = acquired;
    }

    /// Takes the waiting snapshot out of the mailbox, for the caller to hand
    /// to the writer of the history file.
    pub fn take_snapshot(&mut self) -> (snapshot: Option<Vec<ClipboardItem>>)
        ensures
            final(self)@ == (EngineView { pending: None, ..old(self)@ }),
            match snapshot {
                Some(items) => old(self)@.pending == Some(entries(items@)),
                None => old(self)@.pending is None,
            },
    {
        proof {
            use_type_invariant(&*self);
        }
        let mut storage = Storage::new();
        std::mem::swap(&mut storage, &mut self.storage);
        let snapshot = storage.take_pending();
        self.storage = storage;
        snapshot
    }

    /// Leaves a snapshot of the history in the mailbox.
    fn enqueue_snapshot(&mut self)
        ensures
            final(self)@ == with_saved_items(old(self)@, old(self)@.items),
    {
        proof {
            use_type_invariant(&*self);
        }
        let mut storage = Storage::new();
        std::mem::swap(&mut storage, &mut self.storage);
        storage.save_items_async(self.items.as_slice());
        self.storage = storage;
    }

    fn accepts_content(&self, content: &ClipboardContent, hash: u64) -> (accepted: bool)
        requires
            hash == fingerprint(content@),
        ensures
            accepted == accepts(self@, content@),
    {
        match content {
            ClipboardContent::Text(text) => {
                let size = text.as_str().as_bytes().len();
                hash != self.last_text_hash && size != 0 && size <= MAX_TEXT_SIZE
            },
            ClipboardContent::Image { png_data, .. } => {
                let size = png_data.len();
                hash != self.last_image_hash && size != 0 && size <= MAX_IMAGE_SIZE
            },
        }
    }

    fn place(&mut self, item: ClipboardItem)
        requires
            !item.pinned,
            hash_is_current(item@),
        ensures
            final(self)@ == after_insert(old(self)@, item@),
            unpinned_part(final(self)@.items).len() <= MAX_ITEMS,
            pinned_part(final(self)@.items) == pinned_part(old(self)@.items),
            pinned_first(old(self)@.items) ==> pinned_first(final(self)@.items),
            pinned_first(old(self)@.items) ==> {
                let at = pinned_part(old(self)@.items).len() as int;
                at < final(self)@.items.len() && final(self)@.items[at] == item@
            },
            unpinned_distinct(old(self)@.items) ==> unpinned_distinct(final(self)@.items),
    {
        proof {
            use_type_invariant(&*self);
            let list = self@.items;
            law_insert_keeps_current(list, item@);
            law_insert_bounds_unpinned(list, item@);
            law_insert_keeps_pinned(list, item@);
            if pinned_first(list) {
                law_insert_in_order(list, item@);
            }
            if unpinned_distinct(list) {
                law_insert_keeps_distinct(list, item@);
            }
        }
        let hash = item.content_hash;
        let is_text = item.is_text();
        let mut items: Vec<ClipboardItem> = Vec::new();
        std::mem::swap(&mut items, &mut self.items);
        self.items = insert_entry(items, item);
        if is_text {
            self.last_text_hash = hash;
        } else {
            self.last_image_hash = hash;
        }
        self.enqueue_snapshot();
    }

    /// Inserts `content` with the current time and a fresh identifier, unless
    /// the state refuses it. Returns whether an entry went in.
    pub fn add_item(&mut self, content: ClipboardContent) -> (added: bool)
        ensures
            insert_outcome(old(self)@, content@, final(self)@, added),
            added || unpinned_part(old(self)@.items).len() <= MAX_ITEMS ==> unpinned_part(
                final(self)@.items,
            ).len() <= MAX_ITEMS,
            pinned_part(final(self)@.items) == pinned_part(old(self)@.items),
            pinned_first(old(self)@.items) ==> pinned_first(final(self)@.items),
            unpinned_distinct(old(self)@.items) ==> unpinned_distinct(final(self)@.items),
    {
        let hash = compute_hash(&content);
        if !self.accepts_content(&content, hash) {
            return false;
        }
        let item = ClipboardItem::new(content);
        proof {
            assert(is_fresh_entry(item@, content@));
        }
        self.place(item);
        true
    }

    /// Inserts `content` as [`ClipboardManager::add_item`] does, with the
    /// time and the identifier given.
    pub fn add_item_with_stamp(
        &mut self,
        content: ClipboardContent,
        timestamp: String,
        id: String,
    ) -> (added: bool)
        ensures
            added == accepts(old(self)@, content@),
            !added ==> final(self)@ == old(self)@,
            added ==> final(self)@ == after_insert(
                old(self)@,
                ItemView {
                    content: content@,
                    timestamp: timestamp@,
                    pinned: false,
                    id: id@,
                    content_hash: fingerprint(content@),
                },
            ),
            added || unpinned_part(old(self)@.items).len() <= MAX_ITEMS ==> unpinned_part(
                final(self)@.items,
            ).len() <= MAX_ITEMS,
            pinned_part(final(self)@.items) == pinned_part(old(self)@.items),
            pinned_first(old(self)@.items) ==> pinned_first(final(self)@.items),
            unpinned_distinct(old(self)@.items) ==> unpinned_distinct(final(self)@.items),
    {
        let hash = compute_hash(&content);
        if !self.accepts_content(&content, hash) {
            return false;
        }
        let item = ClipboardItem::with_stamp(content, timestamp, id);
        self.place(item);
        true
    }

    /// Flips the pin of the first entry with the identifier `id` and moves
    /// the pinned entries to the front. An unknown identifier changes nothing.
    pub fn toggle_pin(&mut self, id: &str)
        ensures
            final(self)@ == after_toggle(old(self)@, id@),
            has_id(old(self)@.items, id@) || pinned_first(old(self)@.items) ==> pinned_first(
                final(self)@.items,
            ),
    {
        proof {
            use_type_invariant(&*self);
            law_toggle_in_order(self@.items, id@);
            law_toggle_keeps_current(self@.items, id@);
        }
        let wanted = id.to_owned();
        if find_id(&self.items, &wanted).is_some() {
            let mut items: Vec<ClipboardItem> = Vec::new();
            std::mem::swap(&mut items, &mut self.items);
            self.items = toggle_entry(items, &wanted);
            self.enqueue_snapshot();
        }
    }

    /// Deletes every entry with the identifier `id`, pinned or not. An unknown
    /// identifier changes nothing.
    pub fn delete_item(&mut self, id: &str)
        ensures
            final(self)@ == after_delete(old(self)@, id@),
            pinned_first(old(self)@.items) ==> pinned_first(final(self)@.items),
            unpinned_distinct(old(self)@.items) ==> unpinned_distinct(final(self)@.items),
    {
        proof {
            use_type_invariant(&*self);
            law_delete_keeps_current(self@.items, id@);
            if pinned_first(self@.items) {
                law_delete_in_order(self@.items, id@);
            }
            if unpinned_distinct(self@.items) {
                law_delete_keeps_distinct(self@.items, id@);
            }
        }
        let wanted = id.to_owned();
        if find_id(&self.items, &wanted).is_some() {
            let mut items: Vec<ClipboardItem> = Vec::new();
            std::mem::swap(&mut items, &mut self.items);
            self.items = remove_with_id(items, &wanted);
            self.enqueue_snapshot();
        }
    }

    /// Takes one reading of the system clipboard: inserts the image where the
    /// reading leads to one, else the text. Returns whether an entry went in.
    pub fn check_clipboard_fast(&mut self, reading: ClipboardReading) -> (added: bool)
        ensures
            match candidate(old(self)@, reading@) {
                Some(content) => insert_outcome(old(self)@, content, final(self)@, added),
                None => !added && final(self)@ == old(self)@,
            },
            added || unpinned_part(old(self)@.items).len() <= MAX_ITEMS ==> unpinned_part(
                final(self)@.items,
            ).len() <= MAX_ITEMS,
            pinned_part(final(self)@.items) == pinned_part(old(self)@.items),
            pinned_first(old(self)@.items) ==> pinned_first(final(self)@.items),
            unpinned_distinct(old(self)@.items) ==> unpinned_distinct(final(self)@.items),
    {
        if !self.clipboard_ready {
            return false;
        }
        let ClipboardReading { image, text } = reading;
        if let Some(raw) = image {
            if quick_hash(&raw) != self.last_image_hash {
                let png = rgba_to_png(raw.bytes.as_slice(), raw.width, raw.height);
                let thumbnail = create_thumbnail(raw.bytes.as_slice(), raw.width, raw.height);
                if let Some(content) = image_content(png, thumbnail, raw.width, raw.height) {
                    return self.add_item(content);
                }
            }
        }
        if let Some(text) = text {
            if !text.as_str().is_empty() {
                let content = ClipboardContent::Text(text);
                if compute_hash(&content) != self.last_text_hash {
                    return self.add_item(content);
                }
            }
        }
        false
    }

    /// Prepares a paste of the first entry with the identifier `id`: says
    /// what the caller is to write to the system clipboard, or why nothing
    /// can be written. The engine is left as it is.
    pub fn paste_item(&self, id: &str) -> (request: Result<ClipboardPayload, PasteError>)
        ensures
            match request {
                Ok(payload) => paste_request(self@, id@) == Ok::<PayloadView, PasteErrorView>(
                    payload@,
                ),
                Err(error) => paste_request(self@, id@) == Err::<PayloadView, PasteErrorView>(
                    error@,
                ),
            },
    {
        let wanted = id.to_owned();
        match find_id(&self.items, &wanted) {
            None => Err(PasteError::NotFound),
            Some(index) => {
                if !self.clipboard_ready {
                    return Err(PasteError::ClipboardUnavailable);
                }
                match &self.items[index].content {
                    ClipboardContent::Text(text) => Ok(ClipboardPayload::Text(text.clone())),
                    ClipboardContent::Image { png_data, .. } => image_payload(
                        png_to_rgba(png_data.as_slice()),
                    ),
                }
            },
        }
    }

    /// Closes a paste of `id` with what the write to the system clipboard
    /// gave. After a write that went through, the entry's fingerprint is the
    /// last seen of its kind, so that the next reading of the clipboard does
    /// not bring the pasted content back as new. A refused write changes
    /// nothing and comes back as [`PasteError::WriteFailed`].
    pub fn finish_paste(&mut self, id: &str, written: Result<(), String>) -> (outcome: Result<
        (),
        PasteError,
    >)
        ensures
            match index_of_id(old(self)@.items, id@) {
                None => {
                    &&& final(self)@ == old(self)@
                    &&& outcome matches Err(error)
                    &&& error@ == PasteErrorView::NotFound
                },
                Some(index) => match written {
                    Ok(_) => {
                        &&& final(self)@ == with_last_seen(old(self)@, old(self)@.items[index])
                        &&& outcome is Ok
                    },
                    Err(message) => {
                        &&& final(self)@ == old(self)@
                        &&& outcome matches Err(error)
                        &&& error@ == PasteErrorView::WriteFailed(message@)
                    },
                },
            },
    {
        proof {
            use_type_invariant(&*self);
        }
        let wanted = id.to_owned();
        match find_id(&self.items, &wanted) {
            None => Err(PasteError::NotFound),
            Some(index) => match written {
                Err(message) => Err(PasteError::WriteFailed(message)),
                Ok(_) => {
                    let hash = self.items[index].content_hash;
                    if self.items[index].is_text() {
                        self.last_text_hash = hash;
                    } else {
                        self.last_image_hash = hash;
                    }
                    Ok(())
                },
            },
        }
    }
}

} // verus!
