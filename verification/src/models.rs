//! Clipboard contents, their equality and their fingerprints.

use std::collections::hash_map::DefaultHasher;
use std::hash::Hasher;
use vstd::bytes::{spec_u32_to_le_bytes, spec_u64_to_le_bytes, u32_to_le_bytes, u64_to_le_bytes};
use vstd::prelude::*;
use vstd::slice::slice_subrange;
use vstd::std_specs::cmp::PartialEqSpecImpl;
use vstd::std_specs::hash::DefaultHasherAdditionalSpecFns;
use vstd::utf8::encode_utf8;

verus! {

/// Most unpinned entries the history keeps.
pub const MAX_ITEMS: usize = 50;

/// Largest text, in bytes, that the history accepts.
pub const MAX_TEXT_SIZE: usize = 4 * 1024 * 1024;

/// Largest encoded image, in bytes, that the history accepts.
pub const MAX_IMAGE_SIZE: usize = 50 * 1024 * 1024;

/// Longest side of a thumbnail, in pixels.
pub const THUMBNAIL_SIZE: u32 = 80;

/// Encoded images longer than this are compared by length and end bytes only.
pub const EXACT_COMPARE_LIMIT: usize = 10000;

/// Bytes taken from each end of an encoded image when it is fingerprinted.
pub const HASH_SAMPLE_SIZE: usize = 1024;

/// What the clipboard held: a text, or an image with its thumbnail.
///
/// `png_data` and `thumbnail_png` are complete PNG files, not raw pixels.
#[derive(Debug)]
pub enum ClipboardContent {
    Text(String),
    Image { png_data: Vec<u8>, thumbnail_png: Vec<u8>, width: u32, height: u32 },
}

/// The mathematical value of a [`ClipboardContent`].
pub enum ContentView {
    Text(Seq<char>),
    Image { png_data: Seq<u8>, thumbnail_png: Seq<u8>, width: u32, height: u32 },
}

impl View for ClipboardContent {
    type V = ContentView;

    open spec fn view(&self) -> ContentView {
        match self {
            ClipboardContent::Text(text) => ContentView::Text(text@),
            ClipboardContent::Image { png_data, thumbnail_png, width, height } => {
                ContentView::Image {
                    png_data: png_data@,
                    thumbnail_png: thumbnail_png@,
                    width: *width,
                    height: *height,
                }
            },
        }
    }
}

impl Clone for ClipboardContent {
    fn clone(&self) -> (res: Self)
        ensures
            res@ == self@,
    {
        match self {
            ClipboardContent::Text(text) => ClipboardContent::Text(text.clone()),
            ClipboardContent::Image { png_data, thumbnail_png, width, height } => {
                let png_copy = png_data.clone();
                let thumbnail_copy = thumbnail_png.clone();
                assert(png_copy@ =~= png_data@);
                assert(thumbnail_copy@ =~= thumbnail_png@);
                ClipboardContent::Image {
                    png_data: png_copy,
                    thumbnail_png: thumbnail_copy,
                    width: *width,
                    height: *height,
                }
            },
        }
    }
}

/// The byte length that the size limits are held against: the UTF-8 length
/// of a text, the length of an image's PNG file.
pub open spec fn content_size(content: ContentView) -> nat {
    match content {
        ContentView::Text(text) => encode_utf8(text).len(),
        ContentView::Image { png_data, .. } => png_data.len(),
    }
}

/// The writes that fingerprinting an image makes for its PNG bytes: nothing
/// for an empty file, else the first `HASH_SAMPLE_SIZE` bytes (or all, if
/// there are fewer) behind their count, and for a longer file also the last
/// `HASH_SAMPLE_SIZE` bytes behind theirs.
pub open spec fn sample_feed(data: Seq<u8>) -> Seq<Seq<u8>> {
    if data.len() == 0 {
        seq![]
    } else if data.len() <= HASH_SAMPLE_SIZE {
        seq![spec_u64_to_le_bytes(data.len() as u64), data]
    } else {
        seq![
            spec_u64_to_le_bytes(HASH_SAMPLE_SIZE as u64),
            data.subrange(0, HASH_SAMPLE_SIZE as int),
            spec_u64_to_le_bytes(HASH_SAMPLE_SIZE as u64),
            data.subrange(data.len() - HASH_SAMPLE_SIZE, data.len() as int),
        ]
    }
}

/// The writes that fingerprinting a content makes, in order.
///
/// A text gives a tag byte 0, its UTF-8 bytes and a closing byte 255. An
/// image gives a tag byte 1, width, height and PNG length in little-endian
/// bytes, then the samples of [`sample_feed`]. The thumbnail is left out.
pub open spec fn hash_feed(content: ContentView) -> Seq<Seq<u8>> {
    match content {
        ContentView::Text(text) => seq![seq![0u8], encode_utf8(text), seq![255u8]],
        ContentView::Image { png_data, width, height, .. } => {
            seq![
                seq![1u8],
                spec_u32_to_le_bytes(width),
                spec_u32_to_le_bytes(height),
                spec_u64_to_le_bytes(png_data.len() as u64),
            ] + sample_feed(png_data)
        },
    }
}

/// The fingerprint of a content: what the standard hasher makes of
/// [`hash_feed`].
pub open spec fn fingerprint(content: ContentView) -> u64 {
    DefaultHasher::spec_finish(hash_feed(content))
}

impl ClipboardContent {
    /// Feeds this content to `state`, write by write as [`hash_feed`] lists them.
    pub fn hash(&self, state: &mut DefaultHasher)
        ensures
            final(state)@ == old(state)@ + hash_feed(self@),
    {
        match self {
            ClipboardContent::Text(text) => {
                let tag: [u8; 1] = [0u8];
                let end: [u8; 1] = [255u8];
                state.write(tag.as_slice());
                state.write(text.as_str().as_bytes());
                state.write(end.as_slice());
                assert(tag@ =~= seq![0u8]);
                assert(end@ =~= seq![255u8]);
                assert(state@ =~= old(state)@ + hash_feed(self@));
            },
            ClipboardContent::Image { png_data, width, height, .. } => {
                let tag: [u8; 1] = [1u8];
                let len: usize = png_data.len();
                state.write(tag.as_slice());
                state.write(u32_to_le_bytes(*width).as_slice());
                state.write(u32_to_le_bytes(*height).as_slice());
                state.write(u64_to_le_bytes(len as u64).as_slice());
                assert(tag@ =~= seq![1u8]);
                if len > 0 {
                    let head: usize = if len < HASH_SAMPLE_SIZE { len } else { HASH_SAMPLE_SIZE };
                    state.write(u64_to_le_bytes(head as u64).as_slice());
                    state.write(slice_subrange(png_data.as_slice(), 0, head));
                    if len > HASH_SAMPLE_SIZE {
                        state.write(u64_to_le_bytes(HASH_SAMPLE_SIZE as u64).as_slice());
                        state.write(slice_subrange(png_data.as_slice(), len - HASH_SAMPLE_SIZE, len));
                    } else {
                        assert(png_data@.subrange(0, head as int) =~= png_data@);
                    }
                }
                assert(state@ =~= old(state)@ + hash_feed(self@));
            },
        }
    }
}

/// When two contents count as equal.
///
/// Texts are equal when they are the same string. Images are equal when
/// their PNG files are the same bytes, as long as neither file is longer than
/// `EXACT_COMPARE_LIMIT`; beyond that limit only the length, the first byte and
/// the last byte are compared. Width, height and thumbnail play no part.
pub open spec fn content_eq(a: ContentView, b: ContentView) -> bool {
    match (a, b) {
        (ContentView::Text(x), ContentView::Text(y)) => x == y,
        (ContentView::Image { png_data: x, .. }, ContentView::Image { png_data: y, .. }) => {
            if x.len() > EXACT_COMPARE_LIMIT || y.len() > EXACT_COMPARE_LIMIT {
                x.len() == y.len() && x.first() == y.first() && x.last() == y.last()
            } else {
                x == y
            }
        },
        _ => false,
    }
}

impl PartialEq for ClipboardContent {
    fn eq(&self, other: &Self) -> (res: bool) {
        match (self, other) {
            (ClipboardContent::Text(a), ClipboardContent::Text(b)) => *a == *b,
            (
                ClipboardContent::Image { png_data: a, .. },
                ClipboardContent::Image { png_data: b, .. },
            ) => {
                if a.len() > EXACT_COMPARE_LIMIT || b.len() > EXACT_COMPARE_LIMIT {
                    if a.len() != b.len() {
                        return false;
                    }
                    a[0] == b[0] && a[a.len() - 1] == b[b.len() - 1]
                } else {
                    let same = *a == *b;
                    assert(same == (a@ =~= b@));
                    same
                }
            },
            _ => false,
        }
    }
}

impl PartialEqSpecImpl for ClipboardContent {
    open spec fn obeys_eq_spec() -> bool {
        true
    }

    open spec fn eq_spec(&self, other: &Self) -> bool {
        content_eq(self@, other@)
    }
}

impl Eq for ClipboardContent {

}

/// Computes the fingerprint of `content` with a fresh standard hasher.
pub fn compute_hash(content: &ClipboardContent) -> (hash: u64)
    ensures
        hash == fingerprint(content@),
{
    let mut hasher = DefaultHasher::new();
    content.hash(&mut hasher);
    assert(hasher@ =~= hash_feed(content@));
    hasher.finish()
}

/// One entry of the history.
///
/// `content_hash` is derived from `content` and is never stored on disk:
/// [`ClipboardItem::recompute_hash`] restores it after an entry was read back.
#[derive(Debug)]
pub struct ClipboardItem {
    pub content: ClipboardContent,
    pub timestamp: String,
    pub pinned: bool,
    pub id: String,
    pub content_hash: u64,
}

/// The mathematical value of a [`ClipboardItem`].
pub struct ItemView {
    pub content: ContentView,
    pub timestamp: Seq<char>,
    pub pinned: bool,
    pub id: Seq<char>,
    pub content_hash: u64,
}

impl View for ClipboardItem {
    type V = ItemView;

    open spec fn view(&self) -> ItemView {
        ItemView {
            content: self.content@,
            timestamp: self.timestamp@,
            pinned: self.pinned,
            id: self.id@,
            content_hash: self.content_hash,
        }
    }
}

impl Clone for ClipboardItem {
    fn clone(&self) -> (res: Self)
        ensures
            res@ == self@,
    {
        ClipboardItem {
            content: self.content.clone(),
            timestamp: self.timestamp.clone(),
            pinned: self.pinned,
            id: self.id.clone(),
            content_hash: self.content_hash,
        }
    }
}

/// A wall-clock time written as two digits each for hour, minute and second,
/// with colons between them.
pub open spec fn is_clock_time(text: Seq<char>) -> bool {
    &&& text.len() == 8
    &&& text[2] == ':'
    &&& text[5] == ':'
    &&& forall|i: int| 0 <= i < 8 && i != 2 && i != 5 ==> '0' <= #[trigger] text[i] <= '9'
}

/// An identifier of 36 characters in five groups with hyphens between them.
pub open spec fn is_hyphenated_id(text: Seq<char>) -> bool {
    &&& text.len() == 36
    &&& text[8] == '-'
    &&& text[13] == '-'
    &&& text[18] == '-'
    &&& text[23] == '-'
}

/// Reads the local wall-clock time through `chrono::Local::now` and writes it
/// with the format `%H:%M:%S`.
///
/// Trusted: chrono pads hour, minute and second to two digits each, so the
/// text always has the shape of [`is_clock_time`]. Which time it shows
/// depends on the clock and the time zone of the machine. The call panics
/// where the system clock stands before the year 1970.
#[verifier::external_body]
fn capture_time() -> (stamp: String)
    ensures
        is_clock_time(stamp@),
{
    chrono::Local::now().format("%H:%M:%S").to_string()
}

/// Draws a random identifier through `uuid::Uuid::new_v4` and writes it in
/// the hyphenated form.
///
/// Trusted: the text has the shape of [`is_hyphenated_id`]. Nothing is
/// claimed of the digits, so two calls may return the same identifier. The
/// call panics where the system has no source of random bytes.
#[verifier::external_body]
fn fresh_id() -> (id: String)
    ensures
        is_hyphenated_id(id@),
{
    uuid::Uuid::new_v4().to_string()
}

impl ClipboardItem {
    /// An unpinned entry for `content`, stamped with the time and identifier
    /// given, and carrying the content's fingerprint.
    pub fn with_stamp(content: ClipboardContent, timestamp: String, id: String) -> (item: Self)
        ensures
            item@ == (ItemView {
                content: content@,
                timestamp: timestamp@,
                pinned: false,
                id: id@,
                content_hash: fingerprint(content@),
            }),
    {
        let content_hash = compute_hash(&content);
        ClipboardItem { content, timestamp, pinned: false, id, content_hash }
    }

    /// An unpinned entry for `content`, stamped with the current local time
    /// and a fresh random identifier.
    pub fn new(content: ClipboardContent) -> (item: Self)
        ensures
            item@.content == content@,
            !item@.pinned,
            item@.content_hash == fingerprint(content@),
            is_clock_time(item@.timestamp),
            is_hyphenated_id(item@.id),
    {
        let timestamp = capture_time();
        let id = fresh_id();
        ClipboardItem::with_stamp(content, timestamp, id)
    }

    /// Sets `content_hash` to the fingerprint of `content`; nothing else changes.
    pub fn recompute_hash(&mut self)
        ensures
            final(self)@ == (ItemView { content_hash: fingerprint(old(self)@.content), ..old(self)@ }),
    {
        self.content_hash = compute_hash(&self.content);
    }

    /// Whether the entry holds an image.
    pub fn is_image(&self) -> (res: bool)
        ensures
            res == (self@.content is Image),
    {
        match self.content {
            ClipboardContent::Image { .. } => true,
            ClipboardContent::Text(_) => false,
        }
    }

    /// Whether the entry holds a text.
    pub fn is_text(&self) -> (res: bool)
        ensures
            res == (self@.content is Text),
    {
        match self.content {
            ClipboardContent::Text(_) => true,
            ClipboardContent::Image { .. } => false,
        }
    }
}

/// Whether an entry's stored fingerprint is the fingerprint of its content.
pub open spec fn hash_is_current(item: ItemView) -> bool {
    item.content_hash == fingerprint(item.content)
}

} // verus!
