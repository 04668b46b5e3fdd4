use clipboard_manager::clipboard::{quick_hash, RawImage};
use clipboard_manager::models::{
    compute_hash, ClipboardContent, ClipboardItem, EXACT_COMPARE_LIMIT, HASH_SAMPLE_SIZE,
    MAX_IMAGE_SIZE, MAX_ITEMS, MAX_TEXT_SIZE, THUMBNAIL_SIZE,
};
use std::collections::hash_map::DefaultHasher;
use std::hash::{Hash, Hasher};

fn image_of(png_data: Vec<u8>, width: u32, height: u32) -> ClipboardContent {
    ClipboardContent::Image { png_data, thumbnail_png: vec![7, 7, 7], width, height }
}

fn patterned(len: usize) -> Vec<u8> {
    (0..len).map(|index| (index % 251) as u8).collect()
}

#[test]
fn constants_have_the_documented_values() {
    assert_eq!(MAX_ITEMS, 50);
    assert_eq!(MAX_TEXT_SIZE, 4 * 1024 * 1024);
    assert_eq!(MAX_IMAGE_SIZE, 50 * 1024 * 1024);
    assert_eq!(THUMBNAIL_SIZE, 80);
    assert_eq!(EXACT_COMPARE_LIMIT, 10000);
    assert_eq!(HASH_SAMPLE_SIZE, 1024);
}

#[test]
fn text_fingerprint_is_the_standard_hash_of_tag_and_string() {
    let mut expected = DefaultHasher::new();
    0u8.hash(&mut expected);
    "hello".hash(&mut expected);
    assert_eq!(compute_hash(&ClipboardContent::Text(String::from("hello"))), expected.finish());
}

#[test]
fn text_fingerprint_covers_non_ascii_text() {
    let mut expected = DefaultHasher::new();
    0u8.hash(&mut expected);
    "gr\u{00fc}\u{00df}e \u{1f600}".hash(&mut expected);
    assert_eq!(
        compute_hash(&ClipboardContent::Text(String::from("gr\u{00fc}\u{00df}e \u{1f600}"))),
        expected.finish()
    );
}

#[test]
fn short_image_fingerprint_is_the_standard_hash_of_its_fields() {
    let data = patterned(300);
    let mut expected = DefaultHasher::new();
    1u8.hash(&mut expected);
    640u32.hash(&mut expected);
    480u32.hash(&mut expected);
    data.len().hash(&mut expected);
    data[..].hash(&mut expected);
    assert_eq!(compute_hash(&image_of(data, 640, 480)), expected.finish());
}

#[test]
fn long_image_fingerprint_samples_both_ends() {
    let data = patterned(5000);
    let mut expected = DefaultHasher::new();
    1u8.hash(&mut expected);
    10u32.hash(&mut expected);
    20u32.hash(&mut expected);
    data.len().hash(&mut expected);
    data[..1024].hash(&mut expected);
    data[data.len() - 1024..].hash(&mut expected);
    assert_eq!(compute_hash(&image_of(data, 10, 20)), expected.finish());
}

#[test]
fn empty_image_fingerprint_has_no_samples() {
    let mut expected = DefaultHasher::new();
    1u8.hash(&mut expected);
    3u32.hash(&mut expected);
    4u32.hash(&mut expected);
    0usize.hash(&mut expected);
    assert_eq!(compute_hash(&image_of(Vec::new(), 3, 4)), expected.finish());
}

#[test]
fn image_fingerprint_ignores_the_middle_of_a_long_file_and_the_thumbnail() {
    let first = patterned(5000);
    let mut second = first.clone();
    second[2500] = second[2500].wrapping_add(1);
    assert_eq!(compute_hash(&image_of(first.clone(), 1, 1)), compute_hash(&image_of(second, 1, 1)));
    let other_thumbnail = ClipboardContent::Image {
        png_data: first.clone(),
        thumbnail_png: vec![1],
        width: 1,
        height: 1,
    };
    assert_eq!(compute_hash(&image_of(first, 1, 1)), compute_hash(&other_thumbnail));
}

#[test]
fn image_fingerprint_takes_in_dimensions_and_sampled_bytes() {
    let data = patterned(5000);
    let mut changed_head = data.clone();
    changed_head[1023] = changed_head[1023].wrapping_add(1);
    let mut changed_tail = data.clone();
    changed_tail[5000 - 1024] = changed_tail[5000 - 1024].wrapping_add(1);
    let base = compute_hash(&image_of(data.clone(), 1, 1));
    assert_ne!(base, compute_hash(&image_of(changed_head, 1, 1)));
    assert_ne!(base, compute_hash(&image_of(changed_tail, 1, 1)));
    assert_ne!(base, compute_hash(&image_of(data.clone(), 2, 1)));
    assert_ne!(base, compute_hash(&image_of(data, 1, 2)));
}

#[test]
fn hash_feeds_the_given_hasher() {
    let content = ClipboardContent::Text(String::from("hello"));
    let mut hasher = DefaultHasher::new();
    content.hash(&mut hasher);
    assert_eq!(hasher.finish(), compute_hash(&content));
}

#[test]
fn quick_hash_is_the_standard_hash_of_dimensions_and_first_bytes() {
    let bytes = patterned(4000);
    let mut expected = DefaultHasher::new();
    30u32.hash(&mut expected);
    40u32.hash(&mut expected);
    bytes.len().hash(&mut expected);
    bytes[..1024].hash(&mut expected);
    assert_eq!(quick_hash(&RawImage { bytes, width: 30, height: 40 }), expected.finish());
}

#[test]
fn quick_hash_of_no_pixels_covers_dimensions_and_length_only() {
    let mut expected = DefaultHasher::new();
    0u32.hash(&mut expected);
    0u32.hash(&mut expected);
    0usize.hash(&mut expected);
    assert_eq!(quick_hash(&RawImage { bytes: Vec::new(), width: 0, height: 0 }), expected.finish());
}

#[test]
fn texts_are_equal_when_they_are_the_same_string() {
    assert_eq!(ClipboardContent::Text(String::from("a")), ClipboardContent::Text(String::from("a")));
    assert_ne!(ClipboardContent::Text(String::from("a")), ClipboardContent::Text(String::from("b")));
}

#[test]
fn text_never_equals_image() {
    assert_ne!(ClipboardContent::Text(String::from("a")), image_of(vec![b'a'], 1, 1));
    assert_ne!(image_of(vec![b'a'], 1, 1), ClipboardContent::Text(String::from("a")));
}

#[test]
fn short_images_are_compared_byte_by_byte() {
    let data = patterned(EXACT_COMPARE_LIMIT);
    let mut other = data.clone();
    other[5000] = other[5000].wrapping_add(1);
    assert_eq!(image_of(data.clone(), 1, 1), image_of(data.clone(), 9, 9));
    assert_ne!(image_of(data, 1, 1), image_of(other, 1, 1));
}

#[test]
fn long_images_are_compared_by_length_and_end_bytes() {
    let data = patterned(EXACT_COMPARE_LIMIT + 1);
    let mut same_ends = data.clone();
    same_ends[5000] = same_ends[5000].wrapping_add(1);
    let mut other_first = data.clone();
    other_first[0] = other_first[0].wrapping_add(1);
    let mut other_last = data.clone();
    let last = other_last.len() - 1;
    other_last[last] = other_last[last].wrapping_add(1);
    let mut longer = data.clone();
    longer.push(0);
    assert_eq!(image_of(data.clone(), 1, 1), image_of(same_ends, 1, 1));
    assert_ne!(image_of(data.clone(), 1, 1), image_of(other_first, 1, 1));
    assert_ne!(image_of(data.clone(), 1, 1), image_of(other_last, 1, 1));
    assert_ne!(image_of(data.clone(), 1, 1), image_of(longer, 1, 1));
    assert_ne!(image_of(data, 1, 1), image_of(patterned(10), 1, 1));
}

#[test]
fn equal_texts_have_equal_fingerprints() {
    let first = ClipboardContent::Text(String::from("same"));
    let second = ClipboardContent::Text(String::from("same"));
    assert_eq!(first, second);
    assert_eq!(compute_hash(&first), compute_hash(&second));
}

#[test]
fn clone_keeps_the_content() {
    let content = image_of(patterned(100), 3, 4);
    let copy = content.clone();
    match (&content, &copy) {
        (
            ClipboardContent::Image { png_data, thumbnail_png, width, height },
            ClipboardContent::Image {
                png_data: other_data,
                thumbnail_png: other_thumbnail,
                width: other_width,
                height: other_height,
            },
        ) => {
            assert_eq!(png_data, other_data);
            assert_eq!(thumbnail_png, other_thumbnail);
            assert_eq!(width, other_width);
            assert_eq!(height, other_height);
        }
        _ => panic!("a clone is of the same kind"),
    }
}

#[test]
fn new_item_is_unpinned_and_stamped() {
    let content = ClipboardContent::Text(String::from("hello"));
    let expected_hash = compute_hash(&content);
    let item = ClipboardItem::new(content);
    assert!(!item.pinned);
    assert_eq!(item.content_hash, expected_hash);
    assert_eq!(item.content, ClipboardContent::Text(String::from("hello")));
    let stamp: Vec<char> = item.timestamp.chars().collect();
    assert_eq!(stamp.len(), 8);
    assert_eq!(stamp[2], ':');
    assert_eq!(stamp[5], ':');
    for (index, symbol) in stamp.iter().enumerate() {
        if index != 2 && index != 5 {
            assert!(symbol.is_ascii_digit());
        }
    }
    let id: Vec<char> = item.id.chars().collect();
    assert_eq!(id.len(), 36);
    for index in [8, 13, 18, 23] {
        assert_eq!(id[index], '-');
    }
}

#[test]
fn new_items_get_different_identifiers() {
    let first = ClipboardItem::new(ClipboardContent::Text(String::from("a")));
    let second = ClipboardItem::new(ClipboardContent::Text(String::from("a")));
    assert_ne!(first.id, second.id);
    assert_eq!(first.content_hash, second.content_hash);
}

#[test]
fn with_stamp_fills_every_field() {
    let item = ClipboardItem::with_stamp(
        ClipboardContent::Text(String::from("hello")),
        String::from("01:02:03"),
        String::from("abc"),
    );
    assert_eq!(item.timestamp, "01:02:03");
    assert_eq!(item.id, "abc");
    assert!(!item.pinned);
    assert_eq!(item.content_hash, compute_hash(&ClipboardContent::Text(String::from("hello"))));
}

#[test]
fn recompute_hash_restores_a_lost_fingerprint() {
    let mut item = ClipboardItem::with_stamp(
        image_of(patterned(2000), 5, 6),
        String::from("01:02:03"),
        String::from("abc"),
    );
    let expected = item.content_hash;
    item.content_hash = 0;
    item.pinned = true;
    item.recompute_hash();
    assert_eq!(item.content_hash, expected);
    assert!(item.pinned);
    assert_eq!(item.id, "abc");
    assert_eq!(item.timestamp, "01:02:03");
}

#[test]
fn is_image_and_is_text_tell_the_kinds_apart() {
    let text = ClipboardItem::with_stamp(
        ClipboardContent::Text(String::from("t")),
        String::new(),
        String::new(),
    );
    let image = ClipboardItem::with_stamp(image_of(vec![1], 1, 1), String::new(), String::new());
    assert!(text.is_text());
    assert!(!text.is_image());
    assert!(image.is_image());
    assert!(!image.is_text());
}
