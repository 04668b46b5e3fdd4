use clipboard_manager::clipboard::{image_content, image_payload, ClipboardPayload, PasteError};
use clipboard_manager::imaging::{create_thumbnail, thumbnail_dimensions};
use clipboard_manager::models::ClipboardContent;

fn solid(width: u32, height: u32) -> Vec<u8> {
    let mut pixels = Vec::new();
    for _ in 0..(width * height) {
        pixels.extend_from_slice(&[10, 200, 30, 255]);
    }
    pixels
}

#[test]
fn thumbnail_of_a_wide_image_is_eighty_wide() {
    assert_eq!(thumbnail_dimensions(1920, 1080), (80, 45));
    assert_eq!(thumbnail_dimensions(160, 80), (80, 40));
    assert_eq!(thumbnail_dimensions(300, 100), (80, 26));
}

#[test]
fn thumbnail_of_a_tall_image_is_eighty_high() {
    assert_eq!(thumbnail_dimensions(1080, 1920), (45, 80));
    assert_eq!(thumbnail_dimensions(100, 300), (26, 80));
}

#[test]
fn thumbnail_of_a_square_image_is_eighty_square() {
    assert_eq!(thumbnail_dimensions(500, 500), (80, 80));
    assert_eq!(thumbnail_dimensions(1, 1), (80, 80));
}

#[test]
fn thumbnail_side_is_never_below_one() {
    assert_eq!(thumbnail_dimensions(1000, 1), (80, 1));
    assert_eq!(thumbnail_dimensions(1, 1000), (1, 80));
    assert_eq!(thumbnail_dimensions(u32::MAX, 1), (80, 1));
    assert_eq!(thumbnail_dimensions(0, 0), (1, 80));
    assert_eq!(thumbnail_dimensions(0, 5), (1, 80));
    assert_eq!(thumbnail_dimensions(5, 0), (80, 1));
}

#[test]
fn thumbnail_of_large_dimensions_does_not_overflow() {
    assert_eq!(thumbnail_dimensions(u32::MAX, u32::MAX), (80, 80));
    assert_eq!(thumbnail_dimensions(u32::MAX, u32::MAX - 1), (80, 79));
}

#[test]
fn created_thumbnail_is_a_png_of_the_scaled_size() {
    let thumbnail = create_thumbnail(&solid(160, 80), 160, 80).unwrap();
    let decoded = image::load_from_memory(&thumbnail).unwrap().to_rgba8();
    assert_eq!((decoded.width(), decoded.height()), (80, 40));
    assert_eq!(decoded.get_pixel(0, 0).0, [10, 200, 30, 255]);
}

#[test]
fn created_thumbnail_of_a_small_image_is_scaled_up() {
    let thumbnail = create_thumbnail(&solid(2, 4), 2, 4).unwrap();
    let decoded = image::load_from_memory(&thumbnail).unwrap().to_rgba8();
    assert_eq!((decoded.width(), decoded.height()), (40, 80));
}

#[test]
fn no_thumbnail_without_pixels_or_with_a_short_buffer() {
    assert!(create_thumbnail(&[], 0, 0).is_none());
    assert!(create_thumbnail(&[], 0, 4).is_none());
    assert!(create_thumbnail(&[], 4, 0).is_none());
    assert!(create_thumbnail(&[1, 2, 3], 2, 2).is_none());
}

#[test]
fn image_content_needs_both_files() {
    assert!(image_content(None, Some(vec![1]), 1, 1).is_none());
    assert!(image_content(Some(vec![1]), None, 1, 1).is_none());
    assert!(image_content(None, None, 1, 1).is_none());
    match image_content(Some(vec![1, 2]), Some(vec![3]), 7, 9).unwrap() {
        ClipboardContent::Image { png_data, thumbnail_png, width, height } => {
            assert_eq!(png_data, vec![1, 2]);
            assert_eq!(thumbnail_png, vec![3]);
            assert_eq!((width, height), (7, 9));
        }
        ClipboardContent::Text(_) => panic!("two files make an image"),
    }
}

#[test]
fn image_payload_carries_the_decoded_pixels() {
    match image_payload(Some((vec![1, 2, 3, 4], 1, 1))).unwrap() {
        ClipboardPayload::Image(image) => {
            assert_eq!(image.bytes, vec![1, 2, 3, 4]);
            assert_eq!((image.width, image.height), (1, 1));
        }
        ClipboardPayload::Text(_) => panic!("pixels make an image payload"),
    }
    assert!(matches!(image_payload(None), Err(PasteError::DecodeFailed)));
}
