use background_picker::pipeline::{
    create_thumbnail_fast, decode_image, fast_thumbnail_generation, load_cached_thumbnail,
    save_thumbnail_to_cache,
};

fn png_bytes(width: u32, height: u32) -> Vec<u8> {
    let img = image::DynamicImage::ImageRgb8(image::RgbImage::new(width, height));
    let mut out: Vec<u8> = Vec::new();
    let enc = image::codecs::png::PngEncoder::new(&mut out);
    image::ImageEncoder::write_image(
        enc,
        img.to_rgb8().as_raw(),
        width,
        height,
        image::ColorType::Rgb8,
    )
    .unwrap();
    out
}

#[test]
fn test_create_thumbnail_fast() {
    // Create a simple test image
    let bytes = png_bytes(100, 100);
    let test_image = decode_image(&bytes).unwrap();
    let thumbnail_size = 50;

    let result = create_thumbnail_fast(&test_image, thumbnail_size);

    assert!(result.is_some());
    let thumbnail = result.unwrap();

    // Check dimensions
    assert_eq!(thumbnail.width, thumbnail_size as usize);
    assert_eq!(thumbnail.height, thumbnail_size as usize);

    // Check that we have the right number of pixels
    assert_eq!(thumbnail.pixels.len(), (thumbnail_size * thumbnail_size) as usize);
}

#[test]
fn test_create_thumbnail_fast_different_sizes() {
    let test_sizes = vec![32, 64, 128, 256];
    let bytes = png_bytes(200, 200);

    for size in test_sizes {
        let test_image = decode_image(&bytes).unwrap();
        let result = create_thumbnail_fast(&test_image, size);
        assert!(result.is_some());

        let thumbnail = result.unwrap();
        assert_eq!(thumbnail.width, size as usize);
        assert_eq!(thumbnail.height, size as usize);
    }
}

#[test]
fn test_fast_thumbnail_generation_invalid_file() {
    // An unreadable source hands the pipeline no bytes at all.
    let no_bytes: Vec<u8> = Vec::new();
    let result = fast_thumbnail_generation(&no_bytes, 150);
    assert!(result.is_none());
}

#[test]
fn test_fast_thumbnail_generation_non_image_file() {
    let result = fast_thumbnail_generation(b"This is not an image", 150);
    assert!(result.is_none());
}

#[test]
fn test_generation_dimensions_every_branch() {
    // Every resize branch must deliver exactly the requested square size:
    // sources below the target and past the 4x and 8x thresholds.  The
    // branch is picked by the larger source dimension, so the other one is
    // kept small to keep the unoptimized decode and resize work cheap.
    for &size in &[32u32, 64, 128, 150, 256] {
        for &dim in &[size / 2 + 1, size * 2, size * 5, size * 9] {
            let h = dim.min(48);
            let bytes = png_bytes(dim, h);
            let thumb = fast_thumbnail_generation(&bytes, size)
                .unwrap_or_else(|| panic!("generation failed for {}x{} at {}", dim, h, size));
            assert_eq!(thumb.width, size as usize);
            assert_eq!(thumb.height, size as usize);
            assert_eq!(thumb.pixels.len(), (size * size) as usize);
        }
    }
}

#[test]
fn test_generation_non_square_source() {
    let bytes = png_bytes(400, 90);
    let thumb = fast_thumbnail_generation(&bytes, 64).unwrap();
    assert_eq!(thumb.width, 64);
    assert_eq!(thumb.height, 64);
}

#[test]
fn test_generation_zero_size_yields_nothing() {
    let bytes = png_bytes(100, 100);
    assert!(fast_thumbnail_generation(&bytes, 0).is_none());
}

#[test]
fn test_cache_encode_round_trip() {
    // A generated thumbnail survives the PNG cache encoding: reloading the
    // encoded bytes yields a buffer of the same requested size.
    let source = png_bytes(300, 300);
    let thumb = fast_thumbnail_generation(&source, 64).unwrap();
    let encoded = save_thumbnail_to_cache(&thumb).expect("encoding failed");

    let reloaded = load_cached_thumbnail(&encoded, 64).unwrap();
    assert_eq!(reloaded.width, 64);
    assert_eq!(reloaded.height, 64);

    // A cached thumbnail generated at another size is still usable.
    let resized = load_cached_thumbnail(&encoded, 32).unwrap();
    assert_eq!(resized.width, 32);
    assert_eq!(resized.height, 32);
}

#[test]
fn test_load_cached_thumbnail_rejects_garbage() {
    assert!(load_cached_thumbnail(b"garbage", 64).is_none());
}

#[test]
fn test_resize_samples_source_content() {
    // An 8x4 image, left half red and right half blue, shrunk to 4x4: the
    // fast filter must sample each output pixel from the matching side.
    let mut img = image::RgbImage::new(8, 4);
    for y in 0..4 {
        for x in 0..8 {
            let color = if x < 4 { [255u8, 0, 0] } else { [0, 0, 255] };
            img.put_pixel(x, y, image::Rgb(color));
        }
    }
    let mut out: Vec<u8> = Vec::new();
    let enc = image::codecs::png::PngEncoder::new(&mut out);
    image::ImageEncoder::write_image(enc, img.as_raw(), 8, 4, image::ColorType::Rgb8).unwrap();

    let thumb = fast_thumbnail_generation(&out, 4).unwrap();
    assert_eq!(thumb.width, 4);
    assert_eq!(thumb.height, 4);
    let left = thumb.pixels[0];
    let right = thumb.pixels[3];
    assert!(left.r > 200 && left.b < 50, "left pixel should stay red");
    assert!(right.b > 200 && right.r < 50, "right pixel should stay blue");
}
