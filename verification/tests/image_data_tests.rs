use image::{ImageBuffer, ImageFormat, Rgb};
use image_viewer::image_data::{ImageData, LoadError};
use std::io::Cursor;

fn encoded_image(width: u32, height: u32, format: ImageFormat) -> Vec<u8> {
    let img: ImageBuffer<Rgb<u8>, Vec<u8>> = ImageBuffer::from_fn(width, height, |x, y| {
        let r = (x % 256) as u8;
        let g = (y % 256) as u8;
        let b = ((x + y) % 256) as u8;
        Rgb([r, g, b])
    });
    let mut bytes = Vec::new();
    img.write_to(&mut Cursor::new(&mut bytes), format).unwrap();
    bytes
}

fn format_for(name: &str) -> ImageFormat {
    ImageFormat::from_path(name).unwrap()
}

fn create_test_image(name: &str, width: u32, height: u32) -> (String, Vec<u8>) {
    let path = format!("/tmp/viewer-images/{}", name);
    let bytes = encoded_image(width, height, format_for(name));
    (path, bytes)
}

fn load(path: &str, bytes: &[u8]) -> Result<ImageData, LoadError> {
    ImageData::decode(path, bytes, bytes.len() as u64)
}

#[test]
fn test_load_image() {
    let (image_path, bytes) = create_test_image("test.png", 100, 80);

    let result = load(&image_path, &bytes);
    assert!(result.is_ok());

    let image_data = result.ok().unwrap();
    assert_eq!(image_data.width, 100);
    assert_eq!(image_data.height, 80);
    assert!(image_data.file_size > 0);
}

#[test]
fn test_load_invalid_image() {
    let invalid_path = "/tmp/viewer-images/invalid.jpg";
    let bytes = b"This is not a valid image";

    let result = load(invalid_path, bytes);
    assert!(result.is_err());
}

#[test]
fn test_file_name() {
    let (image_path, bytes) = create_test_image("my_photo.png", 50, 50);

    let image_data = load(&image_path, &bytes).ok().unwrap();
    assert_eq!(image_data.file_name(), "my_photo.png");
}

#[test]
fn test_file_name_unknown() {
    let (image_path, bytes) = create_test_image("test.png", 50, 50);

    let mut image_data = load(&image_path, &bytes).ok().unwrap();
    image_data.path = String::from("");

    assert_eq!(image_data.file_name(), "Unknown");
}

#[test]
fn test_file_size_string_kb() {
    let (image_path, bytes) = create_test_image("small.png", 10, 10);

    let image_data = load(&image_path, &bytes).ok().unwrap();
    let size_str = image_data.file_size_string();

    assert!(size_str.ends_with(" KB"));
    assert!(size_str.contains('.'));
}

#[test]
fn test_file_size_string_mb() {
    let (image_path, bytes) = create_test_image("large.png", 1000, 1000);

    let image_data = load(&image_path, &bytes).ok().unwrap();
    let size_str = image_data.file_size_string();

    // Large images should be in MB
    if image_data.file_size > 1024 * 1024 {
        assert!(size_str.ends_with(" MB"));
    }
}

#[test]
fn test_different_formats() {
    for (ext, width, height) in [("png", 100, 100), ("jpg", 100, 100), ("bmp", 50, 50)] {
        let filename = format!("test.{}", ext);
        let (image_path, bytes) = create_test_image(&filename, width, height);

        let result = load(&image_path, &bytes);
        assert!(result.is_ok(), "Failed to load {}", ext);

        let image_data = result.ok().unwrap();
        assert_eq!(image_data.width, width);
        assert_eq!(image_data.height, height);
    }
}

#[test]
fn test_large_image() {
    let (image_path, bytes) = create_test_image("large.png", 2000, 1500);

    let result = load(&image_path, &bytes);
    assert!(result.is_ok());

    let image_data = result.ok().unwrap();
    assert_eq!(image_data.width, 2000);
    assert_eq!(image_data.height, 1500);
}

#[test]
fn test_small_image() {
    let (image_path, bytes) = create_test_image("tiny.png", 1, 1);

    let result = load(&image_path, &bytes);
    assert!(result.is_ok());

    let image_data = result.ok().unwrap();
    assert_eq!(image_data.width, 1);
    assert_eq!(image_data.height, 1);
}

#[test]
fn unknown_extension_is_unsupported() {
    let bytes = encoded_image(4, 4, ImageFormat::Png);
    match load("/tmp/picture.txt", &bytes) {
        Err(LoadError::UnsupportedFormat(Some(ext))) => assert_eq!(ext, "txt"),
        _ => panic!("expected an unsupported format"),
    }
    match load("/tmp/picture", &bytes) {
        Err(LoadError::UnsupportedFormat(None)) => {}
        _ => panic!("expected an unsupported format without extension"),
    }
}

#[test]
fn extension_chooses_the_decoder() {
    let png = encoded_image(3, 2, ImageFormat::Png);
    // PNG bytes under a .jpg name go to the JPEG decoder, which rejects them.
    assert!(matches!(load("/tmp/a.jpg", &png), Err(LoadError::Decode(_))));
    // The extension is matched without regard to case.
    let image = load("/tmp/A.PNG", &png).ok().unwrap();
    assert_eq!((image.width, image.height), (3, 2));
    assert_eq!(image.path, "/tmp/A.PNG");
    assert_eq!(image.file_size, png.len() as u64);
}

#[test]
fn size_text_examples() {
    let sized = |file_size: u64| ImageData {
        path: String::from("/tmp/x.png"),
        width: 1,
        height: 1,
        file_size,
    };
    assert_eq!(sized(0).file_size_string(), "0.0 KB");
    assert_eq!(sized(500).file_size_string(), "0.5 KB");
    assert_eq!(sized(1024).file_size_string(), "1.0 KB");
    assert_eq!(sized(1536).file_size_string(), "1.5 KB");
    assert_eq!(sized(1048575).file_size_string(), "1024.0 KB");
    assert_eq!(sized(1048576).file_size_string(), "1.0 MB");
    assert_eq!(sized(2621440).file_size_string(), "2.5 MB");
    assert_eq!(sized(u64::MAX).file_size_string(), "17592186044416.0 MB");
}

#[test]
fn size_text_matches_float_formatting() {
    let reference = |b: u64| {
        let kb = b as f64 / 1024.0;
        if kb < 1024.0 {
            format!("{:.1} KB", kb)
        } else {
            format!("{:.1} MB", kb / 1024.0)
        }
    };
    let mut samples: Vec<u64> = (0..5000u64).collect();
    samples.extend([1280, 1331, 3328, 11776, 1048576 - 52, 1048576 + 52428, 1048576 + 157286]);
    for k in 0..64u32 {
        let p = 1u64 << k;
        samples.extend([p, p.wrapping_sub(1), p.wrapping_add(1), p / 10 * 3, p + p / 20]);
    }
    samples.extend([
        u64::MAX,
        u64::MAX - 1024,
        9007199254740993,
        9007199254740995,
        18014398509481985,
        12345678901234567890,
    ]);
    let mut x: u64 = 0x9E3779B97F4A7C15;
    for _ in 0..20000 {
        x ^= x << 13;
        x ^= x >> 7;
        x ^= x << 17;
        samples.push(x >> (x % 60));
    }
    for b in samples {
        let image = ImageData { path: String::from("/x.png"), width: 1, height: 1, file_size: b };
        assert_eq!(image.file_size_string(), reference(b), "size {}", b);
    }
}
