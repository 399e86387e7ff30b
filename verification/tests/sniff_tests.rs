use media_pipeline::assemble::FileEntry;
use media_pipeline::assemble::assemble_payload;
use media_pipeline::base64_decode;
use media_pipeline::names::derive_filename;
use media_pipeline::names::derive_filenames;
use media_pipeline::sniff::DetectedType;
use media_pipeline::sniff::detect_type;
use media_pipeline::sniff::normalize_name;

fn jpeg_bytes() -> Vec<u8> {
    vec![0xFF, 0xD8, 0xFF, 0xE0, 0x00, 0x10]
}

fn png_bytes() -> Vec<u8> {
    vec![0x89, 0x50, 0x4E, 0x47, 0x0D, 0x0A, 0x1A, 0x0A]
}

fn webp_bytes() -> Vec<u8> {
    let mut b = b"RIFF".to_vec();
    b.extend_from_slice(&[0x20, 0x00, 0x00, 0x00]);
    b.extend_from_slice(b"WEBP");
    b.push(0x56);
    b
}

#[test]
fn magic_bytes_beat_extension() {
    assert_eq!(detect_type(&jpeg_bytes(), "picture.png"), DetectedType::Jpeg);
    assert_eq!(detect_type(&png_bytes(), "picture.jpg"), DetectedType::Png);
    assert_eq!(detect_type(&webp_bytes(), "picture.gif"), DetectedType::Webp);
    assert_eq!(detect_type(&jpeg_bytes(), ""), DetectedType::Jpeg);
}

#[test]
fn extension_fallback_is_case_sensitive() {
    let plain = b"not an image".to_vec();
    assert_eq!(detect_type(&plain, "a.png"), DetectedType::Png);
    assert_eq!(detect_type(&plain, "a.jpg"), DetectedType::Jpeg);
    assert_eq!(detect_type(&plain, "a.jpeg"), DetectedType::Jpeg);
    assert_eq!(detect_type(&plain, "a.webp"), DetectedType::Webp);
    assert_eq!(detect_type(&plain, "a.PNG"), DetectedType::Other);
    assert_eq!(detect_type(&plain, "a.txt"), DetectedType::Other);
}

#[test]
fn short_riff_is_not_webp() {
    let mut b = b"RIFF".to_vec();
    b.extend_from_slice(&[0, 0, 0, 0]);
    b.extend_from_slice(b"WEBP");
    // exactly 12 bytes: the container needs content past its header
    assert_eq!(detect_type(&b, "x"), DetectedType::Other);
}

#[test]
fn mime_strings() {
    assert_eq!(DetectedType::Jpeg.mime_string(), "image/jpeg");
    assert_eq!(DetectedType::Png.mime_string(), "image/png");
    assert_eq!(DetectedType::Webp.mime_string(), "image/webp");
    assert_eq!(DetectedType::Other.mime_string(), "application/octet-stream");
}

#[test]
fn normalize_appends_missing_extension() {
    assert_eq!(normalize_name("photo".to_string(), &DetectedType::Jpeg), "photo.jpg");
    assert_eq!(normalize_name("photo.JPG".to_string(), &DetectedType::Jpeg), "photo.JPG");
    assert_eq!(normalize_name("photo.jpeg".to_string(), &DetectedType::Jpeg), "photo.jpeg");
    assert_eq!(normalize_name("photo.png".to_string(), &DetectedType::Jpeg), "photo.png.jpg");
    assert_eq!(normalize_name("a".to_string(), &DetectedType::Png), "a.png");
    assert_eq!(normalize_name("a.WebP".to_string(), &DetectedType::Webp), "a.WebP");
    assert_eq!(normalize_name("notes.txt".to_string(), &DetectedType::Other), "notes.txt");
}

#[test]
fn assembles_jpeg_without_extension() {
    let entries = vec![FileEntry { name: "photo".to_string(), content: Some(jpeg_bytes()) }];
    let payload = assemble_payload("t".to_string(), "d".to_string(), entries);
    assert_eq!(payload.title, "t");
    assert_eq!(payload.description, "d");
    assert_eq!(payload.file_names, vec!["photo.jpg".to_string()]);
    assert_eq!(payload.file_mimes, vec!["image/jpeg".to_string()]);
    assert_eq!(payload.file_contents.len(), 1);
    assert_eq!(base64_decode(&payload.file_contents[0]).unwrap(), jpeg_bytes());
}

#[test]
fn assembles_skipping_missing_files() {
    let entries = vec![
        FileEntry { name: "a".to_string(), content: Some(png_bytes()) },
        FileEntry { name: "gone".to_string(), content: None },
        FileEntry { name: "b.txt".to_string(), content: Some(b"plain".to_vec()) },
    ];
    let payload = assemble_payload("".to_string(), "".to_string(), entries);
    assert_eq!(payload.file_names, vec!["a.png".to_string(), "b.txt".to_string()]);
    assert_eq!(
        payload.file_mimes,
        vec!["image/png".to_string(), "application/octet-stream".to_string()]
    );
    assert_eq!(payload.file_contents.len(), 2);
    assert_eq!(base64_decode(&payload.file_contents[1]).unwrap(), b"plain".to_vec());
}

#[test]
fn derives_names_from_urls() {
    assert_eq!(derive_filename("https://x/a.jpg?size=large"), "a.jpg");
    assert_eq!(derive_filename("https://x/b.png"), "b.png");
    assert_eq!(derive_filename("plain"), "plain");
    assert_eq!(derive_filename("https://x/dir/"), "image.jpg");
    assert_eq!(derive_filename(""), "image.jpg");
    assert_eq!(derive_filename("https://x/?q=1"), "image.jpg");
}

#[test]
fn derives_names_in_input_order() {
    let urls = vec!["https://x/a.jpg?size=large".to_string(), "https://x/b.png".to_string()];
    let names = derive_filenames(&urls);
    assert_eq!(names, vec!["a.jpg".to_string(), "b.png".to_string()]);
}
