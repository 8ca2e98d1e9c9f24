use std::io::{Cursor, Write};

use continuum::archive::{
    image_entry_names, is_image_entry_name, is_valid_zip_file, sort_natural, CbzArchive,
    MAX_PAGE_FILE_SIZE,
};
use continuum::names::chapter_number_text;

fn zip_bytes(files: &[(&str, &[u8])], dirs: &[&str]) -> Vec<u8> {
    let mut w = zip::ZipWriter::new(Cursor::new(Vec::new()));
    let options = zip::write::SimpleFileOptions::default()
        .compression_method(zip::CompressionMethod::Stored);
    for d in dirs {
        w.add_directory(*d, options).unwrap();
    }
    for (name, data) in files {
        w.start_file(*name, options).unwrap();
        w.write_all(data).unwrap();
    }
    w.finish().unwrap().into_inner()
}

fn png_bytes(width: u32, height: u32) -> Vec<u8> {
    let img = image::RgbaImage::from_pixel(width, height, image::Rgba([10, 20, 30, 255]));
    let mut out = Cursor::new(Vec::new());
    image::DynamicImage::ImageRgba8(img)
        .write_to(&mut out, image::ImageFormat::Png)
        .unwrap();
    out.into_inner()
}

#[test]
fn test_open_sample_comic() {
    let data = zip_bytes(&[("001.jpg", b"x"), ("002.jpg", b"y")], &[]);
    let archive = CbzArchive::open("sample_comics/Solo_Leveling_Ch01.cbz", data)
        .expect("Should open sample comic");
    assert!(archive.page_count() > 0);
    assert_eq!(archive.filename, "Solo_Leveling_Ch01.cbz");
}

#[test]
fn test_is_valid_zip_file() {
    let sample = zip_bytes(&[("001.png", b"x")], &[]);
    assert!(is_valid_zip_file(&sample));
    let bad = b"[package]\nname = \"continuum\"\n";
    assert!(!is_valid_zip_file(bad));
    assert!(is_valid_zip_file(&[0x50, 0x4B, 0x05, 0x06]));
    assert!(is_valid_zip_file(&[0x50, 0x4B, 0x07, 0x08, 0]));
    assert!(!is_valid_zip_file(&[0x50, 0x4B, 0x03]));
    assert!(!is_valid_zip_file(&[0x50, 0x4B, 0x03, 0x05]));
}

#[test]
fn test_extract_chapter_number() {
    let number = |name: &str| chapter_number_text(name).map(|t| t.parse::<f64>().unwrap());
    assert_eq!(number("[0047]_Chapter_0_Sep_7_2024.cbz"), Some(0.0));
    assert_eq!(number("[0046]_Chapter_1_Sep_7_2024.cbz"), Some(1.0));
    assert_eq!(number("[0000]_Chapter_40.6_Apr_4.cbz"), Some(40.6));
    assert_eq!(number("[0208]_Episode_1_Sep_7_2024.cbz"), Some(1.0));
    assert_eq!(number("Official_Chapter 70_95fbe1.cbz"), Some(70.0));
    assert_eq!(number("Solo_Leveling_Ch01.cbz"), Some(1.0));
    assert_eq!(number("Random_Book.cbz"), None);
}

#[test]
fn chapter_number_text_keeps_the_written_digits() {
    assert_eq!(chapter_number_text("Solo_Leveling_Ch01.cbz"), Some("01".to_string()));
    assert_eq!(chapter_number_text("[0000]_Chapter_40.6_Apr_4.cbz"), Some("40.6".to_string()));
    // A dot that no digit follows ends the number.
    assert_eq!(chapter_number_text("chapter 12..cbz"), Some("12".to_string()));
    assert_eq!(chapter_number_text("Vol.3 - c. 7.5.cbz"), Some("3".to_string()));
    // The first keyword without a number is passed over for the next one.
    assert_eq!(chapter_number_text("Chapter_X_ep-4.cbz"), Some("4".to_string()));
    // The directory part of a path is not searched.
    assert_eq!(chapter_number_text("/comics/chapter 9/Random_Book.cbz"), None);
    assert_eq!(chapter_number_text("/comics/Book/EPISODE:12.zip"), Some("12".to_string()));
}

#[test]
fn test_decode_page_bytes_invalid() {
    let bad_bytes = vec![0u8; 16];
    assert!(CbzArchive::decode_page_bytes(&bad_bytes).is_err());
}

#[test]
fn test_decode_page_bytes_payload_too_large() {
    let fake_large_payload = vec![0u8; (MAX_PAGE_FILE_SIZE as usize) + 1];
    let res = CbzArchive::decode_page_bytes(&fake_large_payload);
    assert!(res.is_err());
    assert!(res.unwrap_err().contains("exceeds maximum allowed size"));
}

#[test]
fn oversized_payload_message_gives_both_sizes() {
    let payload = vec![0u8; (MAX_PAGE_FILE_SIZE as usize) + 5];
    let err = CbzArchive::decode_page_bytes(&payload).unwrap_err();
    assert_eq!(
        err,
        "Image byte payload exceeds maximum allowed size (67108869 > 67108864 bytes)"
    );
}

#[test]
fn undecodable_bytes_say_which_step_failed() {
    let err = CbzArchive::decode_page_bytes(&[0u8; 16]).unwrap_err();
    assert!(err.starts_with("Failed to decode image: "), "{err}");
    let mut broken = png_bytes(2, 2);
    broken.truncate(30);
    let err = CbzArchive::decode_page_bytes(&broken).unwrap_err();
    assert!(err.starts_with("Failed to decode image: "), "{err}");
}

#[test]
fn a_png_page_decodes_to_rgba_pixels() {
    let (w, h, px) = CbzArchive::decode_page_bytes(&png_bytes(2, 3)).unwrap();
    assert_eq!((w, h), (2, 3));
    assert_eq!(px.len(), 2 * 3 * 4);
    assert_eq!(&px[0..4], &[10, 20, 30, 255]);
    assert_eq!(CbzArchive::rgba_byte_size(w, h, px.len()), Ok(24));
}

#[test]
fn rgba_size_check_reports_a_mismatch() {
    assert_eq!(
        CbzArchive::rgba_byte_size(2, 3, 20),
        Err("RGBA byte count mismatch: expected 24 but got 20".to_string())
    );
    assert_eq!(CbzArchive::rgba_byte_size(0, 7, 0), Ok(0));
}

#[test]
fn open_lists_page_images_in_natural_order() {
    let data = zip_bytes(
        &[
            ("page10.png", b"a"),
            ("page2.jpg", b"b"),
            ("page1.PNG", b"c"),
            ("cover.txt", b"d"),
            ("folder/page3.webp", b"e"),
            ("scan.JPEG", b"f"),
        ],
        &["folder/"],
    );
    let archive = CbzArchive::open("/books/Series/Ch_01.cbz", data.clone()).unwrap();
    assert_eq!(
        archive.image_entries,
        vec!["folder/page3.webp", "page1.PNG", "page2.jpg", "page10.png", "scan.JPEG"]
    );
    assert_eq!(archive.page_count(), 5);
    assert_eq!(archive.filename, "Ch_01.cbz");
    assert_eq!(archive.path, "/books/Series/Ch_01.cbz");
    assert_eq!(archive.data, data);
    assert_eq!(archive.get_dimensions(3), (800, 1400));
}

#[test]
fn open_refuses_what_is_not_a_zip_archive() {
    let err = CbzArchive::open("a.cbz", b"Rar!\x1a\x07\x00".to_vec()).err().unwrap();
    assert_eq!(err, "File is not a valid ZIP/CBZ archive (missing PK magic header)");
    let err = CbzArchive::open("a.cbz", b"PK\x03\x04 but nothing more".to_vec()).err().unwrap();
    assert!(err.starts_with("Failed to read ZIP archive: "), "{err}");
}

#[test]
fn open_refuses_too_many_entries() {
    let names: Vec<String> = (0..2001).map(|i| format!("{i}.png")).collect();
    let files: Vec<(&str, &[u8])> = names.iter().map(|n| (n.as_str(), &b""[..])).collect();
    let err = CbzArchive::open("big.cbz", zip_bytes(&files, &[])).err().unwrap();
    assert_eq!(err, "Archive contains too many entries (2001 > maximum 2000)");
}

#[test]
fn an_archive_path_without_a_file_name_is_unknown() {
    let data = zip_bytes(&[("1.png", b"x")], &[]);
    assert_eq!(CbzArchive::open("/", data.clone()).unwrap().filename, "Unknown.cbz");
    assert_eq!(CbzArchive::open("dir/..", data.clone()).unwrap().filename, "Unknown.cbz");
    assert_eq!(CbzArchive::open("dir/sub/./", data).unwrap().filename, "sub");
}

#[test]
fn extract_entry_bytes_reads_one_entry() {
    let page = png_bytes(1, 1);
    let data = zip_bytes(&[("a.txt", b"hello"), ("b.png", &page)], &[]);
    assert_eq!(CbzArchive::extract_entry_bytes(&data, "a.txt"), Ok(b"hello".to_vec()));
    assert_eq!(CbzArchive::extract_entry_bytes(&data, "b.png"), Ok(page));
    assert!(CbzArchive::extract_entry_bytes(&data, "missing.png").is_err());
    assert!(CbzArchive::extract_entry_bytes(b"not a zip", "a.txt").is_err());
}

#[test]
fn image_names_are_recognised_by_extension() {
    assert!(is_image_entry_name("001.JPG"));
    assert!(is_image_entry_name("x/y.avif"));
    assert!(is_image_entry_name(".bmp"));
    assert!(!is_image_entry_name("readme.txt"));
    assert!(!is_image_entry_name("png"));
    assert!(!is_image_entry_name("a.jpg.bak"));
    let entries = vec![
        Some(("b.png".to_string(), false)),
        Some(("dir.png/".to_string(), true)),
        None,
        Some(("a.gif".to_string(), false)),
        Some(("c.txt".to_string(), false)),
    ];
    assert_eq!(image_entry_names(&entries), vec!["b.png", "a.gif"]);
}

#[test]
fn names_natord_finds_equal_keep_their_order() {
    let names: Vec<String> = ["b.png", "a1.png", "a 1.png"].iter().map(|s| s.to_string()).collect();
    assert_eq!(sort_natural(&names), vec!["a1.png", "a 1.png", "b.png"]);
    let names: Vec<String> = ["a 1.png", "b.png", "a1.png"].iter().map(|s| s.to_string()).collect();
    assert_eq!(sort_natural(&names), vec!["a 1.png", "a1.png", "b.png"]);
}

#[test]
fn natural_sort_orders_numbers_by_value() {
    let names: Vec<String> = ["rfc2086.txt", "rfc822.txt", "rfc1.txt"].iter().map(|s| s.to_string()).collect();
    assert_eq!(sort_natural(&names), vec!["rfc1.txt", "rfc822.txt", "rfc2086.txt"]);
    let empty: Vec<String> = Vec::new();
    assert!(sort_natural(&empty).is_empty());
}
