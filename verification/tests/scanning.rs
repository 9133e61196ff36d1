//! Tests of the scanners, the tag logic, the transcoder and book parsing.

use media_index::book::{extract_chapter_title, is_chapter_number_char, parse_book, trim_line};
use media_index::names::{is_book_file, is_hidden, is_image_file, is_video_file, remove_extension};
use media_index::scan::{
    get_library_type, scan_book_library, scan_comic_images, scan_comic_library,
    scan_video_library, AuthorSource, BookSource, ComicSource, EntryProbe, ImageSource,
    VideoSource,
};
use media_index::tags::{get_file_tags, get_tag_name, has_tag, set_file_tag_impl, update_tag};
use media_index::transcode::{
    is_jpeg, process_image, scale_denominator, scaled_dim, thumb_height,
};

fn strings(v: &[&str]) -> Vec<String> {
    v.iter().map(|s| s.to_string()).collect()
}

#[test]
fn name_classification() {
    assert!(is_hidden(".DS_Store"));
    assert!(!is_hidden("visible.txt"));
    assert!(is_book_file("novel.txt"));
    assert!(is_book_file("NOVEL.TXT"));
    assert!(!is_book_file("novel.pdf"));
    assert!(is_video_file("clip.mp4"));
    assert!(!is_video_file("clip.mkv"));
    assert!(is_image_file("a.jpg"));
    assert!(is_image_file("a.JPEG"));
    assert!(is_image_file("a.png"));
    assert!(!is_image_file("a.gif"));
    assert!(!is_image_file("noext"));
}

#[test]
fn remove_extension_drops_only_the_last_part() {
    assert_eq!(remove_extension("story.txt"), "story");
    assert_eq!(remove_extension("a.b.c"), "a.b");
    assert_eq!(remove_extension("noext"), "noext");
    assert_eq!(remove_extension(".hidden"), ".hidden");
}

#[test]
fn book_scan_builds_authors_and_books() {
    let authors = vec![
        AuthorSource {
            name: "Author A".to_string(),
            path: "/lib/Author A".to_string(),
            is_dir: true,
            books: vec![
                BookSource {
                    filename: "First.txt".to_string(),
                    path: "/lib/Author A/First.txt".to_string(),
                    size: 100,
                    created_at: 5,
                    starred: true,
                    deleted: false,
                },
                BookSource {
                    filename: "skip.pdf".to_string(),
                    path: "/lib/Author A/skip.pdf".to_string(),
                    size: 1,
                    created_at: 1,
                    starred: false,
                    deleted: false,
                },
            ],
        },
        AuthorSource {
            name: ".hidden".to_string(),
            path: "/lib/.hidden".to_string(),
            is_dir: true,
            books: vec![],
        },
        AuthorSource {
            name: "stray.txt".to_string(),
            path: "/lib/stray.txt".to_string(),
            is_dir: false,
            books: vec![],
        },
    ];
    let out = scan_book_library(authors, "lib1");
    assert_eq!(out.len(), 1);
    let a = &out[0];
    assert_eq!(a.name, "Author A");
    assert_eq!(a.library_id, "lib1");
    assert_eq!(a.book_count, 1);
    assert_eq!(a.books.len(), 1);
    let b = &a.books[0];
    assert_eq!(b.title, "First");
    assert_eq!(b.author_id, a.id);
    assert_eq!(b.size, 100);
    assert!(b.starred);
    // ids are deterministic name-based UUIDs of the path
    let expected = uuid::Uuid::new_v5(&uuid::Uuid::NAMESPACE_DNS, "/lib/Author A".as_bytes());
    assert_eq!(a.id, expected.to_string());
}

#[test]
fn comic_scan_sorts_titles_naturally() {
    let mk = |name: &str| ComicSource {
        name: name.to_string(),
        path: format!("/lib/{}", name),
        is_dir: true,
        created_at: 0,
        starred: false,
        deleted: false,
        cover: String::new(),
    };
    let out = scan_comic_library(vec![mk("ch10"), mk("ch1"), mk("ch2")], "L");
    let titles: Vec<&str> = out.iter().map(|c| c.title.as_str()).collect();
    assert_eq!(titles, vec!["ch1", "ch2", "ch10"]);
    assert_eq!(out[0].library_id, "L");
}

#[test]
fn video_scan_filters_and_builds_urls() {
    let mk = |name: &str, is_file: bool| VideoSource {
        filename: name.to_string(),
        path: format!("/v/{}", name),
        is_file,
        size: 7,
        created_at: 3,
        starred: false,
        deleted: true,
        cover: String::new(),
    };
    let out = scan_video_library(
        vec![mk("b 2.mp4", true), mk("a.txt", true), mk("dir.mp4", false)],
        "VL",
    );
    assert_eq!(out.len(), 1);
    let v = &out[0];
    assert_eq!(v.title, "b 2");
    assert_eq!(v.url, "asset://localhost/%2Fv%2Fb%202.mp4");
    assert_eq!(v.duration, 0);
    assert!(v.deleted);
}

#[test]
fn comic_images_are_sorted_and_indexed() {
    let mk = |name: &str| ImageSource {
        filename: name.to_string(),
        path: format!("/c/{}", name),
        is_file: true,
        width: 100,
        height: 200,
        starred: false,
        deleted: false,
        thumbnail: format!("thumb-{}", name),
    };
    let out = scan_comic_images(vec![mk("p10.jpg"), mk("p2.jpg"), mk("p1.jpg")]);
    let files: Vec<&str> = out.iter().map(|s| s.filename.as_str()).collect();
    assert_eq!(files, vec!["p1.jpg", "p2.jpg", "p10.jpg"]);
    let indexes: Vec<u32> = out.iter().map(|s| s.index).collect();
    assert_eq!(indexes, vec![0, 1, 2]);
    assert_eq!(out[0].url, "asset://localhost/%2Fc%2Fp1.jpg");
}

#[test]
fn library_type_detection() {
    let file = |name: &str| EntryProbe {
        name: name.to_string(),
        is_file: true,
        is_dir: false,
        sub_names: vec![],
    };
    let dir = |name: &str, subs: &[&str]| EntryProbe {
        name: name.to_string(),
        is_file: false,
        is_dir: true,
        sub_names: strings(subs),
    };
    assert_eq!(get_library_type(&vec![file("a.mp4")]), "video");
    assert_eq!(get_library_type(&vec![dir("A", &["x.txt"])]), "book");
    assert_eq!(get_library_type(&vec![dir("A", &["x.jpg"])]), "comic");
    assert_eq!(get_library_type(&vec![file(".hidden.mp4"), dir("A", &[".x", "b.txt"])]), "book");
    assert_eq!(get_library_type(&vec![]), "comic");
}

#[test]
fn tag_names_and_lookup() {
    assert_eq!(get_tag_name("STAR\n5"), "STAR");
    assert_eq!(get_tag_name("plain"), "plain");
    assert_eq!(get_tag_name(""), "");
    let list = strings(&["star\n5", "Other"]);
    assert!(has_tag(&list, "STAR"));
    assert!(!has_tag(&list, "DELETE"));
}

#[test]
fn update_tag_adds_and_removes() {
    let mut list = strings(&["Other\n1"]);
    update_tag(&mut list, "STAR", "STAR\n5", Some(true));
    assert_eq!(list, strings(&["Other\n1", "STAR\n5"]));
    // setting again is idempotent
    update_tag(&mut list, "STAR", "STAR\n5", Some(true));
    assert_eq!(list, strings(&["Other\n1", "STAR\n5"]));
    update_tag(&mut list, "STAR", "STAR\n5", Some(false));
    assert_eq!(list, strings(&["Other\n1"]));
    update_tag(&mut list, "STAR", "STAR\n5", None);
    assert_eq!(list, strings(&["Other\n1"]));
}

#[test]
fn file_tag_flags() {
    let mut list = strings(&[]);
    set_file_tag_impl(
        &mut list,
        media_index::tags::FileTags { starred: Some(true), deleted: Some(true) },
    );
    assert_eq!(get_file_tags(&list), (true, true));
    set_file_tag_impl(
        &mut list,
        media_index::tags::FileTags { starred: None, deleted: Some(false) },
    );
    assert_eq!(get_file_tags(&list), (true, false));
}

#[test]
fn jpeg_marker_detection() {
    assert!(is_jpeg(&[0xff, 0xd8, 0xff, 0xe0]));
    assert!(!is_jpeg(&[0xff, 0xd8]));
    assert!(!is_jpeg(&[0x89, 0x50, 0x4e, 0x47]));
}

#[test]
fn fast_path_scale_selection() {
    assert_eq!(scale_denominator(4096, 256), 8);
    assert_eq!(scale_denominator(1024, 256), 4);
    assert_eq!(scale_denominator(1000, 256), 2);
    assert_eq!(scale_denominator(300, 256), 1);
    assert_eq!(scaled_dim(1000, 2), 500);
    assert_eq!(scaled_dim(1001, 2), 501);
}

#[test]
fn thumb_height_rounds_from_original_dimensions() {
    // 1000x2000 at width 256: round(256 * 2000 / 1000) = 512 — the same
    // whether a half-scale decode (500x1000) was used internally or not
    assert_eq!(thumb_height(1000, 2000, 256), Some(512));
    assert_eq!(thumb_height(500, 1000, 256), Some(512));
    assert_eq!(thumb_height(1000, 1999, 256), Some(512));
    assert_eq!(thumb_height(3, 1, 256), Some(85));
    assert_eq!(thumb_height(100000, 1, 256), None);
}

#[test]
fn transcode_produces_a_jpeg_at_target_width() {
    let img = image::RgbImage::from_pixel(100, 200, image::Rgb([1, 2, 3]));
    let mut bytes = std::io::Cursor::new(Vec::new());
    image::DynamicImage::ImageRgb8(img)
        .write_to(&mut bytes, image::ImageFormat::Png)
        .expect("encode");
    let source = bytes.into_inner();
    let mut resizer = fast_image_resize::Resizer::new();
    let thumb = process_image(&source, &mut resizer, 256).expect("transcode");
    assert_eq!(thumb.width, 256);
    assert_eq!(thumb.height, 512);
    assert_eq!((thumb.source_width, thumb.source_height), (100, 200));
    // the output is a decodable JPEG of the stated dimensions
    let round = image::load_from_memory(&thumb.jpeg).expect("decode output");
    assert_eq!((round.width(), round.height()), (256, 512));
    assert!(media_index::transcode::is_jpeg(&thumb.jpeg));
}

#[test]
fn transcode_rejects_garbage() {
    let mut resizer = fast_image_resize::Resizer::new();
    let r = process_image(&vec![1, 2, 3, 4], &mut resizer, 256);
    assert_eq!(r.err(), Some(media_index::transcode::TranscodeError::Decode));
}

fn png_of(w: u32, h: u32) -> Vec<u8> {
    let img = image::RgbImage::from_pixel(w, h, image::Rgb([0, 0, 0]));
    let mut bytes = std::io::Cursor::new(Vec::new());
    image::DynamicImage::ImageRgb8(img)
        .write_to(&mut bytes, image::ImageFormat::Png)
        .expect("encode");
    bytes.into_inner()
}

#[test]
fn transcode_rejects_a_height_that_rounds_to_zero() {
    // 1000x1 at width 256: round(256/1000) == 0 — no thumbnail exists
    let mut resizer = fast_image_resize::Resizer::new();
    let r = process_image(&png_of(1000, 1), &mut resizer, 256);
    assert_eq!(r.err(), Some(media_index::transcode::TranscodeError::BadDimensions));
}

#[test]
fn transcode_rejects_outputs_beyond_jpeg_limits() {
    // 1x300 at width 256: round(256 * 300 / 1) == 76800 > 65535
    let mut resizer = fast_image_resize::Resizer::new();
    let r = process_image(&png_of(1, 300), &mut resizer, 256);
    assert_eq!(r.err(), Some(media_index::transcode::TranscodeError::Encode));
}

#[test]
fn dimensions_read_from_header() {
    let img = image::RgbImage::from_pixel(12, 34, image::Rgb([0, 0, 0]));
    let mut bytes = std::io::Cursor::new(Vec::new());
    image::DynamicImage::ImageRgb8(img)
        .write_to(&mut bytes, image::ImageFormat::Png)
        .expect("encode");
    let dims = media_index::transcode::get_image_dimensions_fast(&bytes.into_inner());
    assert_eq!(dims, Some((12, 34)));
}

#[test]
fn trimming_lines() {
    assert_eq!(trim_line("  hello \t"), "hello");
    assert_eq!(trim_line("\u{3000}x\u{3000}"), "x");
    assert_eq!(trim_line("   "), "");
    assert_eq!(trim_line(""), "");
}

#[test]
fn chapter_number_characters() {
    assert!(is_chapter_number_char('3'));
    assert!(is_chapter_number_char('\u{4e00}'));
    assert!(is_chapter_number_char('\u{5341}'));
    assert!(!is_chapter_number_char('x'));
}

#[test]
fn chapter_titles_are_recognized() {
    assert_eq!(
        extract_chapter_title("  \u{7b2c}12\u{7ae0} rise  "),
        Some("\u{7b2c}12\u{7ae0} rise".to_string())
    );
    assert_eq!(
        extract_chapter_title("\u{7b2c}\u{4e00}\u{56de}"),
        Some("\u{7b2c}\u{4e00}\u{56de}".to_string())
    );
    assert_eq!(
        extract_chapter_title("\u{5e8f}\u{7ae0}"),
        Some("\u{5e8f}\u{7ae0}".to_string())
    );
    assert_eq!(extract_chapter_title("\u{7b2c}x\u{7ae0}"), None);
    assert_eq!(extract_chapter_title("\u{7b2c}12"), None);
    assert_eq!(extract_chapter_title("ordinary prose"), None);
}

#[test]
fn parse_book_keeps_lines_and_finds_chapters() {
    let text = strings(&[
        "\u{7b2c}1\u{7ae0} start",
        "",
        "body",
        "   ",
        "\u{7b2c}2\u{7ae0} next",
    ]);
    let content = parse_book(text);
    assert_eq!(
        content.lines,
        strings(&["\u{7b2c}1\u{7ae0} start", "body", "\u{7b2c}2\u{7ae0} next"])
    );
    assert_eq!(content.chapters.len(), 2);
    assert_eq!(content.chapters[0].title, "\u{7b2c}1\u{7ae0} start");
    assert_eq!(content.chapters[0].line_index, 0);
    assert_eq!(content.chapters[1].line_index, 2);
}

#[test]
fn deterministic_uuid_of_path() {
    let id = media_index::digest::generate_uuid("/some/path");
    let expected = uuid::Uuid::new_v5(&uuid::Uuid::NAMESPACE_DNS, "/some/path".as_bytes());
    assert_eq!(id, expected.to_string());
    assert_eq!(id.len(), 36);
}
