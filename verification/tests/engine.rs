//! Tests of the cache engine: keys, ensure, eviction, statistics.

use media_index::cache::{
    plan_eviction, get_thumbnail_stats, get_thumbnail_dir, thumb_file_name, thumb_path_in,
    resolve_cover_url, CacheFileMeta, Config,
};
use media_index::digest::{get_thumbnail_hash, FileIdentity};
use media_index::transcode::{ensure_thumbnail, EnsureOutcome};

fn meta(name: &str, size: u64, mtime: u64) -> CacheFileMeta {
    CacheFileMeta { name: name.to_string(), size, mtime }
}

#[test]
fn cache_key_is_deterministic() {
    let a = FileIdentity { ino: 42, size: 1000, mtime: 777 };
    let b = FileIdentity { ino: 42, size: 1000, mtime: 777 };
    assert_eq!(get_thumbnail_hash(&a), get_thumbnail_hash(&b));
    assert_eq!(get_thumbnail_hash(&a).len(), 64);
}

#[test]
fn cache_key_changes_with_mtime() {
    // content (inode, size) unchanged; only the modification time moves
    let a = FileIdentity { ino: 42, size: 1000, mtime: 777 };
    let b = FileIdentity { ino: 42, size: 1000, mtime: 778 };
    assert_ne!(get_thumbnail_hash(&a), get_thumbnail_hash(&b));
}

#[test]
fn cache_key_matches_sha256_of_key_bytes() {
    let id = FileIdentity { ino: 3, size: 259, mtime: 65536 };
    let mut bytes = Vec::new();
    bytes.extend_from_slice(&3u64.to_le_bytes());
    bytes.extend_from_slice(&259u64.to_le_bytes());
    bytes.extend_from_slice(&65536u64.to_le_bytes());
    let mut hasher = <sha2::Sha256 as sha2::Digest>::new();
    sha2::Digest::update(&mut hasher, &bytes);
    let digest = sha2::Digest::finalize(hasher);
    let mut expected = String::new();
    for b in digest.as_slice() {
        expected.push_str(&format!("{:02x}", b));
    }
    assert_eq!(get_thumbnail_hash(&id), expected);
}

#[test]
fn second_ensure_is_a_hit_with_no_decode_work() {
    let mut resizer = fast_image_resize::Resizer::new();
    let source = png_bytes(4, 8);
    let first = ensure_thumbnail(None, &source, &mut resizer, 256).expect("miss transcodes");
    let stored = match first {
        EnsureOutcome::Miss { thumb } => thumb,
        EnsureOutcome::Hit { .. } => panic!("first call must miss"),
    };
    // the cache now holds `stored.jpeg`; a second call on the unchanged
    // source sees the entry and does no decode work at all: even an
    // empty source buffer is never looked at
    let empty: Vec<u8> = Vec::new();
    let second = ensure_thumbnail(
        Some((stored.width, stored.height)),
        &empty,
        &mut resizer,
        256,
    )
    .expect("hit");
    assert_eq!(second.new_bytes(), 0);
    match second {
        EnsureOutcome::Hit { width, height } => {
            assert_eq!(width, stored.width);
            assert_eq!(height, stored.height);
        }
        EnsureOutcome::Miss { .. } => panic!("second call must hit"),
    }
}

#[test]
fn aggregation_counts_new_work() {
    let (count, total) = media_index::cache::aggregate_new(&vec![0, 10, 0, 32]);
    assert_eq!(count, 2);
    assert_eq!(total, 42);
    let none: Vec<u64> = Vec::new();
    assert_eq!(media_index::cache::aggregate_new(&none), (0, 0));
}

fn png_bytes(w: u32, h: u32) -> Vec<u8> {
    let img = image::RgbImage::from_pixel(w, h, image::Rgb([10, 20, 30]));
    let mut out = std::io::Cursor::new(Vec::new());
    image::DynamicImage::ImageRgb8(img)
        .write_to(&mut out, image::ImageFormat::Png)
        .expect("encode png");
    out.into_inner()
}

#[test]
fn evict_removes_all_files_older_than_cutoff() {
    let files = vec![meta("a", 10, 100), meta("b", 20, 200), meta("c", 30, 50)];
    let plan = plan_eviction(files, 1000, u64::MAX);
    assert_eq!(plan.files_deleted, 3);
    assert_eq!(plan.bytes_freed, 60);
    assert!(plan.keep.is_empty());
}

#[test]
fn evict_size_bound_deletes_oldest_first_minimally() {
    // nothing is old; total is 100, budget 45: the two oldest (30+40)
    // must go, and no more
    let files = vec![
        meta("new", 30, 300),
        meta("old", 30, 100),
        meta("mid", 40, 200),
    ];
    let plan = plan_eviction(files, 0, 45);
    let deleted: Vec<&str> = plan.delete.iter().map(|f| f.name.as_str()).collect();
    assert_eq!(deleted, vec!["old", "mid"]);
    assert_eq!(plan.files_deleted, 2);
    assert_eq!(plan.bytes_freed, 70);
    assert_eq!(plan.keep.len(), 1);
    assert_eq!(plan.keep[0].name, "new");
}

#[test]
fn evict_never_deletes_more_than_needed() {
    // removing only the oldest (60) already meets the budget of 50;
    // a plan that also drops a newer file would overshoot
    let files = vec![
        meta("oldest", 60, 100),
        meta("mid", 10, 200),
        meta("new", 10, 300),
    ];
    let plan = plan_eviction(files, 0, 50);
    let deleted: Vec<&str> = plan.delete.iter().map(|f| f.name.as_str()).collect();
    assert_eq!(deleted, vec!["oldest"]);
    assert_eq!(plan.bytes_freed, 60);
    assert_eq!(plan.keep.len(), 2);
}

#[test]
fn evict_under_budget_deletes_nothing() {
    let files = vec![meta("a", 10, 100), meta("b", 20, 200)];
    let plan = plan_eviction(files, 50, 1000);
    assert_eq!(plan.files_deleted, 0);
    assert_eq!(plan.bytes_freed, 0);
    assert_eq!(plan.keep.len(), 2);
}

#[test]
fn evict_mixes_age_and_size_phases() {
    // one file is too old; afterwards the total (60) still exceeds 25,
    // so the oldest survivor goes too
    let files = vec![
        meta("ancient", 5, 10),
        meta("older", 40, 100),
        meta("newer", 20, 200),
    ];
    let plan = plan_eviction(files, 50, 25);
    let deleted: Vec<&str> = plan.delete.iter().map(|f| f.name.as_str()).collect();
    assert_eq!(deleted, vec!["ancient", "older"]);
    assert_eq!(plan.bytes_freed, 45);
    assert_eq!(plan.keep.len(), 1);
}

#[test]
fn stats_count_and_total() {
    let files = vec![meta("a", 10, 1), meta("b", 32, 2)];
    let (count, total) = get_thumbnail_stats(&files);
    assert_eq!(count, 2);
    assert_eq!(total, 42);
}

#[test]
fn stats_of_empty_cache() {
    let files: Vec<CacheFileMeta> = Vec::new();
    assert_eq!(get_thumbnail_stats(&files), (0, 0));
}

#[test]
fn thumbnail_dir_prefers_the_override() {
    let with = Config { cache_dir: Some("/custom".to_string()) };
    let without = Config { cache_dir: None };
    assert_eq!(get_thumbnail_dir(&with, "/default"), "/custom/thumbnail");
    assert_eq!(get_thumbnail_dir(&without, "/default"), "/default/thumbnail");
}

#[test]
fn thumb_names_and_paths() {
    assert_eq!(thumb_file_name("abc123"), "abc123.jpg");
    assert_eq!(thumb_path_in("/cache/thumbnail", "abc123"), "/cache/thumbnail/abc123.jpg");
}

#[test]
fn cover_url_resolution() {
    assert_eq!(resolve_cover_url(None, "/t/k.jpg", false), "");
    assert_eq!(
        resolve_cover_url(Some("/lib/c/1001.jpg"), "/t/k.jpg", true),
        "asset://localhost/%2Ft%2Fk.jpg"
    );
    assert_eq!(
        resolve_cover_url(Some("/lib/c/1001.jpg"), "/t/k.jpg", false),
        "asset://localhost/%2Flib%2Fc%2F1001.jpg"
    );
}
