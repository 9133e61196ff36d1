//! Tests of natural ordering, cover selection and the URI encoding.

use media_index::cover::find_cover_image;
use media_index::natural::{nat_compare, sort_natural};
use media_index::percent::{convert_file_src, percent_decode_bytes, percent_encode_bytes};

fn names(v: &[&str]) -> Vec<String> {
    v.iter().map(|s| s.to_string()).collect()
}

#[test]
fn natural_sort_orders_digit_runs_numerically() {
    let sorted = sort_natural(names(&["ch1", "ch10", "ch2"]));
    assert_eq!(sorted, names(&["ch1", "ch2", "ch10"]));
}

#[test]
fn natural_compare_cases() {
    assert!(nat_compare("page2", "page10") < 0);
    assert!(nat_compare("page10", "page2") > 0);
    assert_eq!(nat_compare("a01", "a1"), nat_compare("a01", "a1"));
    assert!(nat_compare("015", "12") < 0);
    assert!(nat_compare("rfc822", "rfc2086") < 0);
    assert_eq!(nat_compare("same", "same"), 0);
}

#[test]
fn natural_sort_agrees_with_natord() {
    let corpus = [
        "1-02", "1-2", "1-20", "10-20", "fred", "pic1", "pic2", "pic2a", "pic3", "pic4",
        "pic 4 else", "pic5", "pic5.07", "pic5.113", "pic 6", "pic100", "pic120", "x2-g8",
    ];
    let ours = sort_natural(names(&corpus));
    let mut theirs = names(&corpus);
    theirs.sort_by(|a, b| natord::compare(a, b));
    assert_eq!(ours, theirs);
}

#[test]
fn cover_prefers_explicit_1001() {
    let files = names(&["1001.jpg", "a.png", "b.png"]);
    let pick = find_cover_image(&files).expect("some cover");
    assert_eq!(files[pick], "1001.jpg");
}

#[test]
fn cover_prefers_page_zero_marker() {
    let files = names(&["page2_p0.jpg", "page2.jpg"]);
    let pick = find_cover_image(&files).expect("some cover");
    assert_eq!(files[pick], "page2_p0.jpg");
}

#[test]
fn cover_takes_natural_first_image() {
    let files = names(&["page10.jpg", "page2.jpg"]);
    let pick = find_cover_image(&files).expect("some cover");
    assert_eq!(files[pick], "page2.jpg");
}

#[test]
fn cover_prefers_sibling_of_natural_first() {
    // the natural-first image is chapter1_p3.jpg; its _p0 sibling exists
    let files = names(&["chapter1_p3.jpg", "chapter2_p0x.jpg", "chapter1_p0.jpg"]);
    // chapter1_p0.jpg sorts first and itself ends in _p0, so rule 2 already picks it
    let pick = find_cover_image(&files).expect("some cover");
    assert_eq!(files[pick], "chapter1_p0.jpg");
}

#[test]
fn cover_sibling_rule_applies_without_p0_stems() {
    // no stem ends in _p0 except the sibling that only exists under a
    // different prefix; natural-first is b_p2.jpg, sibling b_p0.png does
    // not share its extension, so the natural-first stays
    let files = names(&["b_p2.jpg", "c.jpg"]);
    let pick = find_cover_image(&files).expect("some cover");
    assert_eq!(files[pick], "b_p2.jpg");
}

#[test]
fn cover_none_without_images() {
    let files = names(&["notes.txt", "video.mp4"]);
    assert!(find_cover_image(&files).is_none());
}

#[test]
fn cover_ignores_case_of_image_extensions() {
    let files = names(&["1001.JPG", "z.png"]);
    let pick = find_cover_image(&files).expect("some cover");
    assert_eq!(files[pick], "1001.JPG");
}

// the exception set: alphanumerics plus - _ . ! ~ * ' ( )
fn upstream_encode_set() -> percent_encoding::AsciiSet {
    percent_encoding::NON_ALPHANUMERIC
        .remove(b'-')
        .remove(b'_')
        .remove(b'.')
        .remove(b'!')
        .remove(b'~')
        .remove(b'*')
        .remove(b'\'')
        .remove(b'(')
        .remove(b')')
}

#[test]
fn asset_url_matches_the_upstream_encoding() {
    let paths = [
        "/library/my comic/page 1.jpg",
        "/data/\u{6f2b}\u{753b}/vol~1 (a)!*'.png",
        "/plain/path_no.specials",
    ];
    let set: &'static percent_encoding::AsciiSet = Box::leak(Box::new(upstream_encode_set()));
    for p in paths {
        let expected = format!(
            "asset://localhost/{}",
            percent_encoding::utf8_percent_encode(p, set)
        );
        assert_eq!(convert_file_src(p), expected);
    }
}

#[test]
fn percent_encoding_round_trips() {
    let path = "/books/author name/\u{4e66} 12 (copy)'.txt";
    let bytes = path.as_bytes().to_vec();
    let encoded = percent_encode_bytes(&bytes);
    let decoded = percent_decode_bytes(&encoded).expect("well-formed escape sequences");
    assert_eq!(decoded, bytes);
    assert_eq!(String::from_utf8(decoded).unwrap(), path);
}

#[test]
fn percent_decode_rejects_malformed_escapes() {
    assert!(percent_decode_bytes(&b"abc%2".to_vec()).is_none());
    assert!(percent_decode_bytes(&b"abc%zz".to_vec()).is_none());
    assert_eq!(percent_decode_bytes(&b"a%20b".to_vec()).unwrap(), b"a b".to_vec());
}
