//! File-name classification: hidden entries, extensions, stems, and the
//! recognized book, video and image extensions.
//!
//! The extension and stem of a name follow the usual convention: the part
//! after the last dot is the extension, except that a leading dot (a
//! hidden file) starts the stem. Extension matching is ASCII
//! case-insensitive.

use vstd::prelude::*;
use vstd::string::StrSliceExecFns;

verus! {

/// Index of the last `.` in a name, if any.
pub open spec fn spec_last_dot(name: Seq<char>) -> Option<int>
    decreases name.len(),
{
    if name.len() == 0 {
        None
    } else if name[name.len() - 1] == '.' {
        Some(name.len() - 1)
    } else {
        spec_last_dot(name.drop_last())
    }
}

/// The extension of a file name: what follows the last dot, unless the
/// only dot is the leading one of a hidden file.
pub open spec fn spec_ext(name: Seq<char>) -> Option<Seq<char>> {
    match spec_last_dot(name) {
        Some(d) => if d > 0 {
            Some(name.skip(d + 1))
        } else {
            None
        },
        None => None,
    }
}

/// The stem of a file name: what precedes the last dot, or the whole
/// name if there is no extension.
pub open spec fn spec_stem(name: Seq<char>) -> Seq<char> {
    match spec_last_dot(name) {
        Some(d) => if d > 0 {
            name.take(d)
        } else {
            name
        },
        None => name,
    }
}

/// A character's code point with ASCII uppercase letters folded to
/// lowercase.
pub open spec fn lower_u32(c: char) -> u32 {
    if 0x41 <= c as u32 && c as u32 <= 0x5a {
        (c as u32 + 0x20) as u32
    } else {
        c as u32
    }
}

/// ASCII case-insensitive equality of two character sequences.
pub open spec fn eq_ignore_ascii_case(a: Seq<char>, b: Seq<char>) -> bool {
    a.len() == b.len() && forall|i: int| 0 <= i < a.len() ==> lower_u32(a[i]) == lower_u32(b[i])
}

/// Does the name carry this extension, ASCII case-insensitively?
pub open spec fn has_ext(name: Seq<char>, ext: Seq<char>) -> bool {
    match spec_ext(name) {
        Some(e) => eq_ignore_ascii_case(e, ext),
        None => false,
    }
}

/// A recognized image name: extension `jpg`, `jpeg` or `png`.
pub open spec fn spec_is_image_name(name: Seq<char>) -> bool {
    has_ext(name, "jpg"@) || has_ext(name, "jpeg"@) || has_ext(name, "png"@)
}

/// A recognized book name: extension `txt`.
pub open spec fn spec_is_book_name(name: Seq<char>) -> bool {
    has_ext(name, "txt"@)
}

/// A recognized video name: extension `mp4`.
pub open spec fn spec_is_video_name(name: Seq<char>) -> bool {
    has_ext(name, "mp4"@)
}

/// A dotfile-hidden name.
pub open spec fn spec_is_hidden(name: Seq<char>) -> bool {
    name.len() > 0 && name[0] == '.'
}

/// The characters of a string, as a vector.
pub fn chars_of(s: &str) -> (r: Vec<char>)
    ensures
        r@ == s@,
{
    let n = s.unicode_len();
    let mut r: Vec<char> = Vec::new();
    let mut i: usize = 0;
    while i < n
        invariant
            i <= n,
            n == s@.len(),
            r@ == s@.take(i as int),
        decreases n - i,
    {
        let c = s.get_char(i);
        r.push(c);
        proof {
            assert(s@.take(i + 1) =~= s@.take(i as int).push(s@[i as int]));
        }
        i = i + 1;
    }
    proof {
        assert(s@.take(s@.len() as int) =~= s@);
    }
    r
}

/// Index of the last `.` among the characters, if any.
pub fn find_last_dot(chars: &Vec<char>) -> (r: Option<usize>)
    ensures
        match r {
            Some(d) => spec_last_dot(chars@) == Some(d as int) && d < chars@.len(),
            None => spec_last_dot(chars@) is None,
        },
{
    let mut i: usize = chars.len();
    proof {
        assert(chars@.take(chars@.len() as int) =~= chars@);
    }
    while i > 0
        invariant
            i <= chars@.len(),
            spec_last_dot(chars@) == spec_last_dot(chars@.take(i as int)),
        decreases i,
    {
        proof {
            assert(chars@.take(i as int).drop_last() =~= chars@.take(i - 1));
            assert(chars@.take(i as int).last() == chars@[i - 1]);
        }
        if chars[i - 1] == '.' {
            return Some(i - 1);
        }
        i = i - 1;
    }
    proof {
        assert(chars@.take(0) =~= Seq::<char>::empty());
    }
    None
}

/// Do two character sequences agree, ASCII case-insensitively?
pub fn chars_eq_ignore_case(a: &Vec<char>, b: &Vec<char>) -> (r: bool)
    ensures
        r == eq_ignore_ascii_case(a@, b@),
{
    if a.len() != b.len() {
        return false;
    }
    let mut i: usize = 0;
    while i < a.len()
        invariant
            i <= a@.len(),
            a@.len() == b@.len(),
            forall|j: int| 0 <= j < i ==> lower_u32(a@[j]) == lower_u32(b@[j]),
        decreases a@.len() - i,
    {
        let ca = a[i] as u32;
        let cb = b[i] as u32;
        let la: u32 = if 0x41 <= ca && ca <= 0x5a {
            ca + 0x20
        } else {
            ca
        };
        let lb: u32 = if 0x41 <= cb && cb <= 0x5a {
            cb + 0x20
        } else {
            cb
        };
        if la != lb {
            return false;
        }
        i = i + 1;
    }
    true
}

/// The part of the characters from `from` (inclusive) to `to` (exclusive).
pub fn subchars(chars: &Vec<char>, from: usize, to: usize) -> (r: Vec<char>)
    requires
        from <= to <= chars@.len(),
    ensures
        r@ == chars@.subrange(from as int, to as int),
{
    let mut r: Vec<char> = Vec::new();
    let mut i: usize = from;
    proof {
        assert(chars@.subrange(from as int, from as int) =~= Seq::<char>::empty());
    }
    while i < to
        invariant
            from <= i <= to <= chars@.len(),
            r@ == chars@.subrange(from as int, i as int),
        decreases to - i,
    {
        r.push(chars[i]);
        proof {
            assert(chars@.subrange(from as int, i + 1) =~= chars@.subrange(
                from as int,
                i as int,
            ).push(chars@[i as int]));
        }
        i = i + 1;
    }
    r
}

/// The extension of a file name, in characters.
pub fn name_ext(chars: &Vec<char>) -> (r: Option<Vec<char>>)
    ensures
        match r {
            Some(e) => spec_ext(chars@) == Some(e@),
            None => spec_ext(chars@) is None,
        },
{
    match find_last_dot(chars) {
        Some(d) => if d > 0 {
            let n = chars.len();
            assert(d < n);
            Some(subchars(chars, d + 1, n))
        } else {
            None
        },
        None => None,
    }
}

/// Is the name's extension `ext`, ASCII case-insensitively? `ext` is
/// given in characters.
fn has_ext_exec(chars: &Vec<char>, ext: &Vec<char>) -> (r: bool)
    ensures
        r == has_ext(chars@, ext@),
{
    match name_ext(chars) {
        Some(e) => chars_eq_ignore_case(&e, ext),
        None => false,
    }
}

/// Is the file dotfile-hidden (its name starts with a dot)?
pub fn is_hidden(name: &str) -> (r: bool)
    ensures
        r == spec_is_hidden(name@),
{
    let chars = chars_of(name);
    chars.len() > 0 && chars[0] == '.'
}

/// Is the file a recognized book file (`txt`)?
pub fn is_book_file(name: &str) -> (r: bool)
    ensures
        r == spec_is_book_name(name@),
{
    let chars = chars_of(name);
    let ext = chars_of("txt");
    proof {
        reveal_strlit("txt");
    }
    has_ext_exec(&chars, &ext)
}

/// Is the file a recognized video file (`mp4`)?
pub fn is_video_file(name: &str) -> (r: bool)
    ensures
        r == spec_is_video_name(name@),
{
    let chars = chars_of(name);
    let ext = chars_of("mp4");
    proof {
        reveal_strlit("mp4");
    }
    has_ext_exec(&chars, &ext)
}

/// Is the file a recognized image file (`jpg`, `jpeg` or `png`)?
pub fn is_image_file(name: &str) -> (r: bool)
    ensures
        r == spec_is_image_name(name@),
{
    let chars = chars_of(name);
    let jpg = chars_of("jpg");
    let jpeg = chars_of("jpeg");
    let png = chars_of("png");
    proof {
        reveal_strlit("jpg");
        reveal_strlit("jpeg");
        reveal_strlit("png");
    }
    has_ext_exec(&chars, &jpg) || has_ext_exec(&chars, &jpeg) || has_ext_exec(&chars, &png)
}

/// The file name without its extension.
pub fn remove_extension(filename: &str) -> (r: String)
    ensures
        r@ == spec_stem(filename@),
{
    let chars = chars_of(filename);
    match find_last_dot(&chars) {
        Some(d) => if d > 0 {
            let r = filename.substring_char(0, d);
            proof {
                assert(filename@.subrange(0, d as int) =~= filename@.take(d as int));
            }
            r.to_owned()
        } else {
            filename.to_owned()
        },
        None => filename.to_owned(),
    }
}

} // verus!
