//! Book text parsing: keep the non-blank lines of a text file and find
//! the chapter headings among them.
//!
//! A heading is a trimmed line that either starts with one of the
//! special section words, or reads `第<number><unit>`, where the number
//! is written in Arabic digits or common Chinese numerals and the unit
//! is one of the chapter words.

use vstd::prelude::*;
use vstd::string::StrSliceExecFns;
use crate::natural::nat_is_ws;

verus! {

/// Index of the first non-whitespace character.
pub open spec fn first_non_ws(s: Seq<char>) -> Option<int>
    decreases s.len(),
{
    if s.len() == 0 {
        None
    } else if !nat_is_ws(s[0]) {
        Some(0int)
    } else {
        match first_non_ws(s.drop_first()) {
            Some(i) => Some(i + 1),
            None => None,
        }
    }
}

/// Index of the last non-whitespace character.
pub open spec fn last_non_ws(s: Seq<char>) -> Option<int>
    decreases s.len(),
{
    if s.len() == 0 {
        None
    } else if !nat_is_ws(s[s.len() - 1]) {
        Some(s.len() - 1)
    } else {
        last_non_ws(s.drop_last())
    }
}

proof fn lemma_first_non_ws(s: Seq<char>)
    ensures
        match first_non_ws(s) {
            Some(a) => 0 <= a < s.len() && !nat_is_ws(s[a]) && forall|j: int|
                0 <= j < a ==> nat_is_ws(#[trigger] s[j]),
            None => forall|j: int| 0 <= j < s.len() ==> nat_is_ws(#[trigger] s[j]),
        },
    decreases s.len(),
{
    if s.len() > 0 && nat_is_ws(s[0]) {
        lemma_first_non_ws(s.drop_first());
        assert(forall|j: int| 1 <= j < s.len() ==> s.drop_first()[j - 1] == #[trigger] s[j]);
    }
}

proof fn lemma_last_non_ws(s: Seq<char>)
    ensures
        match last_non_ws(s) {
            Some(b) => 0 <= b < s.len() && !nat_is_ws(s[b]) && forall|j: int|
                b < j < s.len() ==> nat_is_ws(#[trigger] s[j]),
            None => forall|j: int| 0 <= j < s.len() ==> nat_is_ws(#[trigger] s[j]),
        },
    decreases s.len(),
{
    if s.len() > 0 && nat_is_ws(s[s.len() - 1]) {
        lemma_last_non_ws(s.drop_last());
        assert(forall|j: int| 0 <= j < s.len() - 1 ==> s.drop_last()[j] == #[trigger] s[j]);
    }
}

/// A line with its leading and trailing whitespace removed.
pub open spec fn spec_trim(s: Seq<char>) -> Seq<char> {
    match first_non_ws(s) {
        Some(a) => match last_non_ws(s) {
            Some(b) => s.subrange(a, b + 1),
            None => Seq::empty(),
        },
        None => Seq::empty(),
    }
}

/// Trim leading and trailing whitespace from a line.
#[verifier::loop_isolation(false)]
pub fn trim_line<'a>(s: &'a str) -> (r: &'a str)
    ensures
        r@ == spec_trim(s@),
{
    proof {
        lemma_first_non_ws(s@);
        lemma_last_non_ws(s@);
    }
    let n = s.unicode_len();
    let mut a: usize = 0;
    while a < n && is_ws_char(s.get_char(a))
        invariant
            a <= n,
            forall|j: int| 0 <= j < a ==> nat_is_ws(#[trigger] s@[j]),
        decreases n - a,
    {
        a = a + 1;
    }
    if a == n {
        proof {
            if first_non_ws(s@) is Some {
                let w = first_non_ws(s@).unwrap();
                assert(nat_is_ws(s@[w]));
            }
        }
        let r = s.substring_char(0, 0);
        proof {
            assert(s@.subrange(0, 0) =~= Seq::<char>::empty());
        }
        return r;
    }
    let mut b: usize = n - 1;
    while b > a && is_ws_char(s.get_char(b))
        invariant
            a <= b < n,
            forall|j: int| b < j < n ==> nat_is_ws(#[trigger] s@[j]),
        decreases b,
    {
        b = b - 1;
    }
    proof {
        assert(first_non_ws(s@) == Some(a as int));
        assert(!nat_is_ws(s@[b as int]));
        assert(last_non_ws(s@) == Some(b as int));
    }
    s.substring_char(a, b + 1)
}

/// Is the character whitespace (the Unicode `White_Space` property)?
fn is_ws_char(c: char) -> (r: bool)
    ensures
        r == nat_is_ws(c),
{
    let u = c as u32;
    (0x09 <= u && u <= 0x0d) || u == 0x20 || u == 0x85 || u == 0xa0 || u == 0x1680 || (0x2000
        <= u && u <= 0x200a) || u == 0x2028 || u == 0x2029 || u == 0x202f || u == 0x205f || u
        == 0x3000
}

/// A chapter-number character: an ASCII digit or a common Chinese
/// numeral.
pub open spec fn spec_is_chapter_number_char(c: char) -> bool {
    let u = c as u32;
    (0x30 <= u && u <= 0x39) || u == 0x4e00 || u == 0x4e8c || u == 0x4e09 || u == 0x56db || u
        == 0x4e94 || u == 0x516d || u == 0x4e03 || u == 0x516b || u == 0x4e5d || u == 0x5341 || u
        == 0x767e || u == 0x5343
}

/// Is the character an ASCII digit or a common Chinese numeral?
pub fn is_chapter_number_char(c: char) -> (r: bool)
    ensures
        r == spec_is_chapter_number_char(c),
{
    let u = c as u32;
    (0x30 <= u && u <= 0x39) || u == 0x4e00 || u == 0x4e8c || u == 0x4e09 || u == 0x56db || u
        == 0x4e94 || u == 0x516d || u == 0x4e03 || u == 0x516b || u == 0x4e5d || u == 0x5341 || u
        == 0x767e || u == 0x5343
}

/// Count of leading chapter-number characters.
pub open spec fn number_run(s: Seq<char>) -> int
    decreases s.len(),
{
    if s.len() == 0 || !spec_is_chapter_number_char(s[0]) {
        0
    } else {
        1 + number_run(s.drop_first())
    }
}

proof fn lemma_number_run(s: Seq<char>)
    ensures
        0 <= number_run(s) <= s.len(),
        forall|i: int| 0 <= i < number_run(s) ==> spec_is_chapter_number_char(#[trigger] s[i]),
        number_run(s) < s.len() ==> !spec_is_chapter_number_char(s[number_run(s)]),
    decreases s.len(),
{
    if s.len() != 0 && spec_is_chapter_number_char(s[0]) {
        lemma_number_run(s.drop_first());
        assert(forall|i: int| 1 <= i < s.len() ==> s.drop_first()[i - 1] == #[trigger] s[i]);
    }
}

/// Does `s` start with `p`?
pub open spec fn spec_starts_with(s: Seq<char>, p: Seq<char>) -> bool {
    s.len() >= p.len() && s.take(p.len() as int) == p
}

/// A chapter-unit character: one of the section words a heading may end
/// its number with.
pub open spec fn spec_is_chapter_suffix(c: char) -> bool {
    let u = c as u32;
    u == 0x7ae0 || u == 0x56de || u == 0x8282 || u == 0x5377 || u == 0x96c6 || u == 0x5e55
}

/// The heading a line carries, if any: the trimmed line when it starts
/// with a special section word, or reads `第<number><unit>`.
pub open spec fn spec_chapter_title(line: Seq<char>) -> Option<Seq<char>> {
    let t = spec_trim(line);
    if spec_starts_with(t, "\u{5e8f}\u{7ae0}"@) || spec_starts_with(t, "\u{7ec8}\u{7ae0}"@)
        || spec_starts_with(t, "\u{756a}\u{5916}"@) || spec_starts_with(t, "\u{540e}\u{8bb0}"@)
        || spec_starts_with(t, "\u{5c3e}\u{58f0}"@) {
        Some(t)
    } else if !(t.len() > 0 && t[0] as u32 == 0x7b2c) {
        None
    } else {
        let i = 1 + number_run(t.drop_first());
        if i == 1 || i >= t.len() {
            None
        } else if spec_is_chapter_suffix(t[i]) {
            Some(t)
        } else {
            None
        }
    }
}

/// Does the character vector start with this prefix?
fn starts_with_chars(chars: &Vec<char>, prefix: &Vec<char>) -> (r: bool)
    ensures
        r == spec_starts_with(chars@, prefix@),
{
    if chars.len() < prefix.len() {
        return false;
    }
    let mut i: usize = 0;
    while i < prefix.len()
        invariant
            i <= prefix@.len(),
            prefix@.len() <= chars@.len(),
            forall|j: int| 0 <= j < i ==> chars@[j] == prefix@[j],
        decreases prefix@.len() - i,
    {
        if chars[i] != prefix[i] {
            proof {
                assert(chars@.take(prefix@.len() as int)[i as int] == chars@[i as int]);
            }
            return false;
        }
        i = i + 1;
    }
    proof {
        assert(chars@.take(prefix@.len() as int) =~= prefix@);
    }
    true
}

/// Extract the chapter heading of a line, if it carries one.
#[verifier::loop_isolation(false)]
pub fn extract_chapter_title(line: &str) -> (r: Option<String>)
    ensures
        match r {
            Some(t) => spec_chapter_title(line@) == Some(t@),
            None => spec_chapter_title(line@) is None,
        },
{
    let trimmed = trim_line(line);
    let chars = crate::names::chars_of(trimmed);
    let p1 = crate::names::chars_of("\u{5e8f}\u{7ae0}");
    let p2 = crate::names::chars_of("\u{7ec8}\u{7ae0}");
    let p3 = crate::names::chars_of("\u{756a}\u{5916}");
    let p4 = crate::names::chars_of("\u{540e}\u{8bb0}");
    let p5 = crate::names::chars_of("\u{5c3e}\u{58f0}");
    if starts_with_chars(&chars, &p1) || starts_with_chars(&chars, &p2) || starts_with_chars(
        &chars,
        &p3,
    ) || starts_with_chars(&chars, &p4) || starts_with_chars(&chars, &p5) {
        return Some(trimmed.to_owned());
    }
    if chars.len() == 0 || (chars[0] as u32) != 0x7b2c {
        return None;
    }
    proof {
        lemma_number_run(chars@.drop_first());
    }
    let mut i: usize = 1;
    while i < chars.len() && is_chapter_number_char(chars[i])
        invariant
            1 <= i <= chars@.len(),
            i - 1 <= number_run(chars@.drop_first()),
            forall|j: int| 1 <= j < i ==> spec_is_chapter_number_char(#[trigger] chars@[j]),
        decreases chars@.len() - i,
    {
        proof {
            assert(chars@.drop_first()[i - 1] == chars@[i as int]);
            if i - 1 == number_run(chars@.drop_first()) && i - 1 < chars@.drop_first().len() {
                assert(false);
            }
        }
        i = i + 1;
    }
    proof {
        assert(forall|j: int| 0 <= j < i - 1 ==> spec_is_chapter_number_char(
            #[trigger] chars@.drop_first()[j],
        ));
        if i < chars@.len() {
            assert(chars@.drop_first()[i - 1] == chars@[i as int]);
            assert(!spec_is_chapter_number_char(chars@.drop_first()[i - 1]));
            assert(number_run(chars@.drop_first()) == i - 1);
        } else {
            assert(number_run(chars@.drop_first()) == i - 1);
        }
    }
    if i == 1 || i >= chars.len() {
        return None;
    }
    let u = chars[i] as u32;
    let is_suffix = u == 0x7ae0 || u == 0x56de || u == 0x8282 || u == 0x5377 || u == 0x96c6 || u
        == 0x5e55;
    if is_suffix {
        Some(trimmed.to_owned())
    } else {
        None
    }
}

/// One recognized chapter heading, at its line within the kept lines.
pub struct Chapter {
    /// The heading, trimmed.
    pub title: String,
    /// Index of the line carrying it, within the kept lines.
    pub line_index: usize,
}

/// The mathematical content of a `Chapter`.
pub struct ChapterView {
    pub title: Seq<char>,
    pub line_index: int,
}

impl View for Chapter {
    type V = ChapterView;

    open spec fn view(&self) -> ChapterView {
        ChapterView { title: self.title@, line_index: self.line_index as int }
    }
}

/// A parsed book: its non-blank lines and the chapter headings found
/// among them.
pub struct BookContent {
    /// The non-blank lines, in order.
    pub lines: Vec<String>,
    /// The chapter headings, in order.
    pub chapters: Vec<Chapter>,
}

/// The lines kept from a text: those that are not blank after trimming.
pub open spec fn spec_content_lines(lines: Seq<Seq<char>>) -> Seq<Seq<char>>
    decreases lines.len(),
{
    if lines.len() == 0 {
        Seq::empty()
    } else {
        let rest = spec_content_lines(lines.drop_last());
        if spec_trim(lines.last()).len() > 0 {
            rest.push(lines.last())
        } else {
            rest
        }
    }
}

/// The chapter headings of the kept lines, each with its line index.
pub open spec fn spec_chapters(kept: Seq<Seq<char>>) -> Seq<ChapterView>
    decreases kept.len(),
{
    if kept.len() == 0 {
        Seq::empty()
    } else {
        let rest = spec_chapters(kept.drop_last());
        match spec_chapter_title(kept.last()) {
            Some(t) => rest.push(ChapterView { title: t, line_index: kept.len() - 1 }),
            None => rest,
        }
    }
}

/// Parse a book's text: keep the non-blank lines and collect the chapter
/// headings among them, each with the index of its line.
pub fn parse_book(lines: Vec<String>) -> (r: BookContent)
    ensures
        r.lines@.map_values(|l: String| l@) == spec_content_lines(
            lines@.map_values(|l: String| l@),
        ),
        r.chapters@.map_values(|c: Chapter| c@) == spec_chapters(
            spec_content_lines(lines@.map_values(|l: String| l@)),
        ),
{
    let ghost lv = lines@.map_values(|l: String| l@);
    let mut kept: Vec<String> = Vec::new();
    let mut rest = lines;
    let n = rest.len();
    let mut i: usize = 0;
    proof {
        assert(lv.take(0) =~= Seq::<Seq<char>>::empty());
        assert(kept@.map_values(|l: String| l@) =~= spec_content_lines(lv.take(0)));
    }
    while rest.len() > 0
        invariant
            i <= lv.len(),
            lv.len() == n,
            rest@.map_values(|l: String| l@) == lv.skip(i as int),
            kept@.map_values(|l: String| l@) == spec_content_lines(lv.take(i as int)),
        decreases rest@.len(),
    {
        proof {
            assert(rest@.map_values(|l: String| l@).len() == rest@.len());
            assert(rest@.map_values(|l: String| l@)[0] == rest@[0]@);
            assert(lv.skip(i as int)[0] == lv[i as int]);
            assert(lv.take(i + 1).drop_last() =~= lv.take(i as int));
            assert(lv.take(i + 1).last() == lv[i as int]);
        }
        let ghost rv = rest@;
        let line = rest.remove(0);
        proof {
            assert(rest@.map_values(|l: String| l@) =~= rv.map_values(
                |l: String| l@,
            ).drop_first());
            assert(rv.map_values(|l: String| l@).drop_first() =~= lv.skip(i + 1));
        }
        let t = trim_line(line.as_str());
        if t.unicode_len() > 0 {
            let ghost prior = kept@;
            kept.push(line);
            proof {
                assert(kept@.map_values(|l: String| l@) =~= prior.map_values(
                    |l: String| l@,
                ).push(lv[i as int]));
            }
        } else {
            proof {
                assert(kept@.map_values(|l: String| l@) == spec_content_lines(lv.take(i + 1)));
            }
        }
        i = i + 1;
    }
    proof {
        assert(lv.take(lv.len() as int) =~= lv);
    }
    let ghost kv = kept@.map_values(|l: String| l@);
    let mut chapters: Vec<Chapter> = Vec::new();
    let mut j: usize = 0;
    let m = kept.len();
    proof {
        assert(kv.take(0) =~= Seq::<Seq<char>>::empty());
        assert(chapters@.map_values(|c: Chapter| c@) =~= spec_chapters(kv.take(0)));
    }
    while j < m
        invariant
            j <= m,
            m == kept@.len(),
            kv == kept@.map_values(|l: String| l@),
            chapters@.map_values(|c: Chapter| c@) == spec_chapters(kv.take(j as int)),
        decreases m - j,
    {
        proof {
            assert(kv[j as int] == kept@[j as int]@);
            assert(kv.take(j + 1).drop_last() =~= kv.take(j as int));
            assert(kv.take(j + 1).last() == kv[j as int]);
        }
        match extract_chapter_title(kept[j].as_str()) {
            Some(title) => {
                let ghost prior = chapters@;
                chapters.push(Chapter { title, line_index: j });
                proof {
                    assert(chapters@.map_values(|c: Chapter| c@) =~= prior.map_values(
                        |c: Chapter| c@,
                    ).push(
                        ChapterView {
                            title: spec_chapter_title(kv[j as int]).unwrap(),
                            line_index: j as int,
                        },
                    ));
                }
            },
            None => {
                proof {
                    assert(chapters@.map_values(|c: Chapter| c@) == spec_chapters(kv.take(j + 1)));
                }
            },
        }
        j = j + 1;
    }
    proof {
        assert(kv.take(kv.len() as int) =~= kv);
    }
    BookContent { lines: kept, chapters }
}

} // verus!
