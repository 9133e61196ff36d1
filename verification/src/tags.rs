//! File-tag logic: a file's tags are a list of strings; a tag's name is
//! the part before the first newline, and names are matched ASCII
//! case-insensitively. The starred and deleted flags correspond to the
//! `STAR` and `DELETE` tags.
//!
//! Reading and writing the tag list on a file is the caller's business;
//! the decisions — which flags a list carries, and what the list becomes
//! when a flag is set or cleared — are made and verified here.

use vstd::prelude::*;
use vstd::string::StrSliceExecFns;
use crate::names::{chars_eq_ignore_case, chars_of, eq_ignore_ascii_case};

verus! {

/// Index of the first newline in a tag string.
pub open spec fn first_newline(tag: Seq<char>) -> Option<int>
    decreases tag.len(),
{
    if tag.len() == 0 {
        None
    } else if tag[0] == '\n' {
        Some(0int)
    } else {
        match first_newline(tag.drop_first()) {
            Some(i) => Some(i + 1),
            None => None,
        }
    }
}

/// The name of a tag: what precedes the first newline.
pub open spec fn spec_tag_name(tag: Seq<char>) -> Seq<char> {
    match first_newline(tag) {
        Some(i) => tag.take(i),
        None => tag,
    }
}

/// Does the tag carry this name (ASCII case-insensitively)?
pub open spec fn tag_matches(tag: Seq<char>, name: Seq<char>) -> bool {
    eq_ignore_ascii_case(spec_tag_name(tag), name)
}

/// The views of a list of tags.
pub open spec fn tag_views(tags: Seq<String>) -> Seq<Seq<char>> {
    tags.map_values(|t: String| t@)
}

/// Does some tag of the list carry this name?
pub open spec fn spec_has_tag(tags: Seq<Seq<char>>, name: Seq<char>) -> bool {
    exists|i: int| 0 <= i < tags.len() && tag_matches(#[trigger] tags[i], name)
}

/// What a tag list becomes when one flag is set or cleared: `None` leaves
/// it alone; `Some(true)` appends the tag value unless the name is
/// already present; `Some(false)` removes every tag of that name.
pub open spec fn spec_update(
    tags: Seq<Seq<char>>,
    name: Seq<char>,
    value: Seq<char>,
    should_have: Option<bool>,
) -> Seq<Seq<char>> {
    match should_have {
        None => tags,
        Some(true) => if spec_has_tag(tags, name) {
            tags
        } else {
            tags.push(value)
        },
        Some(false) => if spec_has_tag(tags, name) {
            tags.filter(|t: Seq<char>| !tag_matches(t, name))
        } else {
            tags
        },
    }
}

/// The name of a tag: everything before the first newline.
pub fn get_tag_name<'a>(tag: &'a str) -> (r: &'a str)
    ensures
        r@ == spec_tag_name(tag@),
{
    let n = tag.unicode_len();
    let mut i: usize = 0;
    proof {
        assert(tag@.skip(0) =~= tag@);
    }
    while i < n
        invariant
            i <= n,
            n == tag@.len(),
            first_newline(tag@) == match first_newline(tag@.skip(i as int)) {
                Some(k) => Some(k + i),
                None => None::<int>,
            },
            forall|j: int| 0 <= j < i ==> tag@[j] != '\n',
        decreases n - i,
    {
        proof {
            assert(tag@.skip(i as int)[0] == tag@[i as int]);
            assert(tag@.skip(i as int).drop_first() =~= tag@.skip(i + 1));
        }
        if tag.get_char(i) == '\n' {
            let r = tag.substring_char(0, i);
            proof {
                assert(tag@.subrange(0, i as int) =~= tag@.take(i as int));
            }
            return r;
        }
        i = i + 1;
    }
    proof {
        assert(tag@.skip(n as int) =~= Seq::<char>::empty());
    }
    tag
}

/// Is a tag of this name in the list (ASCII case-insensitively)?
pub fn has_tag(tags_list: &Vec<String>, tag_name: &str) -> (r: bool)
    ensures
        r == spec_has_tag(tag_views(tags_list@), tag_name@),
{
    let name_chars = chars_of(tag_name);
    let mut i: usize = 0;
    while i < tags_list.len()
        invariant
            i <= tags_list@.len(),
            name_chars@ == tag_name@,
            forall|j: int| 0 <= j < i ==> !tag_matches(
                #[trigger] tag_views(tags_list@)[j],
                tag_name@,
            ),
        decreases tags_list@.len() - i,
    {
        let tn = get_tag_name(tags_list[i].as_str());
        let tn_chars = chars_of(tn);
        if chars_eq_ignore_case(&tn_chars, &name_chars) {
            proof {
                assert(tag_views(tags_list@)[i as int] == tags_list@[i as int]@);
                assert(tag_matches(tag_views(tags_list@)[i as int], tag_name@));
            }
            return true;
        }
        proof {
            assert(tag_views(tags_list@)[i as int] == tags_list@[i as int]@);
        }
        i = i + 1;
    }
    false
}

/// Set or clear one tag in the list, as `spec_update` says.
pub fn update_tag(
    tags_list: &mut Vec<String>,
    tag_name: &str,
    tag_value: &str,
    should_have: Option<bool>,
)
    ensures
        tag_views(final(tags_list)@) == spec_update(
            tag_views(old(tags_list)@),
            tag_name@,
            tag_value@,
            should_have,
        ),
{
    broadcast use vstd::seq_lib::group_filter_ensures;

    let should = match should_have {
        None => {
            return ;
        },
        Some(b) => b,
    };
    let currently_has = has_tag(tags_list, tag_name);
    if should {
        if !currently_has {
            let v = tag_value.to_owned();
            tags_list.push(v);
            proof {
                assert(tag_views(tags_list@) =~= tag_views(old(tags_list)@).push(tag_value@));
            }
        }
    } else {
        if currently_has {
            let ghost t0 = tags_list@;
            let name_chars = chars_of(tag_name);
            let mut keep: Vec<String> = Vec::new();
            let mut i: usize = 0;
            proof {
                reveal_with_fuel(Seq::filter, 2);
                assert(tag_views(t0).take(0) =~= Seq::<Seq<char>>::empty());
                assert(Seq::<Seq<char>>::empty().filter(
                    |t: Seq<char>| !tag_matches(t, tag_name@),
                ) =~= Seq::<Seq<char>>::empty());
                assert(tag_views(keep@) =~= Seq::<Seq<char>>::empty());
            }
            while i < tags_list.len()
                invariant
                    i <= tags_list@.len(),
                    tags_list@ == t0,
                    name_chars@ == tag_name@,
                    tag_views(keep@) == tag_views(t0).take(i as int).filter(
                        |t: Seq<char>| !tag_matches(t, tag_name@),
                    ),
                decreases tags_list@.len() - i,
            {
                let ghost keep0 = keep@;
                let tn = get_tag_name(tags_list[i].as_str());
                let tn_chars = chars_of(tn);
                let keep_it = !chars_eq_ignore_case(&tn_chars, &name_chars);
                if keep_it {
                    let v = index_clone(tags_list, i);
                    keep.push(v);
                }
                proof {
                    reveal_with_fuel(Seq::filter, 2);
                    let pred = |t: Seq<char>| !tag_matches(t, tag_name@);
                    let tv = tag_views(t0);
                    assert(tv[i as int] == t0[i as int]@);
                    assert(tv.take(i + 1) =~= tv.take(i as int).push(tv[i as int]));
                    assert(tv.take(i + 1).drop_last() =~= tv.take(i as int));
                    if keep_it {
                        assert(tag_views(keep@) =~= tag_views(keep0).push(t0[i as int]@));
                        assert(tv.take(i + 1).filter(pred) =~= tv.take(i as int).filter(pred).push(
                            tv[i as int],
                        ));
                    } else {
                        assert(tag_views(keep@) =~= tag_views(keep0));
                        assert(tv.take(i + 1).filter(pred) =~= tv.take(i as int).filter(pred));
                    }
                }
                i = i + 1;
            }
            proof {
                assert(tag_views(t0).take(t0.len() as int) =~= tag_views(t0));
            }
            *tags_list = keep;
        }
    }
}

/// Clone one element of the list.
fn index_clone(tags_list: &Vec<String>, i: usize) -> (r: String)
    requires
        i < tags_list@.len(),
    ensures
        r@ == tags_list@[i as int]@,
{
    let s: &String = &tags_list[i];
    let r = s.clone();
    r
}

/// The flags a tag list carries: (starred, deleted) — whether the list
/// holds a `STAR` and a `DELETE` tag.
pub fn get_file_tags(tags_list: &Vec<String>) -> (r: (bool, bool))
    ensures
        r.0 == spec_has_tag(tag_views(tags_list@), "STAR"@),
        r.1 == spec_has_tag(tag_views(tags_list@), "DELETE"@),
{
    let starred = has_tag(tags_list, "STAR");
    let deleted = has_tag(tags_list, "DELETE");
    (starred, deleted)
}

/// A request to set or clear the two flags; `None` leaves a flag alone.
#[derive(Clone, Copy)]
pub struct FileTags {
    /// Set or clear the `STAR` tag.
    pub starred: Option<bool>,
    /// Set or clear the `DELETE` tag.
    pub deleted: Option<bool>,
}

/// Apply a starred/deleted request to a tag list: first the `STAR` tag,
/// then the `DELETE` tag, each as `spec_update` says.
pub fn set_file_tag_impl(tags_list: &mut Vec<String>, tags: FileTags)
    ensures
        tag_views(final(tags_list)@) == spec_update(
            spec_update(tag_views(old(tags_list)@), "STAR"@, "STAR\n5"@, tags.starred),
            "DELETE"@,
            "DELETE\n6"@,
            tags.deleted,
        ),
{
    update_tag(tags_list, "STAR", "STAR\n5", tags.starred);
    update_tag(tags_list, "DELETE", "DELETE\n6", tags.deleted);
}

} // verus!
