//! Cover selection: pick the representative image of a folder by a fixed
//! priority.
//!
//! 1. a file named `1001.<ext>` for a recognized image extension
//!    (case-insensitive) — the explicit-cover convention;
//! 2. the first image in natural order whose stem ends in `_p0`;
//! 3. if the natural-order-first image's stem is `<prefix>_p<N>` and a
//!    sibling `<prefix>_p0.<ext>` exists, that sibling;
//! 4. otherwise the natural-order-first image.
//!
//! The input is the list of the folder's plain file names; the result is
//! an index into that list.

use vstd::prelude::*;
use crate::names::{
    chars_of, chars_eq_ignore_case, find_last_dot, has_ext, name_ext, spec_ext, spec_is_image_name,
    spec_stem, subchars,
};
use crate::natural::{nat_cmp, nat_compare};

verus! {

/// An explicit cover: an image file with stem `1001`.
pub open spec fn is_cover_1001(name: Seq<char>) -> bool {
    spec_is_image_name(name) && spec_stem(name) == seq!['1', '0', '0', '1']
}

/// Does the name's stem end in `_p0`?
pub open spec fn has_p0_stem(name: Seq<char>) -> bool {
    let st = spec_stem(name);
    st.len() >= 3 && st.skip(st.len() - 3) == seq!['_', 'p', '0']
}

/// An image whose stem ends in `_p0`.
pub open spec fn is_p0_image(name: Seq<char>) -> bool {
    spec_is_image_name(name) && has_p0_stem(name)
}

/// Index of the first name satisfying the predicate.
pub open spec fn first_match(names: Seq<Seq<char>>, pred: spec_fn(Seq<char>) -> bool) -> Option<
    int,
>
    decreases names.len(),
{
    if names.len() == 0 {
        None
    } else if pred(names[0]) {
        Some(0int)
    } else {
        match first_match(names.drop_first(), pred) {
            Some(i) => Some(i + 1),
            None => None,
        }
    }
}

pub proof fn lemma_first_match(names: Seq<Seq<char>>, pred: spec_fn(Seq<char>) -> bool)
    ensures
        match first_match(names, pred) {
            Some(i) => 0 <= i < names.len() && pred(names[i]) && forall|j: int|
                0 <= j < i ==> !pred(#[trigger] names[j]),
            None => forall|j: int| 0 <= j < names.len() ==> !pred(#[trigger] names[j]),
        },
    decreases names.len(),
{
    if names.len() > 0 && !pred(names[0]) {
        lemma_first_match(names.drop_first(), pred);
        assert(forall|j: int| 1 <= j < names.len() ==> names.drop_first()[j - 1] == #[trigger] names[j]);
    }
}

/// The first name, in natural order, satisfying the predicate: a left
/// fold that keeps the earliest of naturally-equal names.
pub open spec fn nat_first(names: Seq<Seq<char>>, pred: spec_fn(Seq<char>) -> bool) -> Option<
    Seq<char>,
>
    decreases names.len(),
{
    if names.len() == 0 {
        None
    } else {
        let prior = nat_first(names.drop_last(), pred);
        let lastn = names.last();
        if !pred(lastn) {
            prior
        } else {
            match prior {
                None => Some(lastn),
                Some(cur) => if nat_cmp(lastn, cur) < 0 {
                    Some(lastn)
                } else {
                    Some(cur)
                },
            }
        }
    }
}

/// The sibling `<prefix>_p0.<ext>` of a name whose stem is
/// `<prefix>_p<N>`, if the stem has a `_p` marker and the name an
/// extension.
pub open spec fn p0_sibling(name: Seq<char>) -> Option<Seq<char>> {
    match spec_ext(name) {
        Some(ext) => match last_p_marker(spec_stem(name)) {
            Some(d) => Some(spec_stem(name).take(d) + seq!['_', 'p', '0', '.'] + ext),
            None => None,
        },
        None => None,
    }
}

/// Index of the last `_p` in a stem, if any.
pub open spec fn last_p_marker(st: Seq<char>) -> Option<int>
    decreases st.len(),
{
    if st.len() < 2 {
        None
    } else if st[st.len() - 2] == '_' && st[st.len() - 1] == 'p' {
        Some(st.len() - 2)
    } else {
        last_p_marker(st.drop_last())
    }
}

/// The views of a list of names.
pub open spec fn name_views(files: Seq<String>) -> Seq<Seq<char>> {
    files.map_values(|s: String| s@)
}

/// The folder's cover, by the fixed priority, over the folder's file
/// names.
pub open spec fn cover_choice(names: Seq<Seq<char>>) -> Option<Seq<char>> {
    if first_match(names, |n: Seq<char>| is_cover_1001(n)) is Some {
        Some(names[first_match(names, |n: Seq<char>| is_cover_1001(n)).unwrap()])
    } else if nat_first(names, |n: Seq<char>| is_p0_image(n)) is Some {
        nat_first(names, |n: Seq<char>| is_p0_image(n))
    } else {
        match nat_first(names, |n: Seq<char>| spec_is_image_name(n)) {
            None => None,
            Some(m) => match p0_sibling(m) {
                Some(sib) => if names.contains(sib) {
                    Some(sib)
                } else {
                    Some(m)
                },
                None => Some(m),
            },
        }
    }
}

/// Law: the explicit-cover convention has top priority — whenever the
/// folder holds an image file with stem `1001`, in any listing order,
/// the chosen cover is such a file (the first one listed).
pub proof fn lemma_cover_prefers_explicit(names: Seq<Seq<char>>)
    requires
        exists|i: int| 0 <= i < names.len() && is_cover_1001(#[trigger] names[i]),
    ensures
        cover_choice(names) is Some,
        is_cover_1001(cover_choice(names).unwrap()),
        cover_choice(names) == Some(
            names[first_match(names, |n: Seq<char>| is_cover_1001(n)).unwrap()],
        ),
{
    lemma_first_match(names, |n: Seq<char>| is_cover_1001(n));
    if first_match(names, |n: Seq<char>| is_cover_1001(n)) is None {
        let i = choose|i: int| 0 <= i < names.len() && is_cover_1001(#[trigger] names[i]);
        assert(false);
    }
}

/// Exact equality of two character vectors.
fn chars_eq(a: &Vec<char>, b: &Vec<char>) -> (r: bool)
    ensures
        r == (a@ == b@),
{
    if a.len() != b.len() {
        proof {
            assert(a@ != b@);
        }
        return false;
    }
    let mut i: usize = 0;
    while i < a.len()
        invariant
            i <= a@.len(),
            a@.len() == b@.len(),
            forall|j: int| 0 <= j < i ==> a@[j] == b@[j],
        decreases a@.len() - i,
    {
        if a[i] != b[i] {
            proof {
                assert(a@ != b@);
            }
            return false;
        }
        i = i + 1;
    }
    proof {
        assert(a@ =~= b@);
    }
    true
}

/// The stem of the name, in characters.
fn stem_chars(chars: &Vec<char>) -> (r: Vec<char>)
    ensures
        r@ == spec_stem(chars@),
{
    match find_last_dot(chars) {
        Some(d) => if d > 0 {
            let r = subchars(chars, 0, d);
            proof {
                assert(chars@.subrange(0, d as int) =~= chars@.take(d as int));
            }
            r
        } else {
            let n = chars.len();
            let r = subchars(chars, 0, n);
            proof {
                assert(chars@.subrange(0, chars@.len() as int) =~= chars@);
            }
            r
        },
        None => {
            let n = chars.len();
            let r = subchars(chars, 0, n);
            proof {
                assert(chars@.subrange(0, chars@.len() as int) =~= chars@);
            }
            r
        },
    }
}

/// Does the name's stem end in `_p0`?
fn has_p0_stem_exec(chars: &Vec<char>) -> (r: bool)
    ensures
        r == has_p0_stem(chars@),
{
    let st = stem_chars(chars);
    let n = st.len();
    if n < 3 {
        proof {
            assert(!has_p0_stem(chars@));
        }
        return false;
    }
    let r = st[n - 3] == '_' && st[n - 2] == 'p' && st[n - 1] == '0';
    proof {
        let sv = spec_stem(chars@);
        assert(sv.skip(sv.len() - 3) =~= seq![sv[sv.len() - 3], sv[sv.len() - 2], sv[sv.len() - 1]]);
    }
    r
}

/// Index of the last `_p` in the stem, in characters.
fn last_p_marker_exec(st: &Vec<char>) -> (r: Option<usize>)
    ensures
        match r {
            Some(d) => last_p_marker(st@) == Some(d as int) && d + 2 <= st@.len(),
            None => last_p_marker(st@) is None,
        },
{
    let mut i: usize = st.len();
    proof {
        assert(st@.take(st@.len() as int) =~= st@);
    }
    while i >= 2
        invariant
            i <= st@.len(),
            last_p_marker(st@) == last_p_marker(st@.take(i as int)),
        decreases i,
    {
        proof {
            assert(st@.take(i as int).drop_last() =~= st@.take(i - 1));
            assert(st@.take(i as int)[i - 2] == st@[i - 2]);
            assert(st@.take(i as int)[i - 1] == st@[i - 1]);
        }
        if st[i - 2] == '_' && st[i - 1] == 'p' {
            return Some(i - 2);
        }
        i = i - 1;
    }
    None
}

/// Pick the cover image of a folder, given the names of its plain files.
/// Returns an index into `files`; `None` when the folder has no
/// recognized image.
#[verifier::loop_isolation(false)]
#[verifier::rlimit(50)]
pub fn find_cover_image(files: &Vec<String>) -> (r: Option<usize>)
    ensures
        match r {
            Some(i) => i < files@.len() && cover_choice(name_views(files@)) == Some(
                files@[i as int]@,
            ),
            None => cover_choice(name_views(files@)) is None,
        },
{
    let ghost views = name_views(files@);
    let n = files.len();

    // explicit cover: an image file with stem 1001
    let mut i: usize = 0;
    while i < n
        invariant
            i <= n,
            n == files@.len(),
            views == name_views(files@),
            views.len() == n,
            forall|j: int| 0 <= j < i ==> !is_cover_1001(#[trigger] views[j]),
        decreases n - i,
    {
        let chars = chars_of(files[i].as_str());
        let st = stem_chars(&chars);
        let lit = vec!['1', '0', '0', '1'];
        if crate::names::is_image_file(files[i].as_str()) && chars_eq(&st, &lit) {
            proof {
                assert(views[i as int] == files@[i as int]@);
                assert(is_cover_1001(views[i as int]));
                lemma_first_match(views, |nm: Seq<char>| is_cover_1001(nm));
            }
            return Some(i);
        }
        i = i + 1;
    }
    proof {
        lemma_first_match(views, |nm: Seq<char>| is_cover_1001(nm));
        assert(first_match(views, |nm: Seq<char>| is_cover_1001(nm)) is None);
    }

    // natural-order-first image, and natural-order-first `_p0` image
    let mut best_img: Option<usize> = None;
    let mut best_p0: Option<usize> = None;
    let mut i: usize = 0;
    proof {
        assert(views.take(0) =~= Seq::<Seq<char>>::empty());
    }
    while i < n
        invariant
            i <= n,
            n == files@.len(),
            views == name_views(files@),
            views.len() == n,
            match best_img {
                None => nat_first(views.take(i as int), |nm: Seq<char>| spec_is_image_name(nm))
                    is None,
                Some(b) => b < i && nat_first(
                    views.take(i as int),
                    |nm: Seq<char>| spec_is_image_name(nm),
                ) == Some(views[b as int]),
            },
            match best_p0 {
                None => nat_first(views.take(i as int), |nm: Seq<char>| is_p0_image(nm)) is None,
                Some(b) => b < i && nat_first(views.take(i as int), |nm: Seq<char>| is_p0_image(nm))
                    == Some(views[b as int]),
            },
        decreases n - i,
    {
        proof {
            assert(views.take(i + 1).drop_last() =~= views.take(i as int));
            assert(views.take(i + 1).last() == views[i as int]);
            assert(views[i as int] == files@[i as int]@);
        }
        let name = files[i].as_str();
        let chars = chars_of(name);
        if crate::names::is_image_file(name) {
            best_img = match best_img {
                None => Some(i),
                Some(b) => {
                    if nat_compare(name, files[b].as_str()) < 0 {
                        Some(i)
                    } else {
                        Some(b)
                    }
                },
            };
            if has_p0_stem_exec(&chars) {
                best_p0 = match best_p0 {
                    None => Some(i),
                    Some(b) => {
                        if nat_compare(name, files[b].as_str()) < 0 {
                            Some(i)
                        } else {
                            Some(b)
                        }
                    },
                };
            }
        }
        i = i + 1;
    }
    proof {
        assert(views.take(n as int) =~= views);
    }

    if let Some(p) = best_p0 {
        return Some(p);
    }
    let m = match best_img {
        None => {
            return None;
        },
        Some(m) => m,
    };

    // prefer the `_p0` sibling of the natural-order-first image
    let mchars = chars_of(files[m].as_str());
    let st = stem_chars(&mchars);
    let ext = name_ext(&mchars);
    if let Some(ext) = ext {
        if let Some(d) = last_p_marker_exec(&st) {
            let mut sib = subchars(&st, 0, d);
            sib.push('_');
            sib.push('p');
            sib.push('0');
            sib.push('.');
            let mut e: usize = 0;
            let ghost sib_prefix = sib@;
            while e < ext.len()
                invariant
                    e <= ext@.len(),
                    sib@ == sib_prefix + ext@.take(e as int),
                decreases ext@.len() - e,
            {
                sib.push(ext[e]);
                proof {
                    assert(sib_prefix + ext@.take(e + 1) =~= (sib_prefix + ext@.take(
                        e as int,
                    )).push(ext@[e as int]));
                }
                e = e + 1;
            }
            proof {
                assert(ext@.take(ext@.len() as int) =~= ext@);
                assert(st@.subrange(0, d as int) =~= spec_stem(views[m as int]).take(d as int));
                assert(sib@ =~= spec_stem(views[m as int]).take(d as int) + seq![
                    '_',
                    'p',
                    '0',
                    '.',
                ] + ext@);
                assert(p0_sibling(views[m as int]) == Some(sib@));
            }
            let mut j: usize = 0;
            while j < n
                invariant
                    j <= n,
                    n == files@.len(),
                    views == name_views(files@),
                    views.len() == n,
                    p0_sibling(views[m as int]) == Some(sib@),
                    forall|w: int| 0 <= w < j ==> #[trigger] views[w] != sib@,
                decreases n - j,
            {
                let jchars = chars_of(files[j].as_str());
                if chars_eq(&jchars, &sib) {
                    proof {
                        assert(views[j as int] == sib@);
                        assert(views.contains(sib@));
                    }
                    return Some(j);
                }
                proof {
                    assert(views[j as int] == files@[j as int]@);
                }
                j = j + 1;
            }
            proof {
                if views.contains(sib@) {
                    let w = choose|w: int| 0 <= w < views.len() && views[w] == sib@;
                    assert(false);
                }
            }
            return Some(m);
        }
    }
    Some(m)
}

} // verus!
