//! Natural-order comparison of strings: embedded runs of decimal digits are
//! compared by numeric value, so `"page2"` sorts before `"page10"`, and
//! whitespace only separates tokens. Scanned entries and comic pages are
//! presented in this order.
//!
//! `nat_cmp` is the full comparison algorithm as a specification; the
//! executable comparison is the `natord` crate, trusted to implement it.
//! The sort and the minimum search are verified against `nat_cmp`.

use vstd::prelude::*;

verus! {

/// A character with the Unicode `White_Space` property, as
/// `char::is_whitespace` reports it.
pub open spec fn nat_is_ws(c: char) -> bool {
    let u = c as u32;
    (0x09 <= u && u <= 0x0d) || u == 0x20 || u == 0x85 || u == 0xa0 || u == 0x1680 || (0x2000
        <= u && u <= 0x200a) || u == 0x2028 || u == 0x2029 || u == 0x202f || u == 0x205f || u
        == 0x3000
}

/// An ASCII decimal digit, the only characters `char::to_digit(10)` accepts.
pub open spec fn nat_is_digit(c: char) -> bool {
    0x30 <= c as u32 && c as u32 <= 0x39
}

/// The numeric value of an ASCII decimal digit.
pub open spec fn nat_digit_val(c: char) -> int {
    c as u32 - 0x30
}

/// Length of the run of decimal digits at the front of `s`.
pub open spec fn digit_run(s: Seq<char>) -> int
    decreases s.len(),
{
    if s.len() == 0 || !nat_is_digit(s[0]) {
        0
    } else {
        1 + digit_run(s.drop_first())
    }
}

pub proof fn lemma_digit_run_bounds(s: Seq<char>)
    ensures
        0 <= digit_run(s) <= s.len(),
        forall|i: int| 0 <= i < digit_run(s) ==> nat_is_digit(s[i]),
        digit_run(s) < s.len() ==> !nat_is_digit(s[digit_run(s)]),
    decreases s.len(),
{
    if s.len() != 0 && nat_is_digit(s[0]) {
        lemma_digit_run_bounds(s.drop_first());
        assert forall|i: int| 0 <= i < digit_run(s) implies nat_is_digit(s[i]) by {
            if i > 0 {
                assert(s[i] == s.drop_first()[i - 1]);
            }
        }
        if digit_run(s) < s.len() {
            assert(s[digit_run(s)] == s.drop_first()[digit_run(s) - 1]);
        }
    }
}

/// First-difference comparison of two digit runs: the first unequal pair of
/// digits decides; if one run is a proper prefix of the other, the shorter
/// run is smaller; equal runs compare equal.
pub open spec fn cmp_lex(a: Seq<char>, b: Seq<char>) -> int
    decreases a.len() + b.len(),
{
    if a.len() == 0 && b.len() == 0 {
        0
    } else if a.len() == 0 {
        -1
    } else if b.len() == 0 {
        1
    } else if (a[0] as u32) < (b[0] as u32) {
        -1
    } else if (a[0] as u32) > (b[0] as u32) {
        1
    } else {
        cmp_lex(a.drop_first(), b.drop_first())
    }
}

/// Natural-order comparison, the algorithm of `natord::compare`:
/// whitespace is skipped (it only ends a digit run); when both strings
/// continue with a digit, the two digit runs are compared — runs with a
/// leading zero digit-by-digit left-aligned, others by length first (a
/// longer run of digits with no leading zero is a larger number), then
/// digit-by-digit; everything else is compared by code point.
/// Returns -1, 0 or 1.
pub open spec fn nat_cmp(a: Seq<char>, b: Seq<char>) -> int
    decreases a.len() + b.len(),
    via nat_cmp_decreases
{
    if a.len() > 0 && nat_is_ws(a[0]) {
        nat_cmp(a.drop_first(), b)
    } else if b.len() > 0 && nat_is_ws(b[0]) {
        nat_cmp(a, b.drop_first())
    } else if a.len() == 0 && b.len() == 0 {
        0
    } else if a.len() == 0 {
        -1
    } else if b.len() == 0 {
        1
    } else if nat_is_digit(a[0]) && nat_is_digit(b[0]) {
        let la = digit_run(a);
        let lb = digit_run(b);
        if nat_digit_val(a[0]) == 0 || nat_digit_val(b[0]) == 0 {
            // left-aligned matching: `015` < `12`
            let c = cmp_lex(a.take(la), b.take(lb));
            if c != 0 {
                c
            } else {
                nat_cmp(a.skip(la), b.skip(lb))
            }
        } else {
            // right-aligned matching: `15` < `123`
            if la < lb {
                -1
            } else if la > lb {
                1
            } else {
                let c = cmp_lex(a.take(la), b.take(lb));
                if c != 0 {
                    c
                } else {
                    nat_cmp(a.skip(la), b.skip(lb))
                }
            }
        }
    } else {
        if (a[0] as u32) < (b[0] as u32) {
            -1
        } else if (a[0] as u32) > (b[0] as u32) {
            1
        } else {
            nat_cmp(a.drop_first(), b.drop_first())
        }
    }
}

#[via_fn]
proof fn nat_cmp_decreases(a: Seq<char>, b: Seq<char>) {
    lemma_digit_run_bounds(a);
    lemma_digit_run_bounds(b);
}

/// `a` sorts at or before `b` in natural order.
pub open spec fn nat_le(a: Seq<char>, b: Seq<char>) -> bool {
    nat_cmp(a, b) <= 0
}

proof fn lemma_cmp_lex_flip(a: Seq<char>, b: Seq<char>)
    ensures
        -1 <= cmp_lex(a, b) <= 1,
        cmp_lex(b, a) == -cmp_lex(a, b),
    decreases a.len() + b.len(),
{
    if a.len() > 0 && b.len() > 0 && a[0] as u32 == b[0] as u32 {
        lemma_cmp_lex_flip(a.drop_first(), b.drop_first());
    }
}

/// Exchanging the arguments of `nat_cmp` negates the result; in
/// particular the result is always -1, 0 or 1, and `nat_cmp(a, a) == 0`.
pub proof fn lemma_nat_cmp_flip(a: Seq<char>, b: Seq<char>)
    ensures
        -1 <= nat_cmp(a, b) <= 1,
        nat_cmp(b, a) == -nat_cmp(a, b),
    decreases a.len() + b.len(),
{
    lemma_digit_run_bounds(a);
    lemma_digit_run_bounds(b);
    if a.len() > 0 && nat_is_ws(a[0]) {
        lemma_nat_cmp_flip(a.drop_first(), b);
        if b.len() > 0 && nat_is_ws(b[0]) {
            lemma_nat_cmp_flip(a, b.drop_first());
            lemma_nat_cmp_flip(a.drop_first(), b.drop_first());
        }
    } else if b.len() > 0 && nat_is_ws(b[0]) {
        lemma_nat_cmp_flip(a, b.drop_first());
    } else if a.len() == 0 || b.len() == 0 {
    } else if nat_is_digit(a[0]) && nat_is_digit(b[0]) {
        let la = digit_run(a);
        let lb = digit_run(b);
        lemma_cmp_lex_flip(a.take(la), b.take(lb));
        lemma_nat_cmp_flip(a.skip(la), b.skip(lb));
    } else {
        if a[0] as u32 == b[0] as u32 {
            lemma_nat_cmp_flip(a.drop_first(), b.drop_first());
        }
    }
}

/// Natural order is total: of any two strings, one sorts at or before
/// the other.
pub proof fn lemma_nat_le_total(a: Seq<char>, b: Seq<char>)
    ensures
        nat_le(a, b) || nat_le(b, a),
{
    lemma_nat_cmp_flip(a, b);
}

proof fn lemma_char_u32_eq(a: char, b: char)
    requires
        a as u32 == b as u32,
    ensures
        a == b,
{
    vstd::utf8::char_u32_cast(a, a as u32);
    vstd::utf8::char_u32_cast(b, b as u32);
}

proof fn lemma_cmp_lex_zero(a: Seq<char>, b: Seq<char>)
    ensures
        cmp_lex(a, b) == 0 ==> a == b,
    decreases a.len() + b.len(),
{
    if a.len() > 0 && b.len() > 0 && !((a[0] as u32) < (b[0] as u32)) && !((a[0] as u32) > (
    b[0] as u32)) {
        lemma_cmp_lex_zero(a.drop_first(), b.drop_first());
        if cmp_lex(a, b) == 0 {
            lemma_char_u32_eq(a[0], b[0]);
            assert(a =~= seq![a[0]] + a.drop_first());
            assert(b =~= seq![b[0]] + b.drop_first());
        }
    }
}

proof fn lemma_cmp_lex_trans(a: Seq<char>, b: Seq<char>, c: Seq<char>)
    requires
        cmp_lex(a, b) <= 0,
        cmp_lex(b, c) <= 0,
    ensures
        cmp_lex(a, c) <= 0,
        (cmp_lex(a, b) < 0 || cmp_lex(b, c) < 0) ==> cmp_lex(a, c) < 0,
    decreases a.len() + b.len() + c.len(),
{
    if a.len() == 0 {
    } else if b.len() == 0 {
        assert(cmp_lex(a, b) == 1);
    } else if c.len() == 0 {
        assert(cmp_lex(b, c) == 1);
    } else {
        if !((a[0] as u32) < (b[0] as u32)) && !((a[0] as u32) > (b[0] as u32)) && !((
        b[0] as u32) < (c[0] as u32)) && !((b[0] as u32) > (c[0] as u32)) {
            lemma_cmp_lex_trans(a.drop_first(), b.drop_first(), c.drop_first());
        }
    }
}

/// The zero-leading class of a digit run: a run with a leading zero
/// compares digit-by-digit left-aligned; all others by length first.
spec fn run_is_zero(r: Seq<char>) -> bool {
    r.len() > 0 && nat_digit_val(r[0]) == 0
}

/// How two digit runs compare inside `nat_cmp`.
spec fn run_cmp(r1: Seq<char>, r2: Seq<char>) -> int {
    if run_is_zero(r1) || run_is_zero(r2) {
        cmp_lex(r1, r2)
    } else if r1.len() < r2.len() {
        -1
    } else if r1.len() > r2.len() {
        1
    } else {
        cmp_lex(r1, r2)
    }
}

proof fn lemma_run_cmp_zero(r1: Seq<char>, r2: Seq<char>)
    ensures
        run_cmp(r1, r2) == 0 ==> r1 == r2,
{
    lemma_cmp_lex_zero(r1, r2);
}

proof fn lemma_run_cmp_trans(r1: Seq<char>, r2: Seq<char>, r3: Seq<char>)
    requires
        r1.len() > 0 && nat_is_digit(r1[0]),
        r2.len() > 0 && nat_is_digit(r2[0]),
        r3.len() > 0 && nat_is_digit(r3[0]),
        run_cmp(r1, r2) <= 0,
        run_cmp(r2, r3) <= 0,
    ensures
        run_cmp(r1, r3) <= 0,
        (run_cmp(r1, r2) < 0 || run_cmp(r2, r3) < 0) ==> run_cmp(r1, r3) < 0,
{
    lemma_cmp_lex_zero(r1, r2);
    lemma_cmp_lex_zero(r2, r3);
    let z1 = run_is_zero(r1);
    let z2 = run_is_zero(r2);
    let z3 = run_is_zero(r3);
    if z1 && !z3 {
        // a leading zero sorts below any run without one
        assert((r1[0] as u32) < (r3[0] as u32));
        assert(cmp_lex(r1, r3) == -1);
    } else if !z1 && z3 {
        // impossible under the hypotheses
        if z2 {
            assert((r1[0] as u32) > (r2[0] as u32));
            assert(cmp_lex(r1, r2) == 1);
            assert(false);
        } else {
            assert((r2[0] as u32) > (r3[0] as u32));
            assert(cmp_lex(r2, r3) == 1);
            assert(false);
        }
    } else if z1 && z3 {
        if z2 {
            lemma_cmp_lex_trans(r1, r2, r3);
        } else {
            assert((r2[0] as u32) > (r3[0] as u32));
            assert(cmp_lex(r2, r3) == 1);
            assert(false);
        }
    } else {
        // none may have a leading zero: a zero-leading middle run would
        // contradict the first hypothesis
        if z2 {
            assert((r1[0] as u32) > (r2[0] as u32));
            assert(cmp_lex(r1, r2) == 1);
            assert(false);
        }
        if r1.len() == r3.len() && r1.len() == r2.len() {
            lemma_cmp_lex_trans(r1, r2, r3);
        }
    }
}

/// Natural order is transitive.
pub proof fn lemma_nat_cmp_trans(a: Seq<char>, b: Seq<char>, c: Seq<char>)
    requires
        nat_cmp(a, b) <= 0,
        nat_cmp(b, c) <= 0,
    ensures
        nat_cmp(a, c) <= 0,
    decreases a.len() + b.len() + c.len(),
{
    lemma_digit_run_bounds(a);
    lemma_digit_run_bounds(b);
    lemma_digit_run_bounds(c);
    if a.len() > 0 && nat_is_ws(a[0]) {
        lemma_nat_cmp_trans(a.drop_first(), b, c);
    } else if b.len() > 0 && nat_is_ws(b[0]) {
        lemma_nat_cmp_trans(a, b.drop_first(), c);
    } else if c.len() > 0 && nat_is_ws(c[0]) {
        lemma_nat_cmp_trans(a, b, c.drop_first());
    } else if a.len() == 0 {
        if c.len() > 0 && b.len() == 0 {
        }
    } else if b.len() == 0 {
        assert(nat_cmp(a, b) == 1);
    } else if c.len() == 0 {
        assert(nat_cmp(b, c) == 1);
    } else {
        let da = nat_is_digit(a[0]);
        let db = nat_is_digit(b[0]);
        let dc = nat_is_digit(c[0]);
        if da && db && dc {
            let la = digit_run(a);
            let lb = digit_run(b);
            let lc = digit_run(c);
            let ra = a.take(la);
            let rb = b.take(lb);
            let rc = c.take(lc);
            assert(ra[0] == a[0] && rb[0] == b[0] && rc[0] == c[0]);
            lemma_run_cmp_zero(ra, rb);
            lemma_run_cmp_zero(rb, rc);
            lemma_run_cmp_zero(ra, rc);
            assert(nat_cmp(a, b) == (if run_cmp(ra, rb) != 0 {
                run_cmp(ra, rb)
            } else {
                nat_cmp(a.skip(la), b.skip(lb))
            }));
            assert(nat_cmp(b, c) == (if run_cmp(rb, rc) != 0 {
                run_cmp(rb, rc)
            } else {
                nat_cmp(b.skip(lb), c.skip(lc))
            }));
            assert(nat_cmp(a, c) == (if run_cmp(ra, rc) != 0 {
                run_cmp(ra, rc)
            } else {
                nat_cmp(a.skip(la), c.skip(lc))
            }));
            if run_cmp(ra, rb) == 0 {
                assert(ra == rb);
                assert(la == lb);
                if run_cmp(rb, rc) == 0 {
                    assert(rb == rc && lb == lc);
                    lemma_nat_cmp_trans(a.skip(la), b.skip(lb), c.skip(lc));
                } else {
                    assert(run_cmp(ra, rc) == run_cmp(rb, rc));
                }
            } else if run_cmp(rb, rc) == 0 {
                assert(rb == rc);
                assert(run_cmp(ra, rc) == run_cmp(ra, rb));
            } else {
                lemma_run_cmp_trans(ra, rb, rc);
            }
        } else if da && db && !dc {
            assert((b[0] as u32) < (c[0] as u32));
            assert((c[0] as u32) > 0x39);
            assert(nat_cmp(a, c) == -1);
        } else if !da && db {
            // a's head sits below the digit range
            assert((a[0] as u32) < (b[0] as u32));
            assert((a[0] as u32) < 0x30);
            if dc {
                assert(nat_cmp(a, c) == -1);
            } else {
                // b < c by head or equal heads; either way c's head is
                // above a's
                if (b[0] as u32) < (c[0] as u32) || (b[0] as u32) == (c[0] as u32) {
                    assert((a[0] as u32) < (c[0] as u32));
                    assert(nat_cmp(a, c) == -1);
                } else {
                    assert(nat_cmp(b, c) == 1);
                }
            }
        } else if da && !db {
            // b's head is above the digit range
            assert((a[0] as u32) < (b[0] as u32) || (a[0] as u32) == (b[0] as u32));
            assert((b[0] as u32) > 0x39);
            if dc {
                assert(nat_cmp(b, c) == 1);
            } else {
                if (b[0] as u32) < (c[0] as u32) || (b[0] as u32) == (c[0] as u32) {
                    assert((c[0] as u32) > 0x39);
                    assert(nat_cmp(a, c) == -1);
                } else {
                    assert(nat_cmp(b, c) == 1);
                }
            }
        } else {
            // no digit heads anywhere that matter: plain code points
            if (a[0] as u32) < (b[0] as u32) {
                if (b[0] as u32) <= (c[0] as u32) {
                    assert(nat_cmp(a, c) == -1);
                } else {
                    assert(nat_cmp(b, c) == 1);
                }
            } else if (a[0] as u32) == (b[0] as u32) {
                if (b[0] as u32) < (c[0] as u32) {
                    assert(nat_cmp(a, c) == -1);
                } else if (b[0] as u32) == (c[0] as u32) {
                    lemma_nat_cmp_trans(a.drop_first(), b.drop_first(), c.drop_first());
                } else {
                    assert(nat_cmp(b, c) == 1);
                }
            } else {
                assert(nat_cmp(a, b) == 1);
            }
        }
    }
}

/// In a naturally sorted sequence every element sorts at or before every
/// later one, not only its neighbour.
pub proof fn lemma_sorted_natural_pairwise(keys: Seq<Seq<char>>, i: int, j: int)
    requires
        sorted_natural(keys),
        0 <= i <= j < keys.len(),
    ensures
        nat_le(keys[i], keys[j]),
    decreases j - i,
{
    if i < j {
        lemma_sorted_natural_pairwise(keys, i, j - 1);
        lemma_nat_cmp_trans(keys[i], keys[j - 1], keys[j]);
    } else {
        lemma_nat_cmp_flip(keys[i], keys[j]);
    }
}

/// Relies on `natord::compare`: skips Unicode whitespace, compares runs of
/// decimal digits numerically (left-aligned when a run has a leading zero)
/// and all other characters by code point — the algorithm `nat_cmp` states.
#[verifier::external_body]
pub fn nat_compare(a: &str, b: &str) -> (r: i8)
    ensures
        r as int == nat_cmp(a@, b@),
{
    match natord::compare(a, b) {
        core::cmp::Ordering::Less => -1,
        core::cmp::Ordering::Equal => 0,
        core::cmp::Ordering::Greater => 1,
    }
}

/// A value ordered by the natural order of a string key.
pub trait NaturalKeyed: Sized {
    /// The key the value sorts by.
    spec fn nat_key(&self) -> Seq<char>;

    /// Compare two values by the natural order of their keys.
    fn key_compare(&self, other: &Self) -> (r: i8)
        ensures
            r as int == nat_cmp(self.nat_key(), other.nat_key()),
    ;
}

impl NaturalKeyed for String {
    open spec fn nat_key(&self) -> Seq<char> {
        self@
    }

    fn key_compare(&self, other: &Self) -> (r: i8) {
        nat_compare(self.as_str(), other.as_str())
    }
}

/// Every element sorts at or before its successor in natural order.
pub open spec fn sorted_natural(keys: Seq<Seq<char>>) -> bool {
    forall|i: int| 0 <= i < keys.len() - 1 ==> nat_le(#[trigger] keys[i], keys[i + 1])
}

/// The keys of a sequence of values.
pub open spec fn keys_of<T: NaturalKeyed>(s: Seq<T>) -> Seq<Seq<char>> {
    s.map_values(|t: T| t.nat_key())
}

/// Two sequences holding the same values hold the same mapped values.
pub proof fn lemma_map_values_multiset<A, B>(s1: Seq<A>, s2: Seq<A>, f: spec_fn(A) -> B)
    requires
        s1.to_multiset() == s2.to_multiset(),
    ensures
        s1.map_values(f).to_multiset() == s2.map_values(f).to_multiset(),
    decreases s1.len(),
{
    broadcast use vstd::seq_lib::group_to_multiset_ensures;
    broadcast use vstd::multiset::group_multiset_axioms;

    if s1.len() == 0 {
        assert(s2.to_multiset().len() == 0);
        assert(s2.len() == 0);
        assert(s1.map_values(f) =~= s2.map_values(f));
    } else {
        let x = s1[0];
        assert(s1.contains(x));
        assert(s1.to_multiset().count(x) > 0);
        assert(s2.to_multiset().count(x) > 0);
        assert(s2.contains(x));
        let j = choose|j: int| 0 <= j < s2.len() && s2[j] == x;
        assert(s1.remove(0).to_multiset() == s1.to_multiset().remove(x));
        assert(s2.remove(j).to_multiset() == s2.to_multiset().remove(x));
        assert(s1.remove(0) =~= s1.drop_first());
        lemma_map_values_multiset(s1.drop_first(), s2.remove(j), f);
        let m1 = s1.map_values(f);
        let m2 = s2.map_values(f);
        assert(m1.remove(0) =~= s1.drop_first().map_values(f));
        assert(m2.remove(j) =~= s2.remove(j).map_values(f));
        assert(m1.remove(0).to_multiset() == m1.to_multiset().remove(m1[0]));
        assert(m2.remove(j).to_multiset() == m2.to_multiset().remove(m2[j]));
        assert(m1[0] == f(x) && m2[j] == f(x));
        assert(m1.contains(m1[0]));
        assert(m1.to_multiset().count(f(x)) > 0);
        assert(m2.contains(m2[j]));
        assert(m2.to_multiset().count(f(x)) > 0);
        assert forall|y: B| true implies m1.to_multiset().count(y) == m2.to_multiset().count(
            y,
        ) by {
            assert(m1.to_multiset().remove(f(x)).count(y) == m2.to_multiset().remove(f(x)).count(
                y,
            ));
        }
        assert(m1.to_multiset() =~= m2.to_multiset());
    }
}

/// Sort values by the natural order of their keys (insertion sort).
/// The result holds exactly the input values, in natural order.
#[verifier::rlimit(100)]
#[verifier::spinoff_prover]
pub fn sort_natural<T: NaturalKeyed>(v: Vec<T>) -> (r: Vec<T>)
    ensures
        sorted_natural(keys_of(r@)),
        r@.to_multiset() == v@.to_multiset(),
        r@.len() == v@.len(),
{
    broadcast use vstd::seq_lib::group_to_multiset_ensures;
    broadcast use vstd::seq_lib::to_multiset_insert;
    broadcast use vstd::multiset::group_multiset_axioms;
    broadcast use vstd::multiset::group_multiset_properties;

    let ghost orig = v@;
    let mut v = v;
    let mut i: usize = 1;
    while i < v.len()
        invariant
            i >= 1,
            v@.to_multiset() == orig.to_multiset(),
            v@.len() == orig.len(),
            forall|k: int| 0 <= k < i - 1 && k < v@.len() - 1 ==> nat_cmp(
                (#[trigger] v@[k]).nat_key(),
                v@[k + 1].nat_key(),
            ) <= 0,
        decreases v.len() - i,
    {
        let ghost before = v@;
        let x = v.remove(i);
        let mut pos: usize = i;
        while pos > 0 && v[pos - 1].key_compare(&x) > 0
            invariant
                pos <= i,
                i < before.len(),
                v@ == before.remove(i as int),
                forall|k: int| pos <= k < i ==> nat_cmp(
                    #[trigger] v@[k].nat_key(),
                    x.nat_key(),
                ) > 0,
            decreases pos,
        {
            pos = pos - 1;
        }
        proof {
            if pos < i {
                lemma_nat_cmp_flip(v@[pos as int].nat_key(), x.nat_key());
            }
        }
        v.insert(pos, x);
        proof {
            broadcast use vstd::seq_lib::group_to_multiset_ensures;
            broadcast use vstd::multiset::group_multiset_axioms;
            broadcast use vstd::multiset::group_multiset_properties;

            let bx = before[i as int];
            assert(before.contains(bx));
            assert(before.to_multiset().count(bx) > 0);
            assert(before.remove(i as int).to_multiset() =~= before.to_multiset().remove(bx));
            assert(v@ == before.remove(i as int).insert(pos as int, bx));
            assert(v@.to_multiset() == before.remove(i as int).to_multiset().insert(bx));
            assert(v@.to_multiset() =~= before.to_multiset());
            let r = before.remove(i as int);
            assert(forall|j: int| 0 <= j < i ==> r[j] == before[j]);
            assert forall|k: int| 0 <= k < i && k < v@.len() - 1 implies nat_cmp(
                (#[trigger] v@[k]).nat_key(),
                v@[k + 1].nat_key(),
            ) <= 0 by {
                if k + 1 < pos {
                    assert(v@[k] == r[k] && v@[k + 1] == r[k + 1]);
                } else if k + 1 == pos {
                    assert(v@[k] == r[k] && v@[k + 1] == x);
                } else if k == pos {
                    assert(v@[k] == x && v@[k + 1] == r[k]);
                } else {
                    assert(v@[k] == r[k - 1] && v@[k + 1] == r[k]);
                }
            }
        }
        i = i + 1;
    }
    proof {
        assert forall|k: int| 0 <= k < keys_of(v@).len() - 1 implies nat_le(
            #[trigger] keys_of(v@)[k],
            keys_of(v@)[k + 1],
        ) by {
            assert(keys_of(v@)[k] == v@[k].nat_key());
            assert(keys_of(v@)[k + 1] == v@[k + 1].nat_key());
        }
    }
    v
}

} // verus!
