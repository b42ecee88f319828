use vstd::prelude::*;

use crate::peering::{as_set_contains, in_as_set};
use crate::query::QueryIr;

verus! {

/// One position of an AS-path regular expression.
#[derive(Debug)]
pub enum AsAtom {
    /// The AS of this number.
    Exact(u64),
    /// Any AS of the AS set of this index.
    SetMember(usize),
    /// Any AS.
    Any,
    /// Any AS that is neither one of these numbers nor in one of these AS sets.
    NotIn(Vec<u64>, Vec<usize>),
}

/// An AS-path regular expression over ASes.
#[derive(Debug)]
pub enum AsRegex {
    Atom(AsAtom),
    Concat(Box<AsRegex>, Box<AsRegex>),
    Alt(Box<AsRegex>, Box<AsRegex>),
    Star(Box<AsRegex>),
    Plus(Box<AsRegex>),
    Optional(Box<AsRegex>),
}

/// An AS-path regular expression with its anchors: `^` ties it to the start
/// of the path, `$` to its end.
#[derive(Debug)]
pub struct AsPathRegex {
    pub re: AsRegex,
    pub from_start: bool,
    pub to_end: bool,
}

/// AS `n` is one of the ASes that atom `a` stands for.
pub open spec fn atom_matches(q: QueryIr, a: AsAtom, n: u64) -> bool {
    match a {
        AsAtom::Exact(m) => m == n,
        AsAtom::SetMember(i) => in_as_set(q, i, n),
        AsAtom::Any => true,
        AsAtom::NotIn(nums, sets) => outside(q, nums@, sets@, n),
    }
}

/// AS `n` is none of `nums` and in none of the AS sets `sets`.
pub open spec fn outside(q: QueryIr, nums: Seq<u64>, sets: Seq<usize>, n: u64) -> bool {
    !nums.contains(n) && forall|k: int| 0 <= k < sets.len() ==> !in_as_set(q, #[trigger] sets[k], n)
}

/// The number of nodes of `re`.
pub open spec fn re_size(re: AsRegex) -> nat
    decreases re,
{
    match re {
        AsRegex::Atom(_) => 1,
        AsRegex::Concat(x, y) => re_size(*x) + re_size(*y) + 1,
        AsRegex::Alt(x, y) => re_size(*x) + re_size(*y) + 1,
        AsRegex::Star(x) => re_size(*x) + 1,
        AsRegex::Plus(x) => re_size(*x) + 1,
        AsRegex::Optional(x) => re_size(*x) + 1,
    }
}

/// The nesting depth of `re`: the levels of recursion that matching it descends.
pub open spec fn re_depth(re: AsRegex) -> nat
    decreases re,
{
    match re {
        AsRegex::Atom(_) => 1,
        AsRegex::Concat(x, y) | AsRegex::Alt(x, y) => 1 + if re_depth(*x) >= re_depth(*y) {
            re_depth(*x)
        } else {
            re_depth(*y)
        },
        AsRegex::Star(x) | AsRegex::Plus(x) | AsRegex::Optional(x) => 1 + re_depth(*x),
    }
}

/// Whether matching `re` descends at most `budget` levels of recursion.
pub fn depth_within(re: &AsRegex, budget: u32) -> (r: bool)
    ensures
        r == (re_depth(*re) <= budget),
    decreases re,
{
    if budget == 0 {
        return false;
    }
    match re {
        AsRegex::Atom(_) => true,
        AsRegex::Concat(x, y) | AsRegex::Alt(x, y) => depth_within(x, budget - 1) && depth_within(y, budget - 1),
        AsRegex::Star(x) | AsRegex::Plus(x) | AsRegex::Optional(x) => depth_within(x, budget - 1),
    }
}

/// `re` matches the ASes of `s` from position `i` to position `j`, `j` excluded.
pub open spec fn re_match(q: QueryIr, re: AsRegex, s: Seq<u64>, i: int, j: int) -> bool
    decreases re_size(re), j - i, 2nat, 0int,
{
    if !(0 <= i <= j <= s.len()) {
        false
    } else {
        match re {
            AsRegex::Atom(a) => j == i + 1 && atom_matches(q, a, s[i]),
            AsRegex::Concat(x, y) => concat_from(q, *x, *y, s, i, j, i),
            AsRegex::Alt(x, y) => re_match(q, *x, s, i, j) || re_match(q, *y, s, i, j),
            AsRegex::Star(x) => star_match(q, *x, s, i, j),
            AsRegex::Plus(x) => plus_from(q, *x, s, i, j, i),
            AsRegex::Optional(x) => i == j || re_match(q, *x, s, i, j),
        }
    }
}

/// `x` then `y` match `s` from `i` to `j`, splitting at some position from `k` on.
pub open spec fn concat_from(q: QueryIr, x: AsRegex, y: AsRegex, s: Seq<u64>, i: int, j: int, k: int) -> bool
    decreases re_size(x) + re_size(y) + 1, j - i, 1nat, j + 1 - k,
{
    if !(0 <= i <= k <= j <= s.len()) {
        false
    } else {
        (re_match(q, x, s, i, k) && re_match(q, y, s, k, j)) || (k < j && concat_from(q, x, y, s, i, j, k + 1))
    }
}

/// `x` once, then any number of times, matches `s` from `i` to `j`, the first
/// match ending at some position from `k` on.
pub open spec fn plus_from(q: QueryIr, x: AsRegex, s: Seq<u64>, i: int, j: int, k: int) -> bool
    decreases re_size(x) + 1, j - i, 1nat, j + 1 - k,
{
    if !(0 <= i <= k <= j <= s.len()) {
        false
    } else {
        (re_match(q, x, s, i, k) && star_match(q, x, s, k, j)) || (k < j && plus_from(q, x, s, i, j, k + 1))
    }
}

/// `x` repeated any number of times matches `s` from `i` to `j`.
pub open spec fn star_match(q: QueryIr, x: AsRegex, s: Seq<u64>, i: int, j: int) -> bool
    decreases re_size(x) + 1, j - i, 1nat, 0int,
{
    if !(0 <= i <= j <= s.len()) {
        false
    } else {
        i == j || star_from(q, x, s, i, j, i + 1)
    }
}

/// `x` repeated at least once matches `s` from `i` to `j`, the first
/// repetition ending at some position from `k` on, after `i`.
pub open spec fn star_from(q: QueryIr, x: AsRegex, s: Seq<u64>, i: int, j: int, k: int) -> bool
    decreases re_size(x) + 1, j - i, 0nat, j + 1 - k,
{
    if !(0 <= i < k <= j <= s.len()) {
        false
    } else {
        (re_match(q, x, s, i, k) && star_match(q, x, s, k, j)) || (k < j && star_from(q, x, s, i, j, k + 1))
    }
}

/// The anchored expression `r` matches `s` from `i` to some position from `j` on.
pub open spec fn match_ending_from(q: QueryIr, r: AsPathRegex, s: Seq<u64>, i: int, j: int) -> bool
    decreases s.len() + 1 - j,
{
    if !(0 <= i <= j <= s.len()) {
        false
    } else {
        ((!r.to_end || j == s.len()) && re_match(q, r.re, s, i, j)) || (j < s.len()
            && match_ending_from(q, r, s, i, j + 1))
    }
}

/// The anchored expression `r` matches a stretch of `s` that starts at some position from `i` on.
pub open spec fn match_starting_from(q: QueryIr, r: AsPathRegex, s: Seq<u64>, i: int) -> bool
    decreases s.len() + 1 - i,
{
    if !(0 <= i <= s.len()) {
        false
    } else {
        ((!r.from_start || i == 0) && match_ending_from(q, r, s, i, i)) || (i < s.len()
            && match_starting_from(q, r, s, i + 1))
    }
}

/// The anchored expression matches some stretch of `s`.
pub open spec fn path_regex_match(q: QueryIr, r: AsPathRegex, s: Seq<u64>) -> bool {
    match_starting_from(q, r, s, 0)
}

/// `re` matches `s` from `i` to `j`, stated by the form of `re`: a
/// concatenation splits at some position, a repetition is empty or one match
/// followed by the rest of the repetition.
pub open spec fn direct_match(q: QueryIr, re: AsRegex, s: Seq<u64>, i: int, j: int) -> bool {
    &&& 0 <= i <= j <= s.len()
    &&& match re {
        AsRegex::Atom(a) => j == i + 1 && atom_matches(q, a, s[i]),
        AsRegex::Concat(x, y) => exists|k: int|
            i <= k <= j && #[trigger] re_match(q, *x, s, i, k) && re_match(q, *y, s, k, j),
        AsRegex::Alt(x, y) => re_match(q, *x, s, i, j) || re_match(q, *y, s, i, j),
        AsRegex::Star(x) => i == j || exists|k: int|
            i < k <= j && #[trigger] re_match(q, *x, s, i, k) && re_match(q, re, s, k, j),
        AsRegex::Plus(x) => exists|k: int|
            i <= k <= j && #[trigger] re_match(q, *x, s, i, k) && re_match(q, AsRegex::Star(x), s, k, j),
        AsRegex::Optional(x) => i == j || re_match(q, *x, s, i, j),
    }
}

proof fn lemma_concat_from(q: QueryIr, x: AsRegex, y: AsRegex, s: Seq<u64>, i: int, j: int, k: int)
    requires
        0 <= i <= k <= j <= s.len(),
    ensures
        concat_from(q, x, y, s, i, j, k) == exists|t: int|
            k <= t <= j && #[trigger] re_match(q, x, s, i, t) && re_match(q, y, s, t, j),
    decreases j - k,
{
    if k < j {
        lemma_concat_from(q, x, y, s, i, j, k + 1);
    }
    if exists|t: int| k <= t <= j && #[trigger] re_match(q, x, s, i, t) && re_match(q, y, s, t, j) {
        let t = choose|t: int| k <= t <= j && #[trigger] re_match(q, x, s, i, t) && re_match(q, y, s, t, j);
        if t > k {
            assert(k + 1 <= t <= j && re_match(q, x, s, i, t) && re_match(q, y, s, t, j));
        }
    }
    if re_match(q, x, s, i, k) && re_match(q, y, s, k, j) {
        assert(k <= k <= j && re_match(q, x, s, i, k) && re_match(q, y, s, k, j));
    }
}

proof fn lemma_plus_from(q: QueryIr, x: AsRegex, s: Seq<u64>, i: int, j: int, k: int)
    requires
        0 <= i <= k <= j <= s.len(),
    ensures
        plus_from(q, x, s, i, j, k) == exists|t: int|
            k <= t <= j && #[trigger] re_match(q, x, s, i, t) && star_match(q, x, s, t, j),
    decreases j - k,
{
    if k < j {
        lemma_plus_from(q, x, s, i, j, k + 1);
    }
    if exists|t: int| k <= t <= j && #[trigger] re_match(q, x, s, i, t) && star_match(q, x, s, t, j) {
        let t = choose|t: int| k <= t <= j && #[trigger] re_match(q, x, s, i, t) && star_match(q, x, s, t, j);
        if t > k {
            assert(k + 1 <= t <= j && re_match(q, x, s, i, t) && star_match(q, x, s, t, j));
        }
    }
    if re_match(q, x, s, i, k) && star_match(q, x, s, k, j) {
        assert(k <= k <= j && re_match(q, x, s, i, k) && star_match(q, x, s, k, j));
    }
}

proof fn lemma_star_from(q: QueryIr, x: AsRegex, s: Seq<u64>, i: int, j: int, k: int)
    requires
        0 <= i < k <= j <= s.len(),
    ensures
        star_from(q, x, s, i, j, k) == exists|t: int|
            k <= t <= j && #[trigger] re_match(q, x, s, i, t) && star_match(q, x, s, t, j),
    decreases j - k,
{
    if k < j {
        lemma_star_from(q, x, s, i, j, k + 1);
    }
    if exists|t: int| k <= t <= j && #[trigger] re_match(q, x, s, i, t) && star_match(q, x, s, t, j) {
        let t = choose|t: int| k <= t <= j && #[trigger] re_match(q, x, s, i, t) && star_match(q, x, s, t, j);
        if t > k {
            assert(k + 1 <= t <= j && re_match(q, x, s, i, t) && star_match(q, x, s, t, j));
        }
    }
    if re_match(q, x, s, i, k) && star_match(q, x, s, k, j) {
        assert(k <= k <= j && re_match(q, x, s, i, k) && star_match(q, x, s, k, j));
    }
}

/// Matching follows the form of the expression: `re_match` agrees with
/// `direct_match` everywhere.
pub proof fn lemma_match_by_form(q: QueryIr, re: AsRegex, s: Seq<u64>, i: int, j: int)
    ensures
        re_match(q, re, s, i, j) == direct_match(q, re, s, i, j),
{
    if 0 <= i <= j <= s.len() {
        match re {
            AsRegex::Concat(x, y) => {
                lemma_concat_from(q, *x, *y, s, i, j, i);
            },
            AsRegex::Star(x) => {
                if i < j {
                    lemma_star_from(q, *x, s, i, j, i + 1);
                    if star_match(q, *x, s, i, j) {
                        let t = choose|t: int| i + 1 <= t <= j && #[trigger] re_match(q, *x, s, i, t) && star_match(q, *x, s, t, j);
                        assert(re_match(q, re, s, t, j) == star_match(q, *x, s, t, j));
                        assert(i < t <= j && re_match(q, *x, s, i, t) && re_match(q, re, s, t, j));
                    }
                    if exists|k: int| i < k <= j && #[trigger] re_match(q, *x, s, i, k) && re_match(q, re, s, k, j) {
                        let t = choose|k: int| i < k <= j && #[trigger] re_match(q, *x, s, i, k) && re_match(q, re, s, k, j);
                        assert(re_match(q, re, s, t, j) == star_match(q, *x, s, t, j));
                        assert(i + 1 <= t <= j && re_match(q, *x, s, i, t) && star_match(q, *x, s, t, j));
                    }
                }
            },
            AsRegex::Plus(x) => {
                lemma_plus_from(q, *x, s, i, j, i);
                let st = AsRegex::Star(x);
                if plus_from(q, *x, s, i, j, i) {
                    let t = choose|t: int| i <= t <= j && #[trigger] re_match(q, *x, s, i, t) && star_match(q, *x, s, t, j);
                    assert(re_match(q, st, s, t, j) == star_match(q, *x, s, t, j));
                    assert(i <= t <= j && re_match(q, *x, s, i, t) && re_match(q, st, s, t, j));
                }
                if exists|k: int| i <= k <= j && #[trigger] re_match(q, *x, s, i, k) && re_match(q, st, s, k, j) {
                    let t = choose|k: int| i <= k <= j && #[trigger] re_match(q, *x, s, i, k) && re_match(q, st, s, k, j);
                    assert(re_match(q, st, s, t, j) == star_match(q, *x, s, t, j));
                    assert(i <= t <= j && re_match(q, *x, s, i, t) && star_match(q, *x, s, t, j));
                }
            },
            _ => {},
        }
    }
}

proof fn lemma_ending_from(q: QueryIr, r: AsPathRegex, s: Seq<u64>, i: int, j: int)
    requires
        0 <= i <= j <= s.len(),
    ensures
        match_ending_from(q, r, s, i, j) == exists|b: int|
            j <= b <= s.len() && (r.to_end ==> b == s.len()) && #[trigger] re_match(q, r.re, s, i, b),
    decreases s.len() - j,
{
    if j < s.len() {
        lemma_ending_from(q, r, s, i, j + 1);
    }
}

proof fn lemma_starting_from(q: QueryIr, r: AsPathRegex, s: Seq<u64>, i: int)
    requires
        0 <= i <= s.len(),
    ensures
        match_starting_from(q, r, s, i) == exists|a: int, b: int|
            i <= a <= b <= s.len() && (r.from_start ==> a == 0) && (r.to_end ==> b == s.len())
                && #[trigger] re_match(q, r.re, s, a, b),
    decreases s.len() - i,
{
    lemma_ending_from(q, r, s, i, i);
    if i < s.len() {
        lemma_starting_from(q, r, s, i + 1);
    }
}

/// The anchored expression matches `s` exactly when it matches some stretch
/// `i..j` of it, with `i` at the start where `^` anchors it and `j` at the end
/// where `$` does.
pub proof fn lemma_path_match_by_stretch(q: QueryIr, r: AsPathRegex, s: Seq<u64>)
    ensures
        path_regex_match(q, r, s) == exists|a: int, b: int|
            0 <= a <= b <= s.len() && (r.from_start ==> a == 0) && (r.to_end ==> b == s.len())
                && #[trigger] re_match(q, r.re, s, a, b),
{
    lemma_starting_from(q, r, s, 0);
}

/// Whether AS `n` is one of the ASes that atom `a` stands for.
pub fn check_atom(q: &QueryIr, a: &AsAtom, n: u64) -> (r: bool)
    ensures
        r == atom_matches(*q, *a, n),
{
    match a {
        AsAtom::Exact(m) => *m == n,
        AsAtom::SetMember(i) => as_set_contains(q, *i, n),
        AsAtom::Any => true,
        AsAtom::NotIn(nums, sets) => {
            let mut k: usize = 0;
            while k < nums.len()
                invariant
                    k <= nums@.len(),
                    *a == AsAtom::NotIn(*nums, *sets),
                    forall|t: int| 0 <= t < k ==> nums@[t] != n,
                decreases nums@.len() - k,
            {
                if nums[k] == n {
                    assert(nums@.contains(n));
                    return false;
                }
                k = k + 1;
            }
            assert(!nums@.contains(n));
            let mut k: usize = 0;
            while k < sets.len()
                invariant
                    k <= sets@.len(),
                    *a == AsAtom::NotIn(*nums, *sets),
                    !nums@.contains(n),
                    forall|t: int| 0 <= t < k ==> !in_as_set(*q, #[trigger] sets@[t], n),
                decreases sets@.len() - k,
            {
                if as_set_contains(q, sets[k], n) {
                    assert(in_as_set(*q, sets@[k as int], n));
                    assert(!outside(*q, nums@, sets@, n));
                    return false;
                }
                k = k + 1;
            }
            true
        },
    }
}

/// Whether `re` matches the ASes of `s` from position `i` to position `j`.
pub fn check_re(q: &QueryIr, re: &AsRegex, s: &Vec<u64>, i: usize, j: usize) -> (r: bool)
    requires
        i <= j <= s@.len(),
    ensures
        r == re_match(*q, *re, s@, i as int, j as int),
        r == direct_match(*q, *re, s@, i as int, j as int),
    decreases re_size(*re), j - i, 2nat, 0int,
{
    proof {
        lemma_match_by_form(*q, *re, s@, i as int, j as int);
    }
    match re {
        AsRegex::Atom(a) => {
            if i < j && j - i == 1 {
                check_atom(q, a, s[i])
            } else {
                false
            }
        },
        AsRegex::Concat(x, y) => check_concat(q, x, y, s, i, j, i),
        AsRegex::Alt(x, y) => check_re(q, x, s, i, j) || check_re(q, y, s, i, j),
        AsRegex::Star(x) => check_star(q, x, s, i, j),
        AsRegex::Plus(x) => check_plus(q, x, s, i, j, i),
        AsRegex::Optional(x) => i == j || check_re(q, x, s, i, j),
    }
}

fn check_concat(q: &QueryIr, x: &AsRegex, y: &AsRegex, s: &Vec<u64>, i: usize, j: usize, k: usize) -> (r: bool)
    requires
        i <= k <= j <= s@.len(),
    ensures
        r == concat_from(*q, *x, *y, s@, i as int, j as int, k as int),
    decreases re_size(*x) + re_size(*y) + 1, j - i, 1nat, j + 1 - k,
{
    (check_re(q, x, s, i, k) && check_re(q, y, s, k, j)) || (k < j && check_concat(q, x, y, s, i, j, k + 1))
}

fn check_plus(q: &QueryIr, x: &AsRegex, s: &Vec<u64>, i: usize, j: usize, k: usize) -> (r: bool)
    requires
        i <= k <= j <= s@.len(),
    ensures
        r == plus_from(*q, *x, s@, i as int, j as int, k as int),
    decreases re_size(*x) + 1, j - i, 1nat, j + 1 - k,
{
    (check_re(q, x, s, i, k) && check_star(q, x, s, k, j)) || (k < j && check_plus(q, x, s, i, j, k + 1))
}

/// Whether `x` repeated any number of times matches `s` from `i` to `j`.
pub fn check_star(q: &QueryIr, x: &AsRegex, s: &Vec<u64>, i: usize, j: usize) -> (r: bool)
    requires
        i <= j <= s@.len(),
    ensures
        r == star_match(*q, *x, s@, i as int, j as int),
    decreases re_size(*x) + 1, j - i, 1nat, 0int,
{
    i == j || check_star_from(q, x, s, i, j, i + 1)
}

fn check_star_from(q: &QueryIr, x: &AsRegex, s: &Vec<u64>, i: usize, j: usize, k: usize) -> (r: bool)
    requires
        i < k <= j <= s@.len(),
    ensures
        r == star_from(*q, *x, s@, i as int, j as int, k as int),
    decreases re_size(*x) + 1, j - i, 0nat, j + 1 - k,
{
    (check_re(q, x, s, i, k) && check_star(q, x, s, k, j)) || (k < j && check_star_from(q, x, s, i, j, k + 1))
}

fn check_ending_from(q: &QueryIr, r: &AsPathRegex, s: &Vec<u64>, i: usize, j: usize) -> (m: bool)
    requires
        i <= j <= s@.len(),
    ensures
        m == match_ending_from(*q, *r, s@, i as int, j as int),
    decreases s@.len() + 1 - j,
{
    ((!r.to_end || j == s.len()) && check_re(q, &r.re, s, i, j)) || (j < s.len()
        && check_ending_from(q, r, s, i, j + 1))
}

fn check_starting_from(q: &QueryIr, r: &AsPathRegex, s: &Vec<u64>, i: usize) -> (m: bool)
    requires
        i <= s@.len(),
    ensures
        m == match_starting_from(*q, *r, s@, i as int),
    decreases s@.len() + 1 - i,
{
    ((!r.from_start || i == 0) && check_ending_from(q, r, s, i, i)) || (i < s.len()
        && check_starting_from(q, r, s, i + 1))
}

/// Whether the anchored expression `r` matches some stretch of `s`.
pub fn check_path_regex(q: &QueryIr, r: &AsPathRegex, s: &Vec<u64>) -> (m: bool)
    ensures
        m == path_regex_match(*q, *r, s@),
        m == exists|a: int, b: int|
            0 <= a <= b <= s@.len() && (r.from_start ==> a == 0) && (r.to_end ==> b == s@.len())
                && #[trigger] re_match(*q, r.re, s@, a, b),
{
    proof {
        lemma_path_match_by_stretch(*q, *r, s@);
    }
    check_starting_from(q, r, s, 0)
}

} // verus!
