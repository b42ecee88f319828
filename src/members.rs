use vstd::prelude::*;
use vstd::string::*;

verus! {

/// `c` is white space in the sense of Unicode's `White_Space` property.
pub open spec fn is_space(c: char) -> bool {
    ('\u{9}' <= c <= '\u{d}') || c == ' ' || c == '\u{85}' || c == '\u{a0}' || c == '\u{1680}'
        || ('\u{2000}' <= c <= '\u{200a}') || c == '\u{2028}' || c == '\u{2029}' || c == '\u{202f}'
        || c == '\u{205f}' || c == '\u{3000}'
}

fn check_space(c: char) -> (r: bool)
    ensures
        r == is_space(c),
{
    ('\u{9}' <= c && c <= '\u{d}') || c == ' ' || c == '\u{85}' || c == '\u{a0}' || c == '\u{1680}'
        || ('\u{2000}' <= c && c <= '\u{200a}') || c == '\u{2028}' || c == '\u{2029}' || c
        == '\u{202f}' || c == '\u{205f}' || c == '\u{3000}'
}

/// `s` without its leading white space.
pub open spec fn trim_start(s: Seq<char>) -> Seq<char>
    decreases s.len(),
{
    if s.len() > 0 && is_space(s[0]) {
        trim_start(s.drop_first())
    } else {
        s
    }
}

/// `s` without its trailing white space.
pub open spec fn trim_end(s: Seq<char>) -> Seq<char>
    decreases s.len(),
{
    if s.len() > 0 && is_space(s.last()) {
        trim_end(s.drop_last())
    } else {
        s
    }
}

/// `s` without white space at either end.
pub open spec fn trim(s: Seq<char>) -> Seq<char> {
    trim_end(trim_start(s))
}

/// The position of the first comma of `s`, or its length where it has none.
pub open spec fn first_comma(s: Seq<char>) -> int
    decreases s.len(),
{
    if s.len() == 0 || s[0] == ',' {
        0
    } else {
        1 + first_comma(s.drop_first())
    }
}

/// The parts of `s` between commas, each trimmed of white space, without
/// the parts left empty.
pub open spec fn split_commas_spec(s: Seq<char>) -> Seq<Seq<char>>
    decreases s.len(),
{
    let k = first_comma(s);
    let part = trim(s.subrange(0, k));
    let rest = if 0 <= k < s.len() {
        split_commas_spec(s.subrange(k + 1, s.len() as int))
    } else {
        Seq::empty()
    };
    if part.len() == 0 {
        rest
    } else {
        seq![part] + rest
    }
}

proof fn lemma_first_comma_bounds(s: Seq<char>)
    ensures
        0 <= first_comma(s) <= s.len(),
        first_comma(s) < s.len() ==> s[first_comma(s)] == ',',
        forall|t: int| 0 <= t < first_comma(s) ==> s[t] != ',',
    decreases s.len(),
{
    if s.len() > 0 && s[0] != ',' {
        lemma_first_comma_bounds(s.drop_first());
        assert forall|t: int| 0 <= t < first_comma(s) implies s[t] != ',' by {
            if t > 0 {
                assert(s[t] == s.drop_first()[t - 1]);
            }
        }
    }
}

/// The views of a list of strings.
pub open spec fn texts(v: Seq<String>) -> Seq<Seq<char>> {
    v.map_values(|x: String| x@)
}

/// Split `expr` at commas, trim each part of white space and drop the
/// parts left empty.
pub fn split_commas(expr: &str) -> (r: Vec<String>)
    ensures
        texts(r@) == split_commas_spec(expr@),
{
    let n = expr.unicode_len();
    let ghost s = expr@;
    let mut out: Vec<String> = Vec::new();
    let mut start: usize = 0;
    assert(texts(out@) =~= Seq::<Seq<char>>::empty());
    assert(s.subrange(0, n as int) =~= s);
    while start < n
        invariant
            s == expr@,
            n == s.len(),
            start <= n,
            texts(out@) + split_commas_spec(s.subrange(start as int, n as int)) == split_commas_spec(s),
        decreases n - start,
    {
        let ghost t = s.subrange(start as int, n as int);
        let mut k: usize = start;
        while k < n && expr.get_char(k) != ','
            invariant
                s == expr@,
                n == s.len(),
                start <= k <= n,
                t == s.subrange(start as int, n as int),
                first_comma(t) == (k - start) + first_comma(s.subrange(k as int, n as int)),
            decreases n - k,
        {
            assert(s.subrange(k as int, n as int).drop_first() =~= s.subrange(k + 1, n as int));
            k = k + 1;
        }
        proof {
            if k < n {
                assert(s.subrange(k as int, n as int)[0] == s[k as int]);
            }
            assert(first_comma(t) == k - start);
        }
        let mut a: usize = start;
        while a < k && check_space(expr.get_char(a))
            invariant
                s == expr@,
                n == s.len(),
                start <= a <= k <= n,
                trim_start(s.subrange(start as int, k as int)) == trim_start(s.subrange(a as int, k as int)),
            decreases k - a,
        {
            assert(s.subrange(a as int, k as int).drop_first() =~= s.subrange(a + 1, k as int));
            a = a + 1;
        }
        let mut b: usize = k;
        while b > a && check_space(expr.get_char(b - 1))
            invariant
                s == expr@,
                n == s.len(),
                start <= a <= b <= k <= n,
                trim_end(s.subrange(a as int, k as int)) == trim_end(s.subrange(a as int, b as int)),
            decreases b - a,
        {
            assert(s.subrange(a as int, b as int).drop_last() =~= s.subrange(a as int, b - 1));
            b = b - 1;
        }
        proof {
            assert(t.subrange(0, k - start) =~= s.subrange(start as int, k as int));
            if a < k {
                assert(s.subrange(a as int, k as int)[0] == s[a as int]);
            }
            assert(trim_start(s.subrange(a as int, k as int)) == s.subrange(a as int, k as int));
            if a < b {
                assert(s.subrange(a as int, b as int).last() == s[b - 1]);
            }
            assert(trim_end(s.subrange(a as int, b as int)) == s.subrange(a as int, b as int));
            assert(trim(t.subrange(0, k - start)) == s.subrange(a as int, b as int));
            if k < n {
                assert(t.subrange(k - start + 1, t.len() as int) =~= s.subrange(k + 1, n as int));
            }
        }
        let ghost before = out@;
        if a < b {
            let part = String::from_str(expr.substring_char(a, b));
            out.push(part);
            proof {
                assert(texts(out@) =~= texts(before) + seq![s.subrange(a as int, b as int)]);
            }
        }
        let next: usize = if k < n { k + 1 } else { n };
        proof {
            if k == n {
                assert(split_commas_spec(s.subrange(n as int, n as int)) =~= Seq::<Seq<char>>::empty()) by {
                    assert(s.subrange(n as int, n as int).len() == 0);
                    assert(trim(Seq::<char>::empty()) =~= Seq::<char>::empty());
                }
            }
            assert(texts(out@) + split_commas_spec(s.subrange(next as int, n as int)) =~= texts(before)
                + split_commas_spec(t));
        }
        start = next;
    }
    proof {
        assert(split_commas_spec(s.subrange(n as int, n as int)) =~= Seq::<Seq<char>>::empty()) by {
            assert(s.subrange(n as int, n as int).len() == 0);
            assert(trim(Seq::<char>::empty()) =~= Seq::<char>::empty());
        }
        assert(texts(out@) + Seq::<Seq<char>>::empty() =~= texts(out@));
    }
    out
}

/// Whether `a` and `b` hold the same characters.
fn same_text(a: &str, b: &str) -> (r: bool)
    ensures
        r == (a@ == b@),
{
    let n = a.unicode_len();
    if n != b.unicode_len() {
        return false;
    }
    let mut i: usize = 0;
    while i < n
        invariant
            n == a@.len(),
            n == b@.len(),
            i <= n,
            forall|k: int| 0 <= k < i ==> a@[k] == b@[k],
        decreases n - i,
    {
        if a.get_char(i) != b.get_char(i) {
            return false;
        }
        i = i + 1;
    }
    assert(a@ =~= b@);
    true
}

/// The name of the set that gathers the objects naming set `set` in their
/// `member-of`, whoever maintains them.
pub open spec fn any_ref_set(set: Seq<char>) -> Seq<char> {
    "ANY#"@ + set
}

/// The name of the set that gathers the objects maintained by `mntner` that
/// name set `set` in their `member-of`.
pub open spec fn mntner_ref_set(mntner: Seq<char>, set: Seq<char>) -> Seq<char> {
    mntner + "#"@ + set
}

/// The members that attribute `key: expr` of set `set` contributes:
/// `members` and `mp-members` list them between commas; `mbrs-by-ref` names
/// maintainers whose objects join the set by reference, or `ANY` for all.
pub open spec fn attr_members(set: Seq<char>, key: Seq<char>, expr: Seq<char>) -> Seq<Seq<char>> {
    if key == "members"@ || key == "mp-members"@ {
        split_commas_spec(expr)
    } else if key == "mbrs-by-ref"@ {
        if expr == "ANY"@ {
            seq![any_ref_set(set)]
        } else {
            split_commas_spec(expr).map_values(|m: Seq<char>| mntner_ref_set(m, set))
        }
    } else {
        Seq::empty()
    }
}

/// The members of set `set` gathered from its attributes `attrs`, in order.
pub open spec fn members_spec(set: Seq<char>, attrs: Seq<(Seq<char>, Seq<char>)>) -> Seq<Seq<char>>
    decreases attrs.len(),
{
    if attrs.len() == 0 {
        Seq::empty()
    } else {
        members_spec(set, attrs.drop_last()) + attr_members(set, attrs.last().0, attrs.last().1)
    }
}

/// The views of a list of attributes.
pub open spec fn attr_texts(attrs: Seq<(String, String)>) -> Seq<(Seq<char>, Seq<char>)> {
    attrs.map_values(|a: (String, String)| (a.0@, a.1@))
}

/// The members of the `as-set` or `route-set` named `name`, gathered from its
/// attributes `attrs` (key and value, in the order of the object): the
/// `members` and `mp-members` lists, and for `mbrs-by-ref` the reference sets
/// keyed on each maintainer named.
pub fn gather_members(name: &str, attrs: &Vec<(String, String)>) -> (r: Vec<String>)
    ensures
        texts(r@) == members_spec(name@, attr_texts(attrs@)),
{
    let mut out: Vec<String> = Vec::new();
    let mut i: usize = 0;
    assert(texts(out@) =~= Seq::<Seq<char>>::empty());
    assert(attr_texts(attrs@).subrange(0, 0) =~= Seq::<(Seq<char>, Seq<char>)>::empty());
    while i < attrs.len()
        invariant
            i <= attrs@.len(),
            texts(out@) == members_spec(name@, attr_texts(attrs@).subrange(0, i as int)),
        decreases attrs@.len() - i,
    {
        let key = attrs[i].0.as_str();
        let expr = attrs[i].1.as_str();
        let ghost before = out@;
        let mut extra: Vec<String> = Vec::new();
        if same_text(key, "members") || same_text(key, "mp-members") {
            extra = split_commas(expr);
        } else if same_text(key, "mbrs-by-ref") {
            if same_text(expr, "ANY") {
                extra.push(String::from_str("ANY#").concat(name));
                assert(texts(extra@) =~= seq![any_ref_set(name@)]);
            } else {
                let mut mntners = split_commas(expr);
                let ghost ms = texts(mntners@);
                let mut j: usize = 0;
                while j < mntners.len()
                    invariant
                        j <= mntners@.len(),
                        ms == texts(mntners@),
                        texts(extra@) == ms.subrange(0, j as int).map_values(|m: Seq<char>| mntner_ref_set(m, name@)),
                    decreases mntners@.len() - j,
                {
                    let m = mntners[j].as_str();
                    let named = String::from_str(m).concat("#").concat(name);
                    let ghost prev = extra@;
                    assert(ms[j as int] == m@);
                    assert(named@ == mntner_ref_set(ms[j as int], name@));
                    extra.push(named);
                    assert(texts(extra@) =~= texts(prev).push(named@));
                    assert(texts(extra@) =~= ms.subrange(0, j + 1).map_values(|m: Seq<char>| mntner_ref_set(m, name@)));
                    j = j + 1;
                }
                assert(ms.subrange(0, ms.len() as int) =~= ms);
            }
        } else {
            assert(texts(extra@) =~= Seq::<Seq<char>>::empty());
        }
        assert(texts(extra@) == attr_members(name@, attrs@[i as int].0@, attrs@[i as int].1@));
        let ghost mid = extra@;
        out.append(&mut extra);
        proof {
            assert(texts(out@) =~= texts(before) + texts(mid));
            let v = attr_texts(attrs@).subrange(0, i + 1);
            assert(v.drop_last() =~= attr_texts(attrs@).subrange(0, i as int));
            assert(v.last() == (attrs@[i as int].0@, attrs@[i as int].1@));
        }
        i = i + 1;
    }
    assert(attr_texts(attrs@).subrange(0, attrs@.len() as int) =~= attr_texts(attrs@));
    out
}

/// What the database reader does with an RPSL object.
#[derive(Clone, Copy, Debug, PartialEq, Eq, Structural)]
pub enum ObjectClass {
    AutNum,
    AsSet,
    Route,
    RouteSet,
    FilterSet,
    PeeringSet,
    /// A class the policy check does not use.
    Other,
    /// An object whose body is too large to read; it is skipped.
    TooLarge,
}

/// The largest body, in bytes, of an object that is read.
pub const MAX_BODY_LEN: usize = 1024 * 1024;

/// What is done with an object of class `class` whose body has `body_len` bytes.
pub open spec fn class_of(class: Seq<char>, body_len: nat) -> ObjectClass {
    if body_len > MAX_BODY_LEN {
        ObjectClass::TooLarge
    } else if class == "aut-num"@ {
        ObjectClass::AutNum
    } else if class == "as-set"@ {
        ObjectClass::AsSet
    } else if class == "route"@ || class == "route6"@ {
        ObjectClass::Route
    } else if class == "route-set"@ {
        ObjectClass::RouteSet
    } else if class == "filter-set"@ {
        ObjectClass::FilterSet
    } else if class == "peering-set"@ {
        ObjectClass::PeeringSet
    } else {
        ObjectClass::Other
    }
}

/// What is done with an object of class `class` whose body has `body_len` bytes.
pub fn classify_object(class: &str, body_len: usize) -> (r: ObjectClass)
    ensures
        r == class_of(class@, body_len as nat),
{
    if body_len > MAX_BODY_LEN {
        ObjectClass::TooLarge
    } else if same_text(class, "aut-num") {
        ObjectClass::AutNum
    } else if same_text(class, "as-set") {
        ObjectClass::AsSet
    } else if same_text(class, "route") || same_text(class, "route6") {
        ObjectClass::Route
    } else if same_text(class, "route-set") {
        ObjectClass::RouteSet
    } else if same_text(class, "filter-set") {
        ObjectClass::FilterSet
    } else if same_text(class, "peering-set") {
        ObjectClass::PeeringSet
    } else {
        ObjectClass::Other
    }
}

} // verus!
