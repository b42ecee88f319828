use vstd::prelude::*;

use crate::as_regex::AsPathRegex;
use crate::prefix::{AddrPfxRange, RangeOperator};

verus! {

/// A name of ASes in a policy. Set names are resolved to the index of the set
/// in the corpus when the corpus defines them.
#[derive(Clone, Debug, PartialEq, Eq)]
pub enum AsName {
    Num(u64),
    AsSet(usize),
    UnrecordedAsSet(String),
    Any,
    Invalid(String),
}

/// An expression over AS names, as in a peering.
#[derive(Debug)]
pub enum AsExpr {
    Single(AsName),
    PeeringSet(usize),
    UnrecordedPeeringSet(String),
    And(Box<AsExpr>, Box<AsExpr>),
    Or(Box<AsExpr>, Box<AsExpr>),
    Except(Box<AsExpr>, Box<AsExpr>),
}

/// `<as-expr> [<local-router>] [at <remote-router>]`. Routers are kept for
/// reporting and play no part in a decision.
#[derive(Debug)]
pub struct Peering {
    pub remote_as: AsExpr,
    pub remote_router: Option<String>,
    pub local_router: Option<String>,
}

/// A peering with the actions that come with it, as attribute and value.
#[derive(Debug)]
pub struct PeeringAction {
    pub mp_peering: Peering,
    pub actions: Vec<(String, String)>,
}

/// The AS-path quantifier written after an AS name in a filter.
#[derive(Clone, Copy, Debug, PartialEq, Eq, Structural)]
pub enum RegexOperator {
    NoOp,
    Contains,
    Plus,
    Star,
    Question,
    Range(u32, u32),
}

/// A policy filter.
#[derive(Debug)]
pub enum Filter {
    Any,
    AsNum(u64, RegexOperator),
    AsSet(usize, RegexOperator),
    UnrecordedAsSet(String),
    AddrPrefixSet(Vec<AddrPfxRange>),
    /// The routes of a route set, with the range operator written after it.
    RouteSet(usize, RangeOperator),
    UnrecordedRouteSet(String),
    PeeringSet(usize),
    UnrecordedPeeringSet(String),
    FilterSet(usize),
    UnrecordedFilterSet(String),
    AsPathRE(AsPathRegex),
    And(Box<Filter>, Box<Filter>),
    Or(Box<Filter>, Box<Filter>),
    Not(Box<Filter>),
    Group(Box<Filter>),
    Community(String),
    Invalid(String),
}

/// One policy entry: the peerings it applies to and the filter on routes.
#[derive(Debug)]
pub struct Entry {
    pub mp_peerings: Vec<PeeringAction>,
    pub mp_filter: Filter,
}

/// Policy entries by cast.
#[derive(Debug)]
pub struct Casts {
    pub any: Vec<Entry>,
    pub unicast: Vec<Entry>,
    pub multicast: Vec<Entry>,
}

impl Casts {
    pub open spec fn is_empty_spec(&self) -> bool {
        self.any@.len() == 0 && self.unicast@.len() == 0 && self.multicast@.len() == 0
    }

    /// No entries at all.
    pub fn new() -> (r: Self)
        ensures
            r.is_empty_spec(),
    {
        Casts { any: Vec::new(), unicast: Vec::new(), multicast: Vec::new() }
    }

    /// Whether these casts hold no entry.
    pub fn is_default(&self) -> (r: bool)
        ensures
            r == self.is_empty_spec(),
    {
        self.any.len() == 0 && self.unicast.len() == 0 && self.multicast.len() == 0
    }

    /// All the entries, those for any cast first, then unicast, then multicast.
    pub open spec fn all_entries(&self) -> Seq<Entry> {
        self.any@ + self.unicast@ + self.multicast@
    }

    /// All the entries, those for any cast first, then unicast, then multicast.
    pub fn entries_iter(&self) -> (r: Vec<&Entry>)
        ensures
            r@.len() == self.all_entries().len(),
            forall|i: int| 0 <= i < r@.len() ==> *r@[i] == self.all_entries()[i],
    {
        let mut r: Vec<&Entry> = Vec::new();
        push_refs(&mut r, &self.any);
        push_refs(&mut r, &self.unicast);
        push_refs(&mut r, &self.multicast);
        proof {
            let (a, u, m) = (self.any@, self.unicast@, self.multicast@);
            assert forall|i: int| 0 <= i < r@.len() implies *r@[i] == self.all_entries()[i] by {
                if i < a.len() {
                } else if i < a.len() + u.len() {
                    assert(*r@[a.len() + (i - a.len())] == u[i - a.len()]);
                } else {
                    assert(*r@[a.len() + u.len() + (i - a.len() - u.len())] == m[i - a.len() - u.len()]);
                }
            }
        }
        r
    }
}

impl Default for Casts {
    fn default() -> (r: Self)
        ensures
            r.is_empty_spec(),
    {
        Casts::new()
    }
}

fn push_refs<'a>(r: &mut Vec<&'a Entry>, entries: &'a Vec<Entry>)
    ensures
        final(r)@.len() == old(r)@.len() + entries@.len(),
        forall|i: int| 0 <= i < old(r)@.len() ==> final(r)@[i] == old(r)@[i],
        forall|i: int| 0 <= i < entries@.len() ==> *final(r)@[old(r)@.len() + i] == entries@[i],
{
    let mut i: usize = 0;
    while i < entries.len()
        invariant
            i <= entries@.len(),
            r@.len() == old(r)@.len() + i,
            forall|k: int| 0 <= k < old(r)@.len() ==> r@[k] == old(r)@[k],
            forall|k: int| 0 <= k < i ==> *r@[old(r)@.len() + k] == entries@[k],
        decreases entries@.len() - i,
    {
        r.push(&entries[i]);
        i = i + 1;
    }
}

/// Policy entries by address family.
#[derive(Debug)]
pub struct Versions {
    pub any: Casts,
    pub ipv4: Casts,
    pub ipv6: Casts,
}

impl Versions {
    pub open spec fn is_empty_spec(&self) -> bool {
        self.any.is_empty_spec() && self.ipv4.is_empty_spec() && self.ipv6.is_empty_spec()
    }

    /// No entries at all.
    pub fn new() -> (r: Self)
        ensures
            r.is_empty_spec(),
    {
        Versions { any: Casts::new(), ipv4: Casts::new(), ipv6: Casts::new() }
    }

    /// Whether no family holds an entry: the policy is then absent.
    pub fn is_default(&self) -> (r: bool)
        ensures
            r == self.is_empty_spec(),
    {
        self.any.is_default() && self.ipv4.is_default() && self.ipv6.is_default()
    }

    /// All the entries, those for any family first, then IPv4, then IPv6.
    pub open spec fn all_entries(&self) -> Seq<Entry> {
        self.any.all_entries() + self.ipv4.all_entries() + self.ipv6.all_entries()
    }

    /// All the entries, those for any family first, then IPv4, then IPv6.
    pub fn entries_iter(&self) -> (r: Vec<&Entry>)
        ensures
            r@.len() == self.all_entries().len(),
            forall|i: int| 0 <= i < r@.len() ==> *r@[i] == self.all_entries()[i],
    {
        let mut r = self.any.entries_iter();
        let ghost (a, b, c) = (self.any.all_entries(), self.ipv4.all_entries(), self.ipv6.all_entries());
        let mut v4 = self.ipv4.entries_iter();
        let mut v6 = self.ipv6.entries_iter();
        let ghost (r0, r1, r2) = (r@, v4@, v6@);
        r.append(&mut v4);
        r.append(&mut v6);
        proof {
            assert forall|i: int| 0 <= i < r@.len() implies *r@[i] == self.all_entries()[i] by {
                if i < a.len() {
                    assert(r@[i] == r0[i]);
                } else if i < a.len() + b.len() {
                    assert(r@[i] == r1[i - a.len()]);
                } else {
                    assert(r@[i] == r2[i - a.len() - b.len()]);
                }
            }
        }
        r
    }
}

impl Default for Versions {
    fn default() -> (r: Self)
        ensures
            r.is_empty_spec(),
    {
        Versions::new()
    }
}

/// The policy of an AS, with its text kept for diagnostics.
#[derive(Debug)]
pub struct AutNum {
    pub name: String,
    pub body: String,
    pub imports: Versions,
    pub exports: Versions,
}

/// An `as-set` or `route-set` as read from a database, before its members are resolved.
#[derive(Clone, Debug, PartialEq, Eq)]
pub struct AsOrRouteSet {
    pub name: String,
    pub body: String,
    pub members: Vec<String>,
}

/// A `peering-set`.
#[derive(Debug)]
pub struct PeeringSet {
    pub name: String,
    pub body: String,
    pub peerings: Vec<Peering>,
}

/// An `as-set`: ASes by number, and other AS sets by index in the corpus.
#[derive(Clone, Debug, PartialEq, Eq)]
pub struct AsSet {
    pub name: String,
    pub body: String,
    pub members: Vec<u64>,
    pub set_members: Vec<usize>,
}

/// A member of a `route-set`.
#[derive(Clone, Debug, PartialEq, Eq)]
pub enum RouteSetMember {
    Range(AddrPfxRange),
    /// The routes of a nested route set.
    RouteSet(usize),
    /// The routes that an AS originates.
    AsNum(u64),
    /// The routes that the ASes of an AS set originate.
    AsSet(usize),
    Unrecorded(String),
}

/// A `route-set`.
#[derive(Clone, Debug, PartialEq, Eq)]
pub struct RouteSet {
    pub name: String,
    pub body: String,
    pub members: Vec<RouteSetMember>,
}

/// A `filter-set`: its filters, of which any may match.
#[derive(Debug)]
pub struct FilterSet {
    pub name: String,
    pub body: String,
    pub filters: Vec<Filter>,
}

} // verus!
