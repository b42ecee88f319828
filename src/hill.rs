use vstd::prelude::*;

use crate::ir::{AsExpr, AsName, Entry, PeeringAction, Versions};
use crate::query::{key_index, QueryIr};
use crate::report::{Report, ReportItem};
use crate::verbosity::Verbosity;

verus! {

/// The business relationship of one AS to another.
#[derive(Clone, Copy, Debug, PartialEq, Eq, Structural)]
pub enum Relationship {
    /// Provider to customer.
    P2C,
    /// Peer to peer.
    P2P,
    /// Customer to provider.
    C2P,
}

/// Which way a hop goes between the two ASes.
#[derive(Clone, Copy, Debug, PartialEq, Eq, Structural)]
pub enum Hill {
    Up,
    Down,
    Peer,
    Other,
}

/// The direction of a hop whose sender stands in relationship `rel` to its receiver.
pub fn hill_of(rel: Option<Relationship>) -> (h: Hill)
    ensures
        h == match rel {
            Some(Relationship::C2P) => Hill::Up,
            Some(Relationship::P2C) => Hill::Down,
            Some(Relationship::P2P) => Hill::Peer,
            None => Hill::Other,
        },
{
    match rel {
        Some(Relationship::C2P) => Hill::Up,
        Some(Relationship::P2C) => Hill::Down,
        Some(Relationship::P2P) => Hill::Peer,
        None => Hill::Other,
    }
}

/// `report` with a successful export from a customer up to its provider
/// marked as special, where the verbosity asks for it; `rel` is the
/// relationship of the exporting AS to the receiving one.
pub fn mark_uphill(verbosity: Verbosity, report: Report, rel: Option<Relationship>) -> (r: Report)
    ensures
        (verbosity.special_uphill && rel == Some(Relationship::C2P) && report matches Report::OkExport { .. }) ==> (
        r matches Report::MehExport { from, to, items } && report matches Report::OkExport {
            from: f,
            to: t,
        } && from == f && to == t && items@ == (if verbosity.show_meh {
            seq![ReportItem::SpecUphill]
        } else {
            Seq::empty()
        })),
        !(verbosity.special_uphill && rel == Some(Relationship::C2P) && report matches Report::OkExport { .. })
            ==> r == report,
{
    match report {
        Report::OkExport { from, to } => if verbosity.special_uphill && rel == Some(Relationship::C2P) {
            let r = verbosity.meh_export(from, to, Vec::new(), ReportItem::SpecUphill);
            proof {
                if verbosity.show_meh {
                    assert(Seq::<ReportItem>::empty().push(ReportItem::SpecUphill) =~= seq![ReportItem::SpecUphill]);
                }
            }
            r
        } else {
            Report::OkExport { from, to }
        },
        other => other,
    }
}

/// The ASes that originate routes but have no policy in the corpus, each with
/// its number of routes, for the first `n` entries of the route table.
pub open spec fn without_aut_num(q: QueryIr, n: int) -> Seq<(u64, usize)>
    decreases n,
{
    if n <= 0 || n > q.as_routes@.len() {
        Seq::empty()
    } else {
        let prev = without_aut_num(q, n - 1);
        let (num, routes) = q.as_routes@[n - 1];
        if key_index(q.aut_nums@, num) is None {
            prev.push((num, routes@.len() as usize))
        } else {
            prev
        }
    }
}

/// The ASes that originate routes but have no policy in the corpus, each with
/// its number of routes, in the order of the route table.
pub fn as_w_routes_wo_aut_num(query: &QueryIr) -> (r: Vec<(u64, usize)>)
    ensures
        r@ == without_aut_num(*query, query.as_routes@.len() as int),
        query.wf() ==> forall|a: int, b: int| 0 <= a < b < r@.len() ==> r@[a].0 != r@[b].0,
{
    let mut r: Vec<(u64, usize)> = Vec::new();
    let mut i: usize = 0;
    while i < query.as_routes.len()
        invariant
            i <= query.as_routes@.len(),
            r@ == without_aut_num(*query, i as int),
            forall|a: int| 0 <= a < r@.len() ==> exists|t: int| 0 <= t < i && query.as_routes@[t].0 == (#[trigger] r@[a]).0,
            query.wf() ==> forall|a: int, b: int| 0 <= a < b < r@.len() ==> r@[a].0 != r@[b].0,
        decreases query.as_routes@.len() - i,
    {
        let num = query.as_routes[i].0;
        if query.aut_num(num).is_none() {
            let ghost before = r@;
            r.push((num, query.as_routes[i].1.len()));
            proof {
                assert forall|a: int| 0 <= a < r@.len() implies exists|t: int| 0 <= t < i + 1 && #[trigger] query.as_routes@[t].0 == (#[trigger] r@[a]).0 by {
                    if a < before.len() {
                        assert(r@[a] == before[a]);
                    } else {
                        assert(query.as_routes@[i as int].0 == r@[a].0);
                    }
                }
                if query.wf() {
                    assert forall|a: int, b: int| 0 <= a < b < r@.len() implies r@[a].0 != r@[b].0 by {
                        if b == before.len() {
                            assert(r@[a] == before[a]);
                            let t = choose|t: int| 0 <= t < i && #[trigger] query.as_routes@[t].0 == before[a].0;
                        } else {
                            assert(r@[a] == before[a] && r@[b] == before[b]);
                        }
                    }
                }
            }
        }
        i = i + 1;
    }
    r
}

/// The AS that peering `p` names, where it names a single AS by number.
pub open spec fn plain_peer(p: PeeringAction) -> Option<u64> {
    match p.mp_peering.remote_as {
        AsExpr::Single(AsName::Num(n)) => Some(n),
        _ => None,
    }
}

/// The ASes that the peerings `ps` name, where each names a single AS by number.
pub open spec fn plain_peers(ps: Seq<PeeringAction>) -> Option<Seq<u64>>
    decreases ps.len(),
{
    if ps.len() == 0 {
        Some(Seq::empty())
    } else {
        match (plain_peers(ps.drop_last()), plain_peer(ps.last())) {
            (Some(v), Some(n)) => Some(v.push(n)),
            _ => None,
        }
    }
}

/// The ASes that the peerings of entries `es` name, where every peering names
/// a single AS by number.
pub open spec fn entries_peers(es: Seq<Entry>) -> Option<Seq<u64>>
    decreases es.len(),
{
    if es.len() == 0 {
        Some(Seq::empty())
    } else {
        match (entries_peers(es.drop_last()), plain_peers(es.last().mp_peerings@)) {
            (Some(v), Some(w)) => Some(v + w),
            _ => None,
        }
    }
}

fn peerings_plain(ps: &Vec<PeeringAction>) -> (r: Option<Vec<u64>>)
    ensures
        r matches Some(v) ==> plain_peers(ps@) == Some(v@),
        r is None ==> plain_peers(ps@) is None,
{
    let mut v: Vec<u64> = Vec::new();
    let mut i: usize = 0;
    assert(ps@.subrange(0, 0) =~= Seq::<PeeringAction>::empty());
    while i < ps.len()
        invariant
            i <= ps@.len(),
            plain_peers(ps@.subrange(0, i as int)) == Some(v@),
        decreases ps@.len() - i,
    {
        proof {
            let t = ps@.subrange(0, i + 1);
            assert(t.drop_last() =~= ps@.subrange(0, i as int));
            assert(t.last() == ps@[i as int]);
        }
        match &ps[i].mp_peering.remote_as {
            AsExpr::Single(AsName::Num(n)) => v.push(*n),
            _ => {
                proof {
                    lemma_plain_none_grows(ps@, i as int);
                }
                return None;
            },
        }
        i = i + 1;
    }
    assert(ps@.subrange(0, ps@.len() as int) =~= ps@);
    Some(v)
}

proof fn lemma_plain_none_grows(ps: Seq<PeeringAction>, i: int)
    requires
        0 <= i < ps.len(),
        plain_peer(ps[i]) is None,
    ensures
        plain_peers(ps) is None,
    decreases ps.len(),
{
    if i < ps.len() - 1 {
        lemma_plain_none_grows(ps.drop_last(), i);
    }
}

proof fn lemma_entries_none_grows(es: Seq<Entry>, i: int)
    requires
        0 <= i < es.len(),
        plain_peers(es[i].mp_peerings@) is None,
    ensures
        entries_peers(es) is None,
    decreases es.len(),
{
    if i < es.len() - 1 {
        lemma_entries_none_grows(es.drop_last(), i);
    }
}

/// The ASes that the import policy `imports` names in its peerings, in order,
/// where every peering names a single AS by number; `None` where one does not.
pub fn import_peers(imports: &Versions) -> (r: Option<Vec<u64>>)
    ensures
        r matches Some(v) ==> entries_peers(imports.all_entries()) == Some(v@),
        r is None ==> entries_peers(imports.all_entries()) is None,
{
    let es = imports.entries_iter();
    let ghost all = imports.all_entries();
    let mut v: Vec<u64> = Vec::new();
    let mut i: usize = 0;
    assert(all.subrange(0, 0) =~= Seq::<Entry>::empty());
    while i < es.len()
        invariant
            i <= es@.len(),
            es@.len() == all.len(),
            all == imports.all_entries(),
            forall|k: int| 0 <= k < es@.len() ==> *es@[k] == all[k],
            entries_peers(all.subrange(0, i as int)) == Some(v@),
        decreases es@.len() - i,
    {
        proof {
            let t = all.subrange(0, i + 1);
            assert(t.drop_last() =~= all.subrange(0, i as int));
            assert(t.last() == all[i as int]);
        }
        match peerings_plain(&es[i].mp_peerings) {
            Some(mut w) => {
                v.append(&mut w);
            },
            None => {
                proof {
                    lemma_entries_none_grows(all, i as int);
                }
                return None;
            },
        }
        i = i + 1;
    }
    assert(all.subrange(0, all.len() as int) =~= all);
    Some(v)
}

/// Each of `rels`, the relationships of the peers of an import policy to the
/// importing AS, says that the peer is a provider; and there is at least one.
pub open spec fn only_providers(rels: Seq<Option<Relationship>>) -> bool {
    rels.len() > 0 && forall|k: int| 0 <= k < rels.len() ==> rels[k] == Some(Relationship::P2C)
}

/// Whether an AS whose import peers stand in relationships `rels` to it
/// imports from its providers only.
pub fn imports_only_from_providers(rels: &Vec<Option<Relationship>>) -> (r: bool)
    ensures
        r == only_providers(rels@),
{
    if rels.len() == 0 {
        return false;
    }
    let mut i: usize = 0;
    while i < rels.len()
        invariant
            i <= rels@.len(),
            forall|k: int| 0 <= k < i ==> rels@[k] == Some(Relationship::P2C),
        decreases rels@.len() - i,
    {
        if rels[i] != Some(Relationship::P2C) {
            return false;
        }
        i = i + 1;
    }
    true
}

/// `report` with a failed import marked as special where the verbosity asks
/// for it, the importing AS imports from its providers only (`only_providers`),
/// and the route came from a peer or a customer; `rel` is the relationship of
/// the sending AS to the importing one.
pub fn mark_import_only_provider(
    verbosity: Verbosity,
    report: Report,
    rel: Option<Relationship>,
    only_providers: bool,
) -> (r: Report)
    ensures
        ({
            let marked = verbosity.check_import_only_provider && only_providers && (rel == Some(
                Relationship::P2P,
            ) || rel == Some(Relationship::C2P)) && report is BadImport;
            &&& marked ==> (r matches Report::MehImport { from, to, items } && report matches Report::BadImport {
                from: f,
                to: t,
                items: i,
            } && from == f && to == t && items@ == (if verbosity.show_meh {
                i@.push(ReportItem::SpecImportOnlyProviders)
            } else {
                i@
            }))
            &&& !marked ==> r == report
        }),
{
    let marked = verbosity.check_import_only_provider && only_providers && (rel == Some(
        Relationship::P2P,
    ) || rel == Some(Relationship::C2P));
    match report {
        Report::BadImport { from, to, items } => if marked {
            verbosity.meh_import(from, to, items, ReportItem::SpecImportOnlyProviders)
        } else {
            Report::BadImport { from, to, items }
        },
        other => other,
    }
}

/// `report` with a failed export marked as special where the verbosity asks
/// for it and the exporting AS received the route from one of its customers:
/// exporting a customer's routes is what a customer set in its policy would
/// allow. `received_rel` is the relationship of the exporting AS to the AS it
/// received the route from, `None` where it originated the route.
pub fn mark_export_customers(verbosity: Verbosity, report: Report, received_rel: Option<Relationship>) -> (r: Report)
    ensures
        ({
            let marked = verbosity.check_customer && received_rel == Some(Relationship::P2C)
                && report is BadExport;
            &&& marked ==> (r matches Report::MehExport { from, to, items } && report matches Report::BadExport {
                from: f,
                to: t,
                items: i,
            } && from == f && to == t && items@ == (if verbosity.show_meh {
                i@.push(ReportItem::SpecExportCustomers)
            } else {
                i@
            }))
            &&& !marked ==> r == report
        }),
{
    let marked = verbosity.check_customer && received_rel == Some(Relationship::P2C);
    match report {
        Report::BadExport { from, to, items } => if marked {
            verbosity.meh_export(from, to, items, ReportItem::SpecExportCustomers)
        } else {
            Report::BadExport { from, to, items }
        },
        other => other,
    }
}

} // verus!
