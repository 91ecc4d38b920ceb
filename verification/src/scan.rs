//! The scan fold: feeding decoded listings into the price aggregate, one
//! listing, one page, or one whole scan at a time. Pages carry no ordering
//! requirement; by the permutation law the aggregate is the same whichever
//! order their fetches complete in.

use vstd::prelude::*;
use crate::aggregate::{
    PriceAggregate, merge_spec, fold_obs, lemma_fold_snoc, lemma_fold_min,
    lemma_fold_attained, lemma_fold_permutation, empty_prices,
};
use crate::classify::{classify_spec, classify};
use crate::item::PartialNbt;
use crate::page::{PageResult, gate_spec, scan_gate};
use crate::snapshot::{SnapshotStore, make_snapshot, entries_match, json_of};

verus! {

/// One listing after its blob was decoded; `item` is `None` when decoding
/// failed, which skips the listing.
#[derive(Clone)]
pub struct DecodedAuction {
    pub bin: bool,
    pub starting_bid: i64,
    pub item: Option<PartialNbt>,
}

/// The observation a decoded listing contributes: its canonical identity
/// and price, or nothing when it is not buy-it-now, failed to decode, or is
/// classified as a skip.
pub open spec fn obs_of(a: DecodedAuction) -> Option<(Seq<char>, i64)> {
    if !a.bin {
        None
    } else {
        match a.item {
            None => None,
            Some(n) => match classify_spec(n) {
                None => None,
                Some(id) => Some((id, a.starting_bid)),
            },
        }
    }
}

/// Merging an optional observation into an aggregate.
pub open spec fn apply_obs(
    m: Map<Seq<char>, i64>,
    o: Option<(Seq<char>, i64)>,
) -> Map<Seq<char>, i64> {
    match o {
        None => m,
        Some(p) => merge_spec(m, p.0, p.1),
    }
}

/// Folding one page's decoded listings into an aggregate, in order.
pub open spec fn fold_auctions(m: Map<Seq<char>, i64>, s: Seq<DecodedAuction>) -> Map<
    Seq<char>,
    i64,
>
    decreases s.len(),
{
    if s.len() == 0 {
        m
    } else {
        apply_obs(fold_auctions(m, s.drop_last()), obs_of(s.last()))
    }
}

/// The observations one page contributes, in order, skips left out.
pub open spec fn page_obs(s: Seq<DecodedAuction>) -> Seq<(Seq<char>, i64)>
    decreases s.len(),
{
    if s.len() == 0 {
        Seq::empty()
    } else {
        page_obs(s.drop_last()) + match obs_of(s.last()) {
            None => Seq::empty(),
            Some(o) => seq![o],
        }
    }
}

/// Folding a page equals folding the flat sequence of its observations.
pub proof fn lemma_fold_auctions_obs(m: Map<Seq<char>, i64>, s: Seq<DecodedAuction>)
    ensures
        fold_auctions(m, s) == fold_obs(m, page_obs(s)),
    decreases s.len(),
{
    if s.len() > 0 {
        lemma_fold_auctions_obs(m, s.drop_last());
        match obs_of(s.last()) {
            None => {
                assert(page_obs(s) =~= page_obs(s.drop_last()));
            },
            Some(o) => {
                assert(page_obs(s) =~= page_obs(s.drop_last()).push(o));
                lemma_fold_snoc(m, page_obs(s.drop_last()), o);
            },
        }
    }
}

/// Folding every page of a scan, in the order the pages are handed in.
pub open spec fn fold_pages(m: Map<Seq<char>, i64>, ps: Seq<Vec<DecodedAuction>>) -> Map<
    Seq<char>,
    i64,
>
    decreases ps.len(),
{
    if ps.len() == 0 {
        m
    } else {
        fold_auctions(fold_pages(m, ps.drop_last()), ps.last()@)
    }
}

/// The observations a whole scan contributes, page by page.
pub open spec fn scan_obs(ps: Seq<Vec<DecodedAuction>>) -> Seq<(Seq<char>, i64)>
    decreases ps.len(),
{
    if ps.len() == 0 {
        Seq::empty()
    } else {
        scan_obs(ps.drop_last()) + page_obs(ps.last()@)
    }
}

proof fn lemma_fold_obs_concat(
    m: Map<Seq<char>, i64>,
    a: Seq<(Seq<char>, i64)>,
    b: Seq<(Seq<char>, i64)>,
)
    ensures
        fold_obs(m, a + b) == fold_obs(fold_obs(m, a), b),
    decreases b.len(),
{
    if b.len() == 0 {
        assert(a + b =~= a);
    } else {
        assert(a + b =~= (a + b.drop_last()).push(b.last()));
        assert(b.drop_last().push(b.last()) =~= b);
        lemma_fold_obs_concat(m, a, b.drop_last());
        lemma_fold_snoc(m, a + b.drop_last(), b.last());
        lemma_fold_snoc(fold_obs(m, a), b.drop_last(), b.last());
    }
}

/// Folding a whole scan equals folding the flat sequence of all its
/// observations.
pub proof fn lemma_fold_pages_obs(m: Map<Seq<char>, i64>, ps: Seq<Vec<DecodedAuction>>)
    ensures
        fold_pages(m, ps) == fold_obs(m, scan_obs(ps)),
    decreases ps.len(),
{
    if ps.len() > 0 {
        lemma_fold_pages_obs(m, ps.drop_last());
        lemma_fold_auctions_obs(fold_pages(m, ps.drop_last()), ps.last()@);
        lemma_fold_obs_concat(m, scan_obs(ps.drop_last()), page_obs(ps.last()@));
    }
}

/// Feeds one decoded listing into the aggregate: skipped unless it is
/// buy-it-now, decoded, and classified; otherwise its price is merged under
/// its canonical identity.
pub fn process_auction(agg: &mut PriceAggregate, a: &DecodedAuction)
    ensures
        final(agg)@ == apply_obs(old(agg)@, obs_of(*a)),
{
    if !a.bin {
        return ;
    }
    match &a.item {
        None => {},
        Some(nbt) => {
            match classify(nbt) {
                None => {},
                Some(id) => {
                    agg.merge(id, a.starting_bid);
                },
            }
        },
    }
}

/// Feeds one page's decoded listings into the aggregate, in order.
pub fn process_page(agg: &mut PriceAggregate, auctions: &Vec<DecodedAuction>)
    ensures
        final(agg)@ == fold_auctions(old(agg)@, auctions@),
{
    let mut i: usize = 0;
    while i < auctions.len()
        invariant
            i <= auctions@.len(),
            agg@ == fold_auctions(old(agg)@, auctions@.take(i as int)),
        decreases auctions@.len() - i,
    {
        process_auction(agg, &auctions[i]);
        i = i + 1;
        proof {
            assert(auctions@.take(i as int).drop_last() =~= auctions@.take(i - 1));
            assert(auctions@.take(i as int).last() == auctions@[i - 1]);
        }
    }
    proof {
        assert(auctions@.take(auctions@.len() as int) =~= auctions@);
    }
}

/// Builds one scan's aggregate from its decoded pages, starting empty.
pub fn build_aggregate(pages: &Vec<Vec<DecodedAuction>>) -> (agg: PriceAggregate)
    ensures
        agg@ == fold_pages(empty_prices(), pages@),
{
    let mut agg = PriceAggregate::new();
    let mut i: usize = 0;
    while i < pages.len()
        invariant
            i <= pages@.len(),
            agg@ == fold_pages(empty_prices(), pages@.take(i as int)),
        decreases pages@.len() - i,
    {
        process_page(&mut agg, &pages[i]);
        i = i + 1;
        proof {
            assert(pages@.take(i as int).drop_last() =~= pages@.take(i - 1));
            assert(pages@.take(i as int).last() == pages@[i - 1]);
        }
    }
    proof {
        assert(pages@.take(pages@.len() as int) =~= pages@);
    }
    agg
}

/// The aggregated price of every identity a scan observes is at most each
/// price observed for it, and every observed identity is present.
pub proof fn lemma_scan_min(ps: Seq<Vec<DecodedAuction>>, i: int)
    requires
        0 <= i < scan_obs(ps).len(),
    ensures
        fold_pages(empty_prices(), ps).dom().contains(scan_obs(ps)[i].0),
        fold_pages(empty_prices(), ps)[scan_obs(ps)[i].0] <= scan_obs(ps)[i].1,
{
    lemma_fold_pages_obs(empty_prices(), ps);
    lemma_fold_min(empty_prices(), scan_obs(ps), i);
}

/// The price a scan stores for an identity was itself observed for that
/// identity: together with the bound above, it is exactly the minimum.
pub proof fn lemma_scan_min_attained(ps: Seq<Vec<DecodedAuction>>, k: Seq<char>)
    requires
        fold_pages(empty_prices(), ps).dom().contains(k),
    ensures
        exists|i: int|
            0 <= i < scan_obs(ps).len() && (#[trigger] scan_obs(ps)[i]).0 == k && scan_obs(
                ps,
            )[i].1 == fold_pages(empty_prices(), ps)[k],
{
    lemma_fold_pages_obs(empty_prices(), ps);
    lemma_fold_attained(empty_prices(), scan_obs(ps), k);
}

/// Two scans whose pages carry the same observations, in whatever order the
/// concurrent fetches completed, build the same aggregate.
pub proof fn lemma_scan_order_irrelevant(ps1: Seq<Vec<DecodedAuction>>, ps2: Seq<Vec<DecodedAuction>>)
    requires
        scan_obs(ps1).to_multiset() == scan_obs(ps2).to_multiset(),
    ensures
        fold_pages(empty_prices(), ps1) == fold_pages(empty_prices(), ps2),
{
    lemma_fold_pages_obs(empty_prices(), ps1);
    lemma_fold_pages_obs(empty_prices(), ps2);
    lemma_fold_permutation(empty_prices(), scan_obs(ps1), scan_obs(ps2));
}

proof fn lemma_scan_obs_pull(ps: Seq<Vec<DecodedAuction>>, j: int)
    requires
        0 <= j < ps.len(),
    ensures
        scan_obs(ps).to_multiset() == scan_obs(ps.remove(j)).to_multiset().add(
            page_obs(ps[j]@).to_multiset(),
        ),
    decreases ps.len(),
{
    broadcast use vstd::multiset::group_multiset_axioms;

    vstd::seq_lib::lemma_multiset_commutative(scan_obs(ps.drop_last()), page_obs(ps.last()@));
    if j == ps.len() - 1 {
        assert(ps.remove(j) =~= ps.drop_last());
    } else {
        lemma_scan_obs_pull(ps.drop_last(), j);
        assert(ps.remove(j).drop_last() =~= ps.drop_last().remove(j));
        assert(ps.remove(j).last() == ps.last());
        vstd::seq_lib::lemma_multiset_commutative(
            scan_obs(ps.drop_last().remove(j)),
            page_obs(ps.last()@),
        );
        assert(scan_obs(ps).to_multiset() =~= scan_obs(ps.remove(j)).to_multiset().add(
            page_obs(ps[j]@).to_multiset(),
        ));
    }
}

proof fn lemma_scan_obs_permutation(ps1: Seq<Vec<DecodedAuction>>, ps2: Seq<Vec<DecodedAuction>>)
    requires
        ps1.to_multiset() == ps2.to_multiset(),
    ensures
        scan_obs(ps1).to_multiset() == scan_obs(ps2).to_multiset(),
    decreases ps1.len(),
{
    broadcast use vstd::seq_lib::group_to_multiset_ensures;
    broadcast use vstd::multiset::group_multiset_axioms;

    if ps1.len() == 0 {
        assert(ps2.to_multiset().len() == 0);
        assert(ps2.len() == 0);
    } else {
        let a = ps1.last();
        assert(ps1.to_multiset().count(a) > 0);
        assert(ps2.to_multiset().count(a) > 0);
        assert(ps2.contains(a));
        let j = choose|j: int| 0 <= j < ps2.len() && ps2[j] == a;
        lemma_scan_obs_pull(ps1, ps1.len() - 1);
        assert(ps1.remove(ps1.len() - 1) =~= ps1.drop_last());
        lemma_scan_obs_pull(ps2, j);
        assert(ps1.drop_last().to_multiset() == ps1.to_multiset().remove(a));
        assert(ps2.remove(j).to_multiset() == ps2.to_multiset().remove(a));
        lemma_scan_obs_permutation(ps1.drop_last(), ps2.remove(j));
    }
}

/// A scan whose pages arrive in any completion order builds the same
/// aggregate: the pages themselves may be fed in permuted order.
pub proof fn lemma_page_order_irrelevant(
    ps1: Seq<Vec<DecodedAuction>>,
    ps2: Seq<Vec<DecodedAuction>>,
)
    requires
        ps1.to_multiset() == ps2.to_multiset(),
    ensures
        fold_pages(empty_prices(), ps1) == fold_pages(empty_prices(), ps2),
{
    lemma_scan_obs_permutation(ps1, ps2);
    lemma_scan_order_irrelevant(ps1, ps2);
}

/// Runs the decision part of one scan. When the first page carries no page
/// count the scan aborts: nothing is published, the store keeps its
/// previous snapshot, and `None` is returned. Otherwise the decoded pages
/// are folded into a fresh aggregate, its snapshot replaces the published
/// one, and the published body is returned: the JSON rendering of exactly
/// the fold of the scan's observations.
pub fn run_scan(
    store: &SnapshotStore,
    page0: &PageResult,
    pages: &Vec<Vec<DecodedAuction>>,
) -> (r: Option<String>)
    requires
        store.wf(),
    ensures
        r is Some <==> gate_spec(*page0) is Some,
        r matches Some(body) ==> exists|entries: Seq<(Seq<char>, i64)>|
            body@ == json_of(entries) && #[trigger] entries_match(
                entries,
                fold_pages(empty_prices(), pages@),
            ),
{
    match scan_gate(page0) {
        None => None,
        Some(_total) => {
            let agg = build_aggregate(pages);
            let snap = make_snapshot(&agg);
            let body = snap.body.clone();
            proof {
                assert(body@ == json_of(snap.entries@) && entries_match(snap.entries@, agg@));
            }
            store.publish(snap);
            Some(body)
        },
    }
}

} // verus!
