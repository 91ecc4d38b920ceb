//! One page of auction listings: classifying the upstream response into a
//! page result, and the page-count gate that starts a scan.

use vstd::prelude::*;

verus! {

/// One listing as it appears in the upstream response; absent fields stay
/// absent.
pub struct RawAuction {
    pub has_bin: bool,
    pub starting_bid: Option<i64>,
    pub item_bytes: Option<String>,
}

/// One page as it appears in the upstream response.
pub struct RawPage {
    pub success: bool,
    pub cause: Option<String>,
    pub total_pages: Option<i64>,
    pub auctions: Option<Vec<RawAuction>>,
}

/// Why a page could not be used; page-scoped, never fatal.
pub enum FailReason {
    /// The upstream endpoint could not be reached.
    Transport,
    /// The body was not a well-formed page.
    Malformed,
    /// The upstream reported a logical failure, with its cause.
    Upstream(String),
}

/// A well-formed listing: buy-it-now flag, price, and the encoded item
/// blob.
pub struct AuctionListing {
    pub bin: bool,
    pub starting_bid: i64,
    pub item_bytes: String,
}

/// The outcome of fetching one page.
pub enum PageResult {
    Fetched { total_pages: Option<i64>, listings: Vec<AuctionListing> },
    Failed { reason: FailReason },
}

/// The fields of a listing as plain mathematical values.
pub open spec fn listing_view(a: AuctionListing) -> (bool, i64, Seq<char>) {
    (a.bin, a.starting_bid, a.item_bytes@)
}

/// The listing views of a sequence of listings.
pub open spec fn listings_view(s: Seq<AuctionListing>) -> Seq<(bool, i64, Seq<char>)> {
    s.map_values(|a: AuctionListing| listing_view(a))
}

/// The well-formed listings of a raw page, in order; a listing missing its
/// price or its item blob is dropped.
pub open spec fn convert_auctions(s: Seq<RawAuction>) -> Seq<(bool, i64, Seq<char>)>
    decreases s.len(),
{
    if s.len() == 0 {
        Seq::empty()
    } else {
        let rest = convert_auctions(s.drop_last());
        let a = s.last();
        if a.starting_bid is Some && a.item_bytes is Some {
            rest.push((a.has_bin, a.starting_bid->Some_0, a.item_bytes->Some_0@))
        } else {
            rest
        }
    }
}

/// The cause string an upstream failure carries, or empty if none came.
pub open spec fn cause_view(c: Option<String>) -> Seq<char> {
    match c {
        Some(s) => s@,
        None => Seq::empty(),
    }
}

/// Classifies a parsed upstream body into a page result: an
/// upstream-reported failure keeps its cause, a body without listings is
/// malformed, and an intact body yields its listings with any malformed
/// listing dropped.
pub fn classify_page(p: &RawPage) -> (r: PageResult)
    ensures
        !p.success ==> (r matches PageResult::Failed { reason: FailReason::Upstream(c) }
            && c@ == cause_view(p.cause)),
        p.success && p.auctions is None ==> r matches PageResult::Failed {
            reason: FailReason::Malformed,
        },
        p.success && p.auctions is Some ==> (r matches PageResult::Fetched { total_pages, listings }
            && total_pages == p.total_pages && listings_view(listings@) == convert_auctions(
            p.auctions->Some_0@,
        )),
{
    if !p.success {
        let cause = match &p.cause {
            Some(c) => c.clone(),
            None => String::new(),
        };
        return PageResult::Failed { reason: FailReason::Upstream(cause) };
    }
    match &p.auctions {
        None => PageResult::Failed { reason: FailReason::Malformed },
        Some(raw) => {
            let mut listings: Vec<AuctionListing> = Vec::new();
            let mut i: usize = 0;
            while i < raw.len()
                invariant
                    i <= raw@.len(),
                    listings_view(listings@) == convert_auctions(raw@.take(i as int)),
                decreases raw@.len() - i,
            {
                let a = &raw[i];
                match (&a.starting_bid, &a.item_bytes) {
                    (Some(bid), Some(bytes)) => {
                        listings.push(
                            AuctionListing {
                                bin: a.has_bin,
                                starting_bid: *bid,
                                item_bytes: bytes.clone(),
                            },
                        );
                    },
                    _ => {},
                }
                i = i + 1;
                proof {
                    assert(raw@.take(i as int).drop_last() =~= raw@.take(i - 1));
                    assert(raw@.take(i as int).last() == raw@[i - 1]);
                    assert(listings_view(listings@) =~= convert_auctions(raw@.take(i as int)));
                }
            }
            proof {
                assert(raw@.take(raw@.len() as int) =~= raw@);
            }
            PageResult::Fetched { total_pages: p.total_pages, listings }
        },
    }
}

/// The page count a scan may proceed with: present only when the first page
/// succeeded and carried one.
pub open spec fn gate_spec(page0: PageResult) -> Option<i64> {
    match page0 {
        PageResult::Fetched { total_pages: Some(t), .. } => Some(t),
        _ => None,
    }
}

/// The scan gate: the total page count from the first page, or `None` when
/// the scan must be aborted because the first page failed or carried no
/// page count.
pub fn scan_gate(page0: &PageResult) -> (r: Option<i64>)
    ensures
        r == gate_spec(*page0),
{
    match page0 {
        PageResult::Fetched { total_pages: Some(t), .. } => Some(*t),
        _ => None,
    }
}

} // verus!
