use vstd::prelude::*;
use crate::selector::{Selector, selector_matches};
use crate::wallet::DerivedWallet;

verus! {

/// The subsequence of results that the strategy accepts, in arrival order:
/// what the sink reports when it takes the results in one by one.
pub open spec fn hits(sel: Selector, results: Seq<DerivedWallet>) -> Seq<DerivedWallet>
    decreases results.len(),
{
    if results.len() == 0 {
        Seq::empty()
    } else {
        let rest = hits(sel, results.drop_last());
        if selector_matches(sel, results.last().address.data@) {
            rest.push(results.last())
        } else {
            rest
        }
    }
}

/// Extending the arrivals by one wallet extends the reported matches by
/// that wallet exactly when the strategy accepts it.
pub proof fn lemma_hits_push(sel: Selector, results: Seq<DerivedWallet>, w: DerivedWallet)
    ensures
        hits(sel, results.push(w)) == if selector_matches(sel, w.address.data@) {
            hits(sel, results).push(w)
        } else {
            hits(sel, results)
        },
{
    assert(results.push(w).drop_last() =~= results);
    assert(results.push(w).last() == w);
}

/// Law: under the all-accepting strategy every result is reported, in
/// arrival order — none is lost and none is reordered.
pub proof fn lemma_match_all_reports_everything(results: Seq<DerivedWallet>)
    ensures
        hits(Selector::MatchAll, results) == results,
    decreases results.len(),
{
    if results.len() > 0 {
        lemma_match_all_reports_everything(results.drop_last());
        assert(hits(Selector::MatchAll, results) =~= results);
    }
}

/// What the result sink asks its driver to do after taking in one wallet.
#[derive(Debug, PartialEq, Eq)]
pub struct SinkOutcome {
    /// A progress mark is due: this was the thousandth wallet examined
    /// since the count last returned to zero.
    pub progress: bool,
    /// The wallet matched the selector and is to be reported, together
    /// with how many wallets were examined since the previous match (or
    /// since the start).
    pub matched: Option<u64>,
}

/// The result sink: the single sequential consumer of derivation results.
/// It tests each wallet against the selector, records the matches, and
/// keeps the rolling count of wallets examined since the last match.
pub struct Sink {
    pub selector: Selector,
    pub count: u64,
    pub matched: Vec<DerivedWallet>,
}

impl Sink {
    /// A sink with the given selector and a fresh counter.
    pub fn new(selector: Selector) -> (r: Sink)
        ensures
            r.selector == selector,
            r.count == 0,
            r.matched@.len() == 0,
    {
        Sink { selector, count: 0, matched: Vec::new() }
    }

    /// Takes in one wallet, in arrival order: the counter moves up; if the
    /// selector accepts the address, the wallet is recorded, the report
    /// carries the count examined since the previous match, and the counter
    /// returns to zero. The selector itself is never changed.
    pub fn process(&mut self, wallet: DerivedWallet) -> (r: SinkOutcome)
        requires
            old(self).count < u64::MAX,
            wallet.wf(),
        ensures
            final(self).selector == old(self).selector,
            r.progress == ((old(self).count + 1) % 1000 == 0),
            selector_matches(old(self).selector, wallet.address.data@) ==> {
                &&& r.matched == Some((old(self).count + 1) as u64)
                &&& final(self).count == 0
                &&& final(self).matched@ == old(self).matched@.push(wallet)
            },
            !selector_matches(old(self).selector, wallet.address.data@) ==> {
                &&& r.matched is None
                &&& final(self).count == old(self).count + 1
                &&& final(self).matched@ == old(self).matched@
            },
    {
        self.count = self.count + 1;
        let progress = self.count % 1000 == 0;
        let hit = self.selector.matches(&wallet.address);
        if hit {
            let examined = self.count;
            self.count = 0;
            self.matched.push(wallet);
            SinkOutcome { progress, matched: Some(examined) }
        } else {
            SinkOutcome { progress, matched: None }
        }
    }
}

} // verus!
