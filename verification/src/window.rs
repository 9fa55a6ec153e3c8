//! Page windows over the ranks of a search.

use crate::chain::{rank_before, ranks_ascend};
use crate::node::Node;
use std::collections::VecDeque;
use vstd::prelude::*;

verus! {

/// Number of ranks on one page.
pub const STEP: i64 = 10;

/// `rank` lies on the page that starts at rank `start`.
pub open spec fn in_window(start: i64, rank: Option<i64>) -> bool {
    rank matches Some(r) && start <= r < start + STEP
}

/// The chains whose rank lies on the page that starts at `start`, in their order.
pub open spec fn page_of(chains: Seq<Node>, start: i64) -> Seq<Node> {
    chains.filter(|c: Node| in_window(start, c.rank))
}

/// The ranks that the chains carry.
pub open spec fn ranks_in(chains: Seq<Node>) -> Set<i64> {
    Set::new(|r: i64| exists|k: int| 0 <= k < chains.len() && #[trigger] chains[k].rank == Some(r))
}

/// The highest rank on the page that starts at `start`.
pub fn window_last(start: i64) -> (last: i64)
    ensures
        last == if start + STEP - 1 <= i64::MAX {
            start + STEP - 1
        } else {
            i64::MAX as int
        },
        forall|r: i64| start <= r <= last <==> #[trigger] in_window(start, Some(r)),
{
    if start <= i64::MAX - (STEP - 1) {
        start + (STEP - 1)
    } else {
        i64::MAX
    }
}

/// Whether `rank` lies on the page that starts at `start`.
pub fn rank_in_window(start: i64, rank: Option<i64>) -> (b: bool)
    ensures
        b == in_window(start, rank),
{
    match rank {
        None => false,
        Some(r) => start <= r && r <= window_last(start),
    }
}

/// Keeps the chains of one page and drops the others.
pub fn take_page(chains: VecDeque<Node>, start: i64) -> (page: VecDeque<Node>)
    ensures
        page@ == page_of(chains@, start),
{
    let ghost all = chains@;
    let mut rest = chains;
    let mut page: VecDeque<Node> = VecDeque::new();
    proof {
        reveal(Seq::filter);
        assert(all.take(0) =~= Seq::<Node>::empty());
    }
    while rest.len() > 0
        invariant
            all == chains@,
            rest@.len() <= all.len(),
            rest@ == all.skip(all.len() - rest@.len()),
            page@ == page_of(all.take(all.len() - rest@.len()), start),
        decreases rest.len(),
    {
        let ghost done = all.len() - rest@.len();
        let chain = rest.pop_front().unwrap();
        proof {
            reveal(Seq::filter);
            assert(chain == all[done]);
            assert(all.take(done + 1).drop_last() =~= all.take(done));
            assert(rest@ =~= all.skip(done + 1));
        }
        if rank_in_window(start, chain.rank) {
            page.push_back(chain);
        }
    }
    assert(all.take(all.len() as int) =~= all);
    page
}

/// Paging is a slice of the ranks of the search: a page holds the ranks of
/// the search that lie in its window, each of them and no other.
pub proof fn lemma_page_is_slice(chains: Seq<Node>, start: i64)
    ensures
        forall|r: i64|
            #[trigger] ranks_in(page_of(chains, start)).contains(r) <==> ranks_in(chains).contains(r)
                && start <= r < start + STEP,
{
    let on_page = |c: Node| in_window(start, c.rank);
    let page = chains.filter(on_page);
    assert(page == page_of(chains, start));
    assert forall|r: i64| #[trigger]
        ranks_in(page).contains(r) <==> ranks_in(chains).contains(r) && start <= r < start
            + STEP by {
        if ranks_in(page).contains(r) {
            let k = choose|k: int| 0 <= k < page.len() && #[trigger] page[k].rank == Some(r);
            chains.lemma_filter_pred(on_page, k);
            assert(page.contains(page[k]));
            chains.lemma_filter_contains_rev(on_page, page[k]);
            let j = choose|j: int| 0 <= j < chains.len() && chains[j] == page[k];
            assert(chains[j].rank == Some(r));
        }
        if ranks_in(chains).contains(r) && start <= r < start + STEP {
            let j = choose|j: int| 0 <= j < chains.len() && #[trigger] chains[j].rank == Some(r);
            chains.lemma_filter_contains(on_page, j);
            let k = choose|k: int| 0 <= k < page.len() && page[k] == chains[j];
            assert(page[k].rank == Some(r));
        }
    }
}

/// A page keeps the order of the search: where the ranks of the chains rise
/// strictly, so do the ranks on every page of them.
pub proof fn lemma_page_keeps_order(chains: Seq<Node>, start: i64)
    requires
        ranks_ascend(chains),
    ensures
        ranks_ascend(page_of(chains, start)),
    decreases chains.len(),
{
    reveal(Seq::filter);
    let on_page = |c: Node| in_window(start, c.rank);
    let page = chains.filter(on_page);
    if chains.len() > 0 {
        let before = chains.drop_last();
        let page_before = before.filter(on_page);
        assert forall|j: int, k: int| 0 <= j < k < before.len() implies rank_before(
            #[trigger] before[j].rank,
            #[trigger] before[k].rank,
        ) by {
            assert(rank_before(chains[j].rank, chains[k].rank));
        }
        lemma_page_keeps_order(before, start);
        assert forall|j: int, k: int| 0 <= j < k < page.len() implies rank_before(
            #[trigger] page[j].rank,
            #[trigger] page[k].rank,
        ) by {
            if k < page_before.len() {
                assert(rank_before(page_before[j].rank, page_before[k].rank));
            } else {
                assert(page_before.contains(page_before[j]));
                before.lemma_filter_contains_rev(on_page, page_before[j]);
                let i = choose|i: int| 0 <= i < before.len() && before[i] == page_before[j];
                assert(rank_before(chains[i].rank, chains[chains.len() - 1].rank));
            }
        }
    }
}

/// Every chain of a page has its rank in the window of the page.
pub proof fn lemma_page_in_window(chains: Seq<Node>, start: i64)
    ensures
        forall|k: int|
            0 <= k < page_of(chains, start).len() ==> in_window(
                start,
                (#[trigger] page_of(chains, start)[k]).rank,
            ),
{
    let on_page = |c: Node| in_window(start, c.rank);
    let page = chains.filter(on_page);
    assert forall|k: int| 0 <= k < page.len() implies in_window(start, (#[trigger] page[k]).rank) by {
        chains.lemma_filter_pred(on_page, k);
    }
}

/// A page of chains in strictly ascending rank holds at most one chain for
/// each rank of its window.
pub proof fn lemma_page_fits(chains: Seq<Node>, start: i64)
    requires
        ranks_ascend(chains),
    ensures
        page_of(chains, start).len() <= STEP,
{
    let page = page_of(chains, start);
    lemma_page_keeps_order(chains, start);
    lemma_page_in_window(chains, start);
    if page.len() > 0 {
        lemma_rank_climbs(page, page.len() - 1);
        assert(in_window(start, page[page.len() - 1].rank));
        assert(in_window(start, page[0].rank));
    }
}

proof fn lemma_rank_climbs(chains: Seq<Node>, k: int)
    requires
        ranks_ascend(chains),
        0 <= k < chains.len(),
        chains[0].rank is Some,
        chains[k].rank is Some,
    ensures
        chains[k].rank->0 >= chains[0].rank->0 + k,
    decreases k,
{
    if k > 0 {
        assert(rank_before(chains[k - 1].rank, chains[k].rank));
        lemma_rank_climbs(chains, k - 1);
    }
}

/// Two pages whose windows follow each other share no rank, and between them
/// they hold every rank of the search from the start of the first window to
/// the end of the second.
pub proof fn lemma_adjacent_pages(chains: Seq<Node>, start: i64)
    requires
        start + STEP <= i64::MAX,
    ensures
        ranks_in(page_of(chains, start)).disjoint(ranks_in(page_of(chains, (start + STEP) as i64))),
        forall|r: i64|
            ranks_in(chains).contains(r) && start <= r < start + 2 * STEP <==> ranks_in(
                page_of(chains, start),
            ).contains(r) || ranks_in(page_of(chains, (start + STEP) as i64)).contains(r),
{
    lemma_page_is_slice(chains, start);
    lemma_page_is_slice(chains, (start + STEP) as i64);
}

} // verus!
