//! The chain reconstructor: from flat, rank-ordered rows to one nested chain
//! per match.

use crate::error::Error;
use crate::node::{rows_of, Node};
use std::collections::VecDeque;
use vstd::prelude::*;

verus! {

/// `a` is a rank that sorts strictly before the rank `b`.
pub open spec fn rank_before(a: Option<i64>, b: Option<i64>) -> bool {
    match (a, b) {
        (Some(x), Some(y)) => x < y,
        _ => false,
    }
}

/// `child` is the row that follows `parent` on the ascent of one match:
/// it points at `parent` and carries the same rank.
pub open spec fn linked(parent: Node, child: Node) -> bool {
    child.parent_id == Some(parent.primary_id) && child.rank == parent.rank
}

/// Row `i` may follow row `i - 1`: as its child on the same chain, or as the
/// top of the chain of a later match.
pub open spec fn joins(rows: Seq<Node>, i: int) -> bool {
    linked(rows[i - 1], rows[i]) || rank_before(rows[i - 1].rank, rows[i].rank)
}

/// Row `i` is the child of row `i - 1` on the ascent of one match.
pub open spec fn follows(rows: Seq<Node>, i: int) -> bool {
    linked(rows[i - 1], rows[i])
}

/// The rows are the ascent of one match, top first: every row is the parent
/// of the next.
pub open spec fn is_chain(rows: Seq<Node>) -> bool {
    forall|i: int| 0 < i < rows.len() ==> #[trigger] follows(rows, i)
}

/// The records on the displayed paths of the chains, one chain after the other.
pub open spec fn flatten(chains: Seq<Node>) -> Seq<Node>
    decreases chains.len(),
{
    if chains.len() == 0 {
        Seq::empty()
    } else {
        chains[0].path() + flatten(chains.skip(1))
    }
}

/// The ranks of the chains rise strictly from each chain to the next.
pub open spec fn ranks_ascend(chains: Seq<Node>) -> bool {
    forall|j: int, k: int|
        0 <= j < k < chains.len() ==> rank_before(#[trigger] chains[j].rank, #[trigger] chains[k].rank)
}

/// The rows are grouped by match in ascending rank, and within a match every
/// row is the parent of the next.
pub open spec fn well_ordered(rows: Seq<Node>) -> bool {
    forall|i: int| 0 < i < rows.len() ==> #[trigger] joins(rows, i)
}

/// The chains that the rows form, in the order of the rows: a row that links
/// to its successor owns the chain that the successor starts, any other row
/// is the end of its chain.
pub open spec fn chains_of(rows: Seq<Node>) -> Seq<Node>
    decreases rows.len(),
{
    if rows.len() == 0 {
        Seq::empty()
    } else {
        let rest = chains_of(rows.skip(1));
        if rows.len() >= 2 && linked(rows[0], rows[1]) {
            rest.update(0, rows[0].over(rest[0]))
        } else {
            seq![rows[0].row()] + rest
        }
    }
}

/// The first chain starts with the first row.
pub proof fn lemma_first_chain(rows: Seq<Node>)
    requires
        rows.len() > 0,
    ensures
        chains_of(rows).len() > 0,
        chains_of(rows)[0].row() == rows[0].row(),
    decreases rows.len(),
{
    if rows.len() >= 2 {
        lemma_first_chain(rows.skip(1));
    }
}

/// Reconstruction loses nothing and invents nothing: read chain by chain,
/// top to leaf, the result holds the records of the rows in their order.
pub proof fn lemma_rows_kept(rows: Seq<Node>)
    ensures
        flatten(chains_of(rows)) == rows_of(rows),
    decreases rows.len(),
{
    if rows.len() == 0 {
        assert(flatten(chains_of(rows)) =~= rows_of(rows));
    } else {
        let below = rows.skip(1);
        let rest = chains_of(below);
        let all = chains_of(rows);
        lemma_rows_kept(below);
        assert(rows_of(rows) =~= seq![rows[0].row()] + rows_of(below));
        if rows.len() >= 2 && linked(rows[0], rows[1]) {
            lemma_first_chain(below);
            assert(all.skip(1) =~= rest.skip(1));
            assert(all[0].path() =~= seq![rows[0].row()] + rest[0].path());
            assert(flatten(all) =~= seq![rows[0].row()] + flatten(rest));
        } else {
            assert(all.skip(1) =~= rest);
            assert(all[0].path() =~= seq![rows[0].row()]);
            assert(flatten(all) =~= seq![rows[0].row()] + flatten(rest));
        }
    }
}

/// Reconstruction undoes an ascent: the rows of one chain, top first, come
/// back as a single node, and the path displayed beneath that node is the
/// chain itself, record for record, from the top down to the match. This
/// holds whether the top row is a root or an ascent that ended early at a
/// row whose parent is missing.
pub proof fn lemma_chain_round_trip(chain: Seq<Node>)
    requires
        chain.len() > 0,
        is_chain(chain),
    ensures
        well_ordered(chain),
        chains_of(chain).len() == 1,
        chains_of(chain)[0].path() == rows_of(chain),
    decreases chain.len(),
{
    assert forall|i: int| 0 < i < chain.len() implies #[trigger] joins(chain, i) by {
        assert(follows(chain, i));
    }
    if chain.len() == 1 {
        assert(chains_of(chain.skip(1)) =~= Seq::<Node>::empty());
        assert(chains_of(chain)[0].path() =~= rows_of(chain));
    } else {
        let below = chain.skip(1);
        assert forall|i: int| 0 < i < below.len() implies #[trigger] follows(below, i) by {
            assert(follows(chain, i + 1));
        }
        lemma_chain_round_trip(below);
        assert(follows(chain, 1));
        assert(chains_of(chain)[0].path() =~= rows_of(chain));
    }
}

/// A match that has no ancestors is a chain of its own: one node, nothing
/// displayed beneath it.
pub proof fn lemma_lone_match(m: Node)
    ensures
        well_ordered(seq![m]),
        chains_of(seq![m]) == seq![m.row()],
        chains_of(seq![m])[0].displayed_child is None,
{
    let rows = seq![m];
    assert(chains_of(rows.skip(1)) =~= Seq::<Node>::empty());
    assert(chains_of(rows) =~= seq![m.row()]);
}

/// Wherever a root that is itself a match stands among the rows, it comes
/// back as a node of its own with nothing displayed beneath it.
pub proof fn lemma_root_match(rows: Seq<Node>, i: int)
    requires
        0 <= i < rows.len(),
        rows[i].parent_id is None,
        i + 1 < rows.len() ==> !linked(rows[i], rows[i + 1]),
    ensures
        exists|k: int| 0 <= k < chains_of(rows).len() && #[trigger] chains_of(rows)[k] == rows[i].row(),
    decreases rows.len(),
{
    let rest = chains_of(rows.skip(1));
    if i == 0 {
        assert(chains_of(rows)[0] == rows[0].row());
    } else {
        lemma_root_match(rows.skip(1), i - 1);
        let k = choose|k: int| 0 <= k < rest.len() && #[trigger] rest[k] == rows[i].row();
        lemma_first_chain(rows.skip(1));
        if linked(rows[0], rows[1]) {
            assert(k != 0);
            assert(chains_of(rows)[k] == rows[i].row());
        } else {
            assert(chains_of(rows)[k + 1] == rows[i].row());
        }
    }
}

/// Among well-ordered rows every chain is the ascent of one match, and the
/// chains stand in strictly ascending rank: one chain for each rank.
pub proof fn lemma_one_chain_per_match(rows: Seq<Node>)
    requires
        well_ordered(rows),
    ensures
        forall|k: int| 0 <= k < chains_of(rows).len() ==> is_chain(#[trigger] chains_of(rows)[k].path()),
        ranks_ascend(chains_of(rows)),
    decreases rows.len(),
{
    if rows.len() > 0 {
        let below = rows.skip(1);
        let rest = chains_of(below);
        let all = chains_of(rows);
        assert forall|i: int| 0 < i < below.len() implies #[trigger] joins(below, i) by {
            assert(joins(rows, i + 1));
        }
        lemma_one_chain_per_match(below);
        if rows.len() >= 2 {
            lemma_first_chain(below);
            assert(joins(rows, 1));
        }
        if rows.len() >= 2 && linked(rows[0], rows[1]) {
            let top = all[0].path();
            assert(top =~= seq![rows[0].row()] + rest[0].path());
            assert(rest[0].path()[0] == rest[0].row());
            assert forall|i: int| 0 < i < top.len() implies #[trigger] follows(top, i) by {
                if i > 1 {
                    assert(follows(rest[0].path(), i - 1));
                }
            }
            assert forall|k: int| 0 <= k < all.len() implies is_chain(#[trigger] all[k].path()) by {
                if k > 0 {
                    assert(all[k] == rest[k]);
                }
            }
            assert forall|j: int, k: int| 0 <= j < k < all.len() implies rank_before(
                #[trigger] all[j].rank,
                #[trigger] all[k].rank,
            ) by {
                assert(rank_before(rest[j].rank, rest[k].rank));
            }
        } else {
            assert forall|k: int| 0 <= k < all.len() implies is_chain(#[trigger] all[k].path()) by {
                if k > 0 {
                    assert(all[k] == rest[k - 1]);
                } else {
                    assert(all[0].path() =~= seq![rows[0].row()]);
                }
            }
            assert forall|j: int, k: int| 0 <= j < k < all.len() implies rank_before(
                #[trigger] all[j].rank,
                #[trigger] all[k].rank,
            ) by {
                if j > 0 {
                    assert(rank_before(rest[j - 1].rank, rest[k - 1].rank));
                } else if k > 1 {
                    assert(rank_before(rest[0].rank, rest[k - 1].rank));
                }
            }
        }
    }
}

fn is_linked(parent: &Node, child: &Node) -> (b: bool)
    ensures
        b == linked(*parent, *child),
{
    let points = match child.parent_id {
        Some(p) => p == parent.primary_id,
        None => false,
    };
    let same_rank = match (child.rank, parent.rank) {
        (Some(x), Some(y)) => x == y,
        (None, None) => true,
        _ => false,
    };
    points && same_rank
}

fn is_rank_before(a: Option<i64>, b: Option<i64>) -> (r: bool)
    ensures
        r == rank_before(a, b),
{
    match (a, b) {
        (Some(x), Some(y)) => x < y,
        _ => false,
    }
}

/// Rebuilds the chains of a page from its flat rows.
///
/// The rows are consumed from the tail, so each chain is met leaf first. The
/// row in hand takes the chain below it as its displayed child; a chain is
/// complete when the next row belongs to an earlier match, or when the rows
/// are used up. A chain whose top row still names a parent is kept as it is:
/// its top row is shown as a root.
pub fn reconstruct(rows: Vec<Node>) -> (result: Result<VecDeque<Node>, Error>)
    ensures
        result is Ok <==> well_ordered(rows@),
        result matches Ok(chains) ==> {
            &&& chains@ == chains_of(rows@)
            &&& flatten(chains@) == rows_of(rows@)
            &&& forall|k: int| 0 <= k < chains@.len() ==> is_chain(#[trigger] chains@[k].path())
            &&& ranks_ascend(chains@)
        },
        result matches Err(e) ==> e == Error::MalformedAscentInput,
{
    let ghost all = rows@;
    let mut rest = rows;
    let mut hierarchy: VecDeque<Node> = VecDeque::new();
    let mut child: Option<Node> = None;
    while rest.len() > 0
        invariant
            all == rows@,
            rest@.len() <= all.len(),
            rest@ == all.take(rest@.len() as int),
            well_ordered(all.skip(rest@.len() as int)),
            child is None <==> rest@.len() == all.len(),
            child is None ==> hierarchy@.len() == 0,
            child matches Some(c) ==> seq![c] + hierarchy@ == chains_of(all.skip(rest@.len() as int)),
        decreases rest.len(),
    {
        let ghost m = rest@.len() as int;
        let ghost below = all.skip(m);
        let ghost from_here = all.skip(m - 1);
        let mut parent = rest.pop().unwrap();
        assert(parent == all[m - 1]);
        assert(from_here.skip(1) == below);
        match child {
            None => {
                parent.displayed_child = None;
                assert(chains_of(below) == Seq::<Node>::empty());
            },
            Some(c) => {
                proof {
                    lemma_first_chain(below);
                    assert((seq![c] + hierarchy@)[0] == c);
                }
                if is_linked(&parent, &c) {
                    parent.displayed_child = Some(Box::new(c));
                } else if is_rank_before(parent.rank, c.rank) {
                    hierarchy.push_front(c);
                    parent.displayed_child = None;
                } else {
                    assert(!joins(all, m));
                    return Err(Error::MalformedAscentInput);
                }
                assert(joins(from_here, 1));
            },
        }
        assert forall|i: int| 0 < i < from_here.len() implies #[trigger] joins(from_here, i) by {
            if i > 1 {
                assert(joins(below, i - 1));
            }
        }
        child = Some(parent);
    }
    proof {
        assert(all.skip(0) == all);
        lemma_rows_kept(all);
        lemma_one_chain_per_match(all);
    }
    match child {
        None => {},
        Some(c) => {
            hierarchy.push_front(c);
        },
    }
    Ok(hierarchy)
}

} // verus!
