//! The children expander: the direct children of one node, without the one
//! that is already on display.

use crate::error::Error;
use crate::node::{rows_of, Node};
use vstd::prelude::*;

verus! {

/// What a children request carries.
#[derive(Debug)]
pub struct ChildrenParams {
    pub parent_id: i64,
    /// The child that the view already shows beneath the parent, if any.
    pub displayed_child_id: Option<i64>,
}

/// The children to show beneath a node.
#[derive(Debug)]
pub struct ChildrenTemplate {
    pub nodes: Vec<Node>,
}

/// What the store is asked for: the records whose parent is `parent_id`,
/// without the record `displayed_child_id`.
#[derive(Debug, Clone, Copy, PartialEq, Eq, Structural)]
pub struct ChildrenQuery {
    pub parent_id: i32,
    pub displayed_child_id: Option<i32>,
}

/// How a children request goes on.
#[derive(Debug)]
pub enum ChildrenStep {
    /// The children are known without the store.
    Done(ChildrenTemplate),
    /// The store has to answer this query first.
    Fetch(ChildrenQuery),
}

/// `id` can be the identifier of a record.
pub open spec fn is_record_id(id: i64) -> bool {
    i32::MIN <= id <= i32::MAX
}

/// The record that a requested child id can stand for, if any.
pub open spec fn displayed_record(displayed_child_id: Option<i64>) -> Option<i32> {
    match displayed_child_id {
        Some(id) if is_record_id(id) => Some(id as i32),
        _ => None,
    }
}

/// `row` is a child of `parent_id` other than the displayed one.
pub open spec fn is_other_child(row: Node, parent_id: i32, displayed_child_id: Option<i32>) -> bool {
    row.parent_id == Some(parent_id) && displayed_child_id != Some(row.primary_id)
}

/// The direct children of `parent_id` among the rows, in their order,
/// without the displayed one and with nothing displayed beneath them.
pub open spec fn children_of(
    rows: Seq<Node>,
    parent_id: i32,
    displayed_child_id: Option<i32>,
) -> Seq<Node> {
    rows_of(rows.filter(|row: Node| is_other_child(row, parent_id, displayed_child_id)))
}

/// Picks the children of `parent_id` out of the rows, leaving out the child
/// that is already displayed. One level only: nothing is displayed beneath
/// the children that come back.
pub fn expand_children(parent_id: i32, displayed_child_id: Option<i32>, rows: Vec<Node>) -> (children:
    Vec<Node>)
    ensures
        children@ == children_of(rows@, parent_id, displayed_child_id),
        forall|k: int|
            0 <= k < children@.len() ==> {
                &&& (#[trigger] children@[k]).parent_id == Some(parent_id)
                &&& displayed_child_id != Some(children@[k].primary_id)
                &&& children@[k].displayed_child is None
            },
{
    let ghost wanted = |row: Node| is_other_child(row, parent_id, displayed_child_id);
    let mut children: Vec<Node> = Vec::new();
    proof {
        reveal(Seq::filter);
    }
    for row in it: rows.into_iter()
        invariant
            it.seq() == rows@,
            wanted == |row: Node| is_other_child(row, parent_id, displayed_child_id),
            children@ == rows_of(rows@.take(it.index() as int).filter(wanted)),
            forall|k: int|
                0 <= k < children@.len() ==> {
                    &&& (#[trigger] children@[k]).parent_id == Some(parent_id)
                    &&& displayed_child_id != Some(children@[k].primary_id)
                    &&& children@[k].displayed_child is None
                },
    {
        let ghost done = it.index() as int;
        proof {
            reveal(Seq::filter);
            assert(rows@.take(done + 1).drop_last() =~= rows@.take(done));
        }
        let is_child = match row.parent_id {
            Some(p) => p == parent_id,
            None => false,
        };
        let is_displayed = match displayed_child_id {
            Some(d) => d == row.primary_id,
            None => false,
        };
        if is_child && !is_displayed {
            let mut child = row;
            child.displayed_child = None;
            children.push(child);
            assert(children@ =~= rows_of(rows@.take(done + 1).filter(wanted)));
        }
    }
    assert(rows@.take(rows@.len() as int) =~= rows@);
    children
}

/// The displayed child never comes back among the children.
pub proof fn lemma_displayed_child_left_out(rows: Seq<Node>, parent_id: i32, displayed: i32)
    ensures
        forall|k: int|
            0 <= k < children_of(rows, parent_id, Some(displayed)).len() ==> (#[trigger] children_of(
                rows,
                parent_id,
                Some(displayed),
            )[k]).primary_id != displayed,
{
    let wanted = |row: Node| is_other_child(row, parent_id, Some(displayed));
    let kept = rows.filter(wanted);
    assert forall|k: int| 0 <= k < kept.len() implies (#[trigger] rows_of(kept)[k]).primary_id
        != displayed by {
        rows.lemma_filter_pred(wanted, k);
    }
}

/// Naming a displayed child that is no child of the parent changes nothing:
/// the children are those that come back when no displayed child is named.
pub proof fn lemma_stranger_changes_nothing(rows: Seq<Node>, parent_id: i32, stranger: i32)
    requires
        forall|i: int|
            0 <= i < rows.len() && (#[trigger] rows[i]).parent_id == Some(parent_id)
                ==> rows[i].primary_id != stranger,
    ensures
        children_of(rows, parent_id, Some(stranger)) == children_of(rows, parent_id, None),
{
    lemma_same_rows_pass(rows, parent_id, stranger);
}

proof fn lemma_same_rows_pass(rows: Seq<Node>, parent_id: i32, stranger: i32)
    requires
        forall|i: int|
            0 <= i < rows.len() && (#[trigger] rows[i]).parent_id == Some(parent_id)
                ==> rows[i].primary_id != stranger,
    ensures
        rows.filter(|row: Node| is_other_child(row, parent_id, Some(stranger))) == rows.filter(
            |row: Node| is_other_child(row, parent_id, None),
        ),
    decreases rows.len(),
{
    reveal(Seq::filter);
    if rows.len() > 0 {
        let before = rows.drop_last();
        assert forall|i: int|
            0 <= i < before.len() && (#[trigger] before[i]).parent_id == Some(
                parent_id,
            ) implies before[i].primary_id != stranger by {
            assert(before[i] == rows[i]);
        }
        lemma_same_rows_pass(before, parent_id, stranger);
        assert(rows.last() == rows[rows.len() - 1]);
    }
}

/// Starts a children request. A parent id that no record can carry has no
/// children, and the store is not asked. A displayed child id that no record
/// can carry excludes nothing.
pub fn children(params: &ChildrenParams) -> (step: ChildrenStep)
    ensures
        if is_record_id(params.parent_id) {
            step matches ChildrenStep::Fetch(query) && query.parent_id == params.parent_id
                && query.displayed_child_id == displayed_record(params.displayed_child_id)
        } else {
            step matches ChildrenStep::Done(page) && page.nodes@.len() == 0
        },
{
    if params.parent_id < i32::MIN as i64 || params.parent_id > i32::MAX as i64 {
        return ChildrenStep::Done(ChildrenTemplate { nodes: Vec::new() });
    }
    let displayed_child_id = match params.displayed_child_id {
        Some(id) if i32::MIN as i64 <= id && id <= i32::MAX as i64 => Some(id as i32),
        _ => None,
    };
    ChildrenStep::Fetch(ChildrenQuery { parent_id: params.parent_id as i32, displayed_child_id })
}

/// Finishes a children request with what the store answered. A failure of
/// the store is handed on; otherwise the children of the parent are picked
/// out of the rows, without the displayed one.
pub fn children_page(query: &ChildrenQuery, fetched: Result<Vec<Node>, Error>) -> (page: Result<
    ChildrenTemplate,
    Error,
>)
    ensures
        match fetched {
            Err(e) => page == Err::<ChildrenTemplate, Error>(e),
            Ok(rows) => page matches Ok(template) && template.nodes@ == children_of(
                rows@,
                query.parent_id,
                query.displayed_child_id,
            ),
        },
{
    match fetched {
        Err(e) => Err(e),
        Ok(rows) => Ok(
            ChildrenTemplate {
                nodes: expand_children(query.parent_id, query.displayed_child_id, rows),
            },
        ),
    }
}

} // verus!
