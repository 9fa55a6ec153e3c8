//! The match selector: one page of a search, as nested chains.

use crate::chain::{chains_of, ranks_ascend, reconstruct, well_ordered};
use crate::error::Error;
use crate::node::Node;
use crate::window::{
    in_window, lemma_page_fits, lemma_page_in_window, lemma_page_keeps_order, page_of, take_page,
    window_last, STEP,
};
use std::collections::VecDeque;
use vstd::prelude::*;

verus! {

/// What a page request carries besides the game.
#[derive(Debug)]
pub struct TreeParams {
    /// The term to look for; absent means the empty term.
    pub search_term: Option<String>,
    /// The filter modes: `"key"`, `"value"`, both or neither.
    pub search_type: Vec<String>,
    /// Rank at which the page starts.
    pub start: i64,
    /// Where the client takes the page to end. A page always holds
    /// [`STEP`] ranks, so this does not enter the query.
    pub end: i64,
}

/// One page of a search: the top node of each chain, in rank order.
#[derive(Debug)]
pub struct TreeTemplate {
    pub nodes: VecDeque<Node>,
}

/// The columns that the search term is compared with.
#[derive(Debug, Clone, Copy, PartialEq, Eq, Structural)]
pub enum Predicate {
    Key,
    Value,
    KeyOrValue,
}

/// The key by which the matches of a search are ranked. Ties go to the lower
/// identifier, so no two matches share a rank.
#[derive(Debug, Clone, Copy, PartialEq, Eq, Structural)]
pub enum Ranking {
    /// By value as raw bytes, highest first; records without a value last.
    ValueDescending,
    /// By value as raw bytes, lowest first; records without a value first.
    ValueAscending,
}

/// The ranking that searches use.
pub const RANKING: Ranking = Ranking::ValueDescending;

/// What the store is asked for: the matches of `search_term` in `game` under
/// `predicate`, ranked by `ranking`; of these the ones whose rank lies on the
/// page that starts at `start`, each with its ascent to a root, as flat rows
/// ordered by rank and, within one match, from the root down to the match.
#[derive(Debug)]
pub struct MatchQuery {
    pub game: String,
    pub search_term: String,
    pub predicate: Predicate,
    pub ranking: Ranking,
    pub start: i64,
}

/// How a page request goes on.
#[derive(Debug)]
pub enum TreeStep {
    /// The page is known without the store.
    Done(TreeTemplate),
    /// The store has to answer this query first.
    Fetch(MatchQuery),
}

/// `name` is one of the filter modes.
pub open spec fn names(modes: Seq<String>, name: Seq<char>) -> bool {
    exists|i: int| 0 <= i < modes.len() && #[trigger] modes[i]@ == name
}

/// The predicate that the filter modes select; none where neither `"key"`
/// nor `"value"` is among them.
pub open spec fn predicate_of(modes: Seq<String>) -> Option<Predicate> {
    let key = names(modes, "key"@);
    let value = names(modes, "value"@);
    if key && value {
        Some(Predicate::KeyOrValue)
    } else if key {
        Some(Predicate::Key)
    } else if value {
        Some(Predicate::Value)
    } else {
        None
    }
}

/// The term that a request searches for.
pub open spec fn term_of(search_term: Option<String>) -> Seq<char> {
    match search_term {
        Some(term) => term@,
        None => Seq::empty(),
    }
}

impl Predicate {
    /// Whether the term is compared with the key.
    pub fn on_key(&self) -> (b: bool)
        ensures
            b == (*self != Predicate::Value),
    {
        match self {
            Predicate::Value => false,
            _ => true,
        }
    }

    /// Whether the term is compared with the value.
    pub fn on_value(&self) -> (b: bool)
        ensures
            b == (*self != Predicate::Key),
    {
        match self {
            Predicate::Key => false,
            _ => true,
        }
    }
}

impl MatchQuery {
    /// The lowest rank asked for.
    pub fn first_rank(&self) -> (first: i64)
        ensures
            first == self.start,
    {
        self.start
    }

    /// The highest rank asked for.
    pub fn last_rank(&self) -> (last: i64)
        ensures
            last == if self.start + STEP - 1 <= i64::MAX {
                self.start + STEP - 1
            } else {
                i64::MAX as int
            },
    {
        window_last(self.start)
    }
}

fn has_mode(modes: &Vec<String>, name: &str) -> (b: bool)
    ensures
        b == names(modes@, name@),
{
    let wanted = name.to_owned();
    let mut i: usize = 0;
    while i < modes.len()
        invariant
            i <= modes.len(),
            wanted@ == name@,
            forall|j: int| 0 <= j < i ==> (#[trigger] modes@[j])@ != name@,
        decreases modes.len() - i,
    {
        if modes[i] == wanted {
            return true;
        }
        i += 1;
    }
    false
}

/// Chooses the predicate for the filter modes of a request.
pub fn select_predicate(search_type: &Vec<String>) -> (predicate: Option<Predicate>)
    ensures
        predicate == predicate_of(search_type@),
{
    let key = has_mode(search_type, "key");
    let value = has_mode(search_type, "value");
    if key && value {
        Some(Predicate::KeyOrValue)
    } else if key {
        Some(Predicate::Key)
    } else if value {
        Some(Predicate::Value)
    } else {
        None
    }
}

/// Starts a page request. With no filter mode chosen the page is empty and
/// the store is not asked; otherwise the store is asked for one page window
/// of matches under the chosen predicate.
pub fn tree(game: String, params: TreeParams) -> (step: TreeStep)
    ensures
        match predicate_of(params.search_type@) {
            None => step matches TreeStep::Done(page) && page.nodes@.len() == 0,
            Some(predicate) => {
                &&& step matches TreeStep::Fetch(query)
                &&& query.game == game
                &&& query.search_term@ == term_of(params.search_term)
                &&& query.predicate == predicate
                &&& query.ranking == RANKING
                &&& query.start == params.start
            },
        },
{
    match select_predicate(&params.search_type) {
        None => TreeStep::Done(TreeTemplate { nodes: VecDeque::new() }),
        Some(predicate) => {
            let search_term = match params.search_term {
                Some(term) => term,
                None => String::new(),
            };
            TreeStep::Fetch(
                MatchQuery { game, search_term, predicate, ranking: RANKING, start: params.start },
            )
        },
    }
}

/// Finishes a page request with what the store answered. A failure of the
/// store is handed on. Rows that are not well ordered fail the request.
/// Otherwise the page holds the chains of the rows whose rank lies in the
/// window of the query, in the order of the rows.
pub fn tree_page(query: &MatchQuery, fetched: Result<Vec<Node>, Error>) -> (page: Result<
    TreeTemplate,
    Error,
>)
    ensures
        match fetched {
            Err(e) => page == Err::<TreeTemplate, Error>(e),
            Ok(rows) => if well_ordered(rows@) {
                &&& page matches Ok(template)
                &&& template.nodes@ == page_of(chains_of(rows@), query.start)
                &&& template.nodes@.len() <= STEP
                &&& ranks_ascend(template.nodes@)
                &&& forall|k: int|
                    0 <= k < template.nodes@.len() ==> in_window(
                        query.start,
                        (#[trigger] template.nodes@[k]).rank,
                    )
            } else {
                page == Err::<TreeTemplate, Error>(Error::MalformedAscentInput)
            },
        },
{
    match fetched {
        Err(e) => Err(e),
        Ok(rows) => match reconstruct(rows) {
            Err(e) => Err(e),
            Ok(chains) => {
                proof {
                    lemma_page_fits(chains@, query.start);
                    lemma_page_keeps_order(chains@, query.start);
                    lemma_page_in_window(chains@, query.start);
                }
                Ok(TreeTemplate { nodes: take_page(chains, query.start) })
            },
        },
    }
}

} // verus!
