use pdx_manifest::error::Error;
use pdx_manifest::node::Node;
use pdx_manifest::tree::{
    select_predicate, tree, tree_page, MatchQuery, Predicate, Ranking, TreeParams, TreeStep, RANKING,
};
use pdx_manifest::window::{rank_in_window, take_page, window_last, STEP};
use std::collections::VecDeque;

fn params(term: Option<&str>, modes: &[&str], start: i64) -> TreeParams {
    TreeParams {
        search_term: term.map(|t| t.to_string()),
        search_type: modes.iter().map(|m| m.to_string()).collect(),
        start,
        end: start + 10,
    }
}

fn query(start: i64) -> MatchQuery {
    MatchQuery {
        game: "eu4".to_string(),
        search_term: "x".to_string(),
        predicate: Predicate::Key,
        ranking: RANKING,
        start,
    }
}

/// One root-level match for each rank from `first` to `last`.
fn matches(first: i64, last: i64) -> Vec<Node> {
    (first..=last).map(|r| Node::new(r as i32, "k".to_string(), None, None, Some(r))).collect()
}

fn ranks(nodes: &VecDeque<Node>) -> Vec<i64> {
    nodes.iter().map(|n| n.rank.unwrap()).collect()
}

#[test]
fn empty_filter_gives_an_empty_page_without_a_query() {
    for term in [None, Some(""), Some("capital")] {
        match tree("eu4".to_string(), params(term, &[], 1)) {
            TreeStep::Done(page) => assert!(page.nodes.is_empty()),
            TreeStep::Fetch(_) => panic!("the store must not be asked"),
        }
    }
}

#[test]
fn unknown_filter_modes_select_nothing() {
    assert_eq!(select_predicate(&vec!["Key".to_string(), "values".to_string()]), None);
    match tree("eu4".to_string(), params(Some("x"), &["both"], 1)) {
        TreeStep::Done(page) => assert!(page.nodes.is_empty()),
        TreeStep::Fetch(_) => panic!("the store must not be asked"),
    }
}

#[test]
fn filter_modes_select_the_predicate() {
    let modes = |m: &[&str]| m.iter().map(|s| s.to_string()).collect::<Vec<String>>();
    assert_eq!(select_predicate(&modes(&[])), None);
    assert_eq!(select_predicate(&modes(&["key"])), Some(Predicate::Key));
    assert_eq!(select_predicate(&modes(&["value"])), Some(Predicate::Value));
    assert_eq!(select_predicate(&modes(&["key", "value"])), Some(Predicate::KeyOrValue));
    assert_eq!(select_predicate(&modes(&["value", "key"])), Some(Predicate::KeyOrValue));
    assert_eq!(select_predicate(&modes(&["key", "key"])), Some(Predicate::Key));
    assert_eq!(select_predicate(&modes(&["other", "value"])), Some(Predicate::Value));
}

#[test]
fn predicate_names_its_columns() {
    assert!(Predicate::Key.on_key());
    assert!(!Predicate::Key.on_value());
    assert!(!Predicate::Value.on_key());
    assert!(Predicate::Value.on_value());
    assert!(Predicate::KeyOrValue.on_key());
    assert!(Predicate::KeyOrValue.on_value());
}

#[test]
fn a_request_becomes_a_query_for_one_window() {
    match tree("hoi4".to_string(), params(Some("infantry"), &["value"], 21)) {
        TreeStep::Fetch(q) => {
            assert_eq!(q.game, "hoi4");
            assert_eq!(q.search_term, "infantry");
            assert_eq!(q.predicate, Predicate::Value);
            assert_eq!(q.ranking, Ranking::ValueDescending);
            assert_eq!(q.start, 21);
            assert_eq!(q.first_rank(), 21);
            assert_eq!(q.last_rank(), 30);
        }
        TreeStep::Done(_) => panic!("the store has to be asked"),
    }
}

#[test]
fn an_absent_search_term_is_the_empty_term() {
    match tree("hoi4".to_string(), params(None, &["key"], 1)) {
        TreeStep::Fetch(q) => assert_eq!(q.search_term, ""),
        TreeStep::Done(_) => panic!("the store has to be asked"),
    }
}

#[test]
fn a_window_holds_ten_ranks() {
    assert_eq!(STEP, 10);
    assert_eq!(window_last(1), 10);
    assert_eq!(window_last(11), 20);
    assert_eq!(window_last(0), 9);
    assert_eq!(window_last(-5), 4);
    assert_eq!(window_last(i64::MAX - 9), i64::MAX);
    assert_eq!(window_last(i64::MAX - 3), i64::MAX);
    assert_eq!(window_last(i64::MAX), i64::MAX);
    assert_eq!(window_last(i64::MIN), i64::MIN + 9);
}

#[test]
fn window_bounds() {
    assert!(!rank_in_window(11, Some(10)));
    assert!(rank_in_window(11, Some(11)));
    assert!(rank_in_window(11, Some(20)));
    assert!(!rank_in_window(11, Some(21)));
    assert!(!rank_in_window(11, None));
    assert!(rank_in_window(i64::MAX - 2, Some(i64::MAX)));
    assert!(!rank_in_window(i64::MAX - 2, Some(i64::MAX - 3)));
}

#[test]
fn a_page_is_the_slice_of_the_ranks_in_its_window() {
    // Ranks 1 to 25 exist; whatever the store hands over, the page holds
    // the ranks of its window and no other.
    for start in [1i64, 11, 21, 31, -4, 7] {
        let page = tree_page(&query(start), Ok(matches(1, 25))).unwrap();
        let expected: Vec<i64> = (1..=25).filter(|r| start <= *r && *r < start + 10).collect();
        assert_eq!(ranks(&page.nodes), expected);
    }
}

#[test]
fn adjacent_pages_neither_repeat_nor_skip_a_rank() {
    let mut seen = Vec::new();
    let mut start = 1;
    while start <= 25 {
        let page = tree_page(&query(start), Ok(matches(1, 25))).unwrap();
        seen.extend(ranks(&page.nodes));
        start += STEP;
    }
    let all: Vec<i64> = (1..=25).collect();
    assert_eq!(seen, all);
}

#[test]
fn a_page_keeps_whole_chains() {
    let rows = vec![
        Node::new(1, "root".to_string(), None, None, Some(10)),
        Node::new(2, "leaf".to_string(), None, Some(1), Some(10)),
        Node::new(1, "root".to_string(), None, None, Some(11)),
        Node::new(3, "leaf".to_string(), None, Some(1), Some(11)),
    ];
    let page = tree_page(&query(11), Ok(rows)).unwrap();
    assert_eq!(page.nodes.len(), 1);
    assert_eq!(page.nodes[0].primary_id, 1);
    assert_eq!(page.nodes[0].rank, Some(11));
    assert_eq!(page.nodes[0].displayed_child.as_ref().unwrap().primary_id, 3);
}

#[test]
fn unranked_rows_are_on_no_page() {
    let rows = vec![Node::new(1, "k".to_string(), None, None, None)];
    let page = tree_page(&query(1), Ok(rows)).unwrap();
    assert!(page.nodes.is_empty());
}

#[test]
fn store_failure_fails_the_page() {
    assert_eq!(tree_page(&query(1), Err(Error::StoreUnavailable)).unwrap_err(), Error::StoreUnavailable);
}

#[test]
fn malformed_rows_fail_the_page() {
    let rows = vec![
        Node::new(2, "leaf".to_string(), None, Some(1), Some(1)),
        Node::new(1, "root".to_string(), None, None, Some(1)),
    ];
    assert_eq!(tree_page(&query(1), Ok(rows)).unwrap_err(), Error::MalformedAscentInput);
}

#[test]
fn malformed_rows_outside_the_window_still_fail_the_page() {
    let mut rows = matches(1, 3);
    rows.push(Node::new(50, "late".to_string(), None, None, Some(40)));
    rows.push(Node::new(51, "early".to_string(), None, None, Some(39)));
    assert_eq!(tree_page(&query(1), Ok(rows)).unwrap_err(), Error::MalformedAscentInput);
}

#[test]
fn take_page_keeps_the_order_of_the_chains() {
    let chains: VecDeque<Node> = matches(5, 30).into_iter().collect();
    let page = take_page(chains, 8);
    assert_eq!(ranks(&page), vec![8, 9, 10, 11, 12, 13, 14, 15, 16, 17]);
}
