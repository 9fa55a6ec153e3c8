use pdx_manifest::children::{
    children, children_page, expand_children, ChildrenParams, ChildrenQuery, ChildrenStep,
};
use pdx_manifest::error::Error;
use pdx_manifest::node::Node;

fn row(id: i32, parent: Option<i32>) -> Node {
    Node::new(id, format!("key{}", id), Some(format!("value{}", id)), parent, None)
}

fn family() -> Vec<Node> {
    vec![row(10, Some(1)), row(11, Some(1)), row(20, Some(2)), row(12, Some(1)), row(1, None)]
}

fn ids(nodes: &[Node]) -> Vec<i32> {
    nodes.iter().map(|n| n.primary_id).collect()
}

#[test]
fn children_without_a_displayed_child() {
    assert_eq!(ids(&expand_children(1, None, family())), vec![10, 11, 12]);
}

#[test]
fn the_displayed_child_is_left_out() {
    for displayed in [10, 11, 12] {
        let children = expand_children(1, Some(displayed), family());
        assert!(children.iter().all(|c| c.primary_id != displayed));
        assert_eq!(children.len(), 2);
    }
    assert_eq!(ids(&expand_children(1, Some(11), family())), vec![10, 12]);
}

#[test]
fn a_displayed_id_that_is_no_child_changes_nothing() {
    let plain = ids(&expand_children(1, None, family()));
    // 20 is a child of another parent, 1 is the parent itself, 999 is no record.
    for stranger in [20, 1, 999, -3] {
        assert_eq!(ids(&expand_children(1, Some(stranger), family())), plain);
    }
}

#[test]
fn a_parent_without_children_has_none() {
    assert!(expand_children(12, None, family()).is_empty());
    assert!(expand_children(777, Some(10), family()).is_empty());
    assert!(expand_children(1, None, Vec::new()).is_empty());
}

#[test]
fn only_one_level_comes_back() {
    let mut nested = row(10, Some(1));
    nested.displayed_child = Some(Box::new(row(100, Some(10))));
    let children = expand_children(1, None, vec![nested, row(100, Some(10))]);
    assert_eq!(ids(&children), vec![10]);
    assert!(children[0].displayed_child.is_none());
}

#[test]
fn children_keep_their_fields() {
    let children = expand_children(2, None, family());
    assert_eq!(children.len(), 1);
    assert_eq!(children[0].primary_id, 20);
    assert_eq!(children[0].key, "key20");
    assert_eq!(children[0].value.as_deref(), Some("value20"));
    assert_eq!(children[0].parent_id, Some(2));
    assert_eq!(children[0].rank, None);
}

#[test]
fn a_request_becomes_a_query() {
    let step = children(&ChildrenParams { parent_id: 5, displayed_child_id: Some(9) });
    match step {
        ChildrenStep::Fetch(q) => {
            assert_eq!(q, ChildrenQuery { parent_id: 5, displayed_child_id: Some(9) })
        }
        ChildrenStep::Done(_) => panic!("the store has to be asked"),
    }
    let step = children(&ChildrenParams { parent_id: -1, displayed_child_id: None });
    match step {
        ChildrenStep::Fetch(q) => {
            assert_eq!(q, ChildrenQuery { parent_id: -1, displayed_child_id: None })
        }
        ChildrenStep::Done(_) => panic!("the store has to be asked"),
    }
}

#[test]
fn a_parent_id_that_no_record_can_carry_has_no_children() {
    for parent_id in [i32::MAX as i64 + 1, i32::MIN as i64 - 1, (1i64 << 32) + 5, i64::MAX, i64::MIN] {
        match children(&ChildrenParams { parent_id, displayed_child_id: Some(5) }) {
            ChildrenStep::Done(page) => assert!(page.nodes.is_empty()),
            ChildrenStep::Fetch(_) => panic!("the store must not be asked"),
        }
    }
}

#[test]
fn the_limits_of_record_ids_are_record_ids() {
    for parent_id in [i32::MAX, i32::MIN] {
        let step = children(&ChildrenParams {
            parent_id: parent_id as i64,
            displayed_child_id: Some(parent_id as i64),
        });
        match step {
            ChildrenStep::Fetch(q) => {
                assert_eq!(q.parent_id, parent_id);
                assert_eq!(q.displayed_child_id, Some(parent_id));
            }
            ChildrenStep::Done(_) => panic!("the store has to be asked"),
        }
    }
}

#[test]
fn a_displayed_id_that_no_record_can_carry_excludes_nothing() {
    let step = children(&ChildrenParams { parent_id: 1, displayed_child_id: Some((1i64 << 32) + 10) });
    match step {
        ChildrenStep::Fetch(q) => {
            assert_eq!(q.displayed_child_id, None);
            let page = children_page(&q, Ok(family())).unwrap();
            assert_eq!(ids(&page.nodes), vec![10, 11, 12]);
        }
        ChildrenStep::Done(_) => panic!("the store has to be asked"),
    }
}

#[test]
fn the_page_holds_the_children_of_the_query() {
    let q = ChildrenQuery { parent_id: 1, displayed_child_id: Some(12) };
    let page = children_page(&q, Ok(family())).unwrap();
    assert_eq!(ids(&page.nodes), vec![10, 11]);
}

#[test]
fn store_failure_fails_the_children() {
    let q = ChildrenQuery { parent_id: 1, displayed_child_id: None };
    assert_eq!(children_page(&q, Err(Error::StoreUnavailable)).unwrap_err(), Error::StoreUnavailable);
}
