use bundle_resolver::cart::FunctionResult;
use bundle_resolver::grouped::{get_search_results, group_keys, resolve, LineTag, TaggedLine, TieredBundle, TieredRule};

fn line(id: &str, merchandise: &str, quantity: i64, tag: Option<(&str, u64)>) -> TaggedLine {
    TaggedLine {
        id: id.to_string(),
        merchandise_id: merchandise.to_string(),
        quantity,
        tag: tag.map(|(time, id)| LineTag { time: time.to_string(), id }),
    }
}

fn tiers(discounts: &[u64]) -> Vec<TieredRule> {
    discounts
        .iter()
        .enumerate()
        .map(|(i, d)| TieredRule { products_count: i as u64 + 1, discount: *d })
        .collect()
}

fn ids(result: &FunctionResult, op: usize) -> Vec<String> {
    result.operations[op].cart_lines.iter().map(|l| l.cart_line_id.clone()).collect()
}

#[test]
fn scenario_groups_take_rule_by_size() {
    let lines = vec![
        line("a", "V", 1, Some(("t1", 4))),
        line("b", "W", 2, Some(("t1", 4))),
        line("c", "W", 1, Some(("t2", 4))),
    ];
    let bundles = vec![TieredBundle { id: 4, rules: tiers(&[10, 20]) }];
    let r = resolve(&lines, &bundles);
    assert_eq!(r.operations.len(), 2);
    assert_eq!(r.operations[0].price.as_ref().unwrap().percentage_decrease, "20");
    assert_eq!(ids(&r, 0), vec!["a".to_string(), "b".to_string()]);
    assert_eq!(r.operations[0].cart_lines[1].quantity, 2);
    assert_eq!(r.operations[1].price.as_ref().unwrap().percentage_decrease, "10");
    assert_eq!(ids(&r, 1), vec!["c".to_string()]);
    for op in &r.operations {
        assert_eq!(op.parent_variant_id, "V");
        assert!(op.title.is_none());
        assert!(op.image.is_none());
    }
}

#[test]
fn group_larger_than_rules_gives_nothing() {
    let lines = vec![
        line("a", "V", 1, Some(("t", 1))),
        line("b", "V", 1, Some(("t", 1))),
        line("c", "V", 1, Some(("t", 1))),
    ];
    let results = get_search_results(&lines, &tiers(&[10, 20]));
    assert!(results.is_empty());
    let results = get_search_results(&lines, &tiers(&[10, 20, 30]));
    assert_eq!(results.len(), 1);
    assert_eq!(results[0].rule.discount, 30);
}

#[test]
fn empty_inputs_give_no_operation() {
    let lines = vec![line("a", "V", 1, Some(("t", 1)))];
    assert!(resolve(&lines, &vec![]).operations.is_empty());
    assert!(resolve(&lines, &vec![TieredBundle { id: 1, rules: vec![] }]).operations.is_empty());
    assert!(resolve(&vec![], &vec![TieredBundle { id: 1, rules: tiers(&[5]) }]).operations.is_empty());
    let other = vec![line("a", "V", 1, Some(("t", 2))), line("b", "V", 1, None)];
    assert!(resolve(&other, &vec![TieredBundle { id: 1, rules: tiers(&[5]) }]).operations.is_empty());
}

#[test]
fn parent_is_first_cart_line() {
    let lines = vec![
        line("x", "FIRST", 1, None),
        line("a", "V", 1, Some(("t", 9))),
    ];
    let r = resolve(&lines, &vec![TieredBundle { id: 9, rules: tiers(&[15]) }]);
    assert_eq!(r.operations.len(), 1);
    assert_eq!(r.operations[0].parent_variant_id, "FIRST");
    assert_eq!(ids(&r, 0), vec!["a".to_string()]);
}

#[test]
fn groups_follow_first_appearance() {
    let lines = vec![
        line("a", "V", 1, Some(("t2", 1))),
        line("b", "V", 1, Some(("t1", 1))),
        line("c", "V", 1, Some(("t2", 1))),
    ];
    let keys = group_keys(&lines);
    assert_eq!(keys, vec!["t2".to_string(), "t1".to_string()]);
    let results = get_search_results(&lines, &tiers(&[10, 20]));
    assert_eq!(results.len(), 2);
    assert_eq!(results[0].rule.discount, 20);
    assert_eq!(results[1].rule.discount, 10);
}
