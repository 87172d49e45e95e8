use bundle_resolver::cart::{CartLine, FunctionResult};
use bundle_resolver::item_set::{
    check_rules, get_bundle_cart_lines, resolve, Discount, ItemSetBundle, ItemSetRule, RuleItem,
};

fn line(id: &str, merchandise: &str, quantity: i64, tag: Option<&str>) -> CartLine {
    CartLine {
        id: id.to_string(),
        merchandise_id: merchandise.to_string(),
        quantity,
        attribute: tag.map(|t| t.to_string()),
    }
}

fn rule(parent: &str, title: Option<&str>, items: &[(&str, u64)], discount: u64) -> ItemSetRule {
    ItemSetRule {
        parent_product_id: parent.to_string(),
        title: title.map(|t| t.to_string()),
        items: items.iter().map(|(id, q)| RuleItem { id: id.to_string(), quantity: *q }).collect(),
        discount: Discount { value: discount, discount_type: "percentage".to_string() },
    }
}

fn claimed(result: &FunctionResult, op: usize) -> Vec<(String, i64)> {
    result.operations[op].cart_lines.iter().map(|l| (l.cart_line_id.clone(), l.quantity)).collect()
}

#[test]
fn scenario_pair_bundle_half_off() {
    let lines = vec![line("l1", "X", 1, Some("1")), line("l2", "Y", 1, Some("1"))];
    let bundles = vec![ItemSetBundle { id: 1, rules: vec![rule("P", None, &[("X", 1), ("Y", 1)], 50)] }];
    let r = resolve(&lines, &bundles);
    assert_eq!(r.operations.len(), 1);
    let op = &r.operations[0];
    assert_eq!(op.parent_variant_id, "P");
    assert_eq!(op.title.as_deref(), Some("My custom bundle: 2 items (-50% off)"));
    assert_eq!(claimed(&r, 0), vec![("l1".to_string(), 1), ("l2".to_string(), 1)]);
    assert!(op.image.is_none());
    assert_eq!(op.price.as_ref().unwrap().percentage_decrease, "50");
}

#[test]
fn scenario_two_rules_each_claim_their_own_lines() {
    let lines = vec![
        line("lx", "X", 1, Some("7")),
        line("ly", "Y", 1, Some("7")),
        line("lz", "Z", 2, Some("7")),
    ];
    let bundles = vec![ItemSetBundle {
        id: 7,
        rules: vec![rule("P", None, &[("Z", 2)], 5), rule("P", None, &[("X", 1), ("Y", 1)], 20)],
    }];
    let r = resolve(&lines, &bundles);
    assert_eq!(r.operations.len(), 2);
    assert_eq!(r.operations[0].price.as_ref().unwrap().percentage_decrease, "20");
    assert_eq!(claimed(&r, 0), vec![("lx".to_string(), 1), ("ly".to_string(), 1)]);
    assert_eq!(r.operations[1].price.as_ref().unwrap().percentage_decrease, "5");
    assert_eq!(claimed(&r, 1), vec![("lz".to_string(), 2)]);
    assert_eq!(r.operations[1].title.as_deref(), Some("My custom bundle: 1 item (-5% off)"));
}

#[test]
fn empty_catalog_gives_no_operation() {
    let lines = vec![line("l1", "X", 1, Some("1"))];
    assert!(resolve(&lines, &vec![]).operations.is_empty());
    let bundles = vec![ItemSetBundle { id: 1, rules: vec![] }];
    assert!(resolve(&lines, &bundles).operations.is_empty());
}

#[test]
fn untagged_cart_gives_no_operation() {
    let lines = vec![line("l1", "X", 1, None), line("l2", "Y", 1, Some("2"))];
    let bundles = vec![ItemSetBundle { id: 1, rules: vec![rule("P", None, &[("X", 1)], 10)] }];
    assert!(resolve(&lines, &bundles).operations.is_empty());
}

#[test]
fn explicit_title_is_kept() {
    let lines = vec![line("l1", "X", 1, Some("1"))];
    let bundles = vec![ItemSetBundle { id: 1, rules: vec![rule("P", Some("All: -15%"), &[("X", 1)], 15)] }];
    let r = resolve(&lines, &bundles);
    assert_eq!(r.operations[0].title.as_deref(), Some("All: -15%"));
    assert_eq!(r.operations[0].price.as_ref().unwrap().percentage_decrease, "15");
}

#[test]
fn only_first_bundle_is_active() {
    let lines = vec![line("l1", "X", 1, Some("2"))];
    let bundles = vec![
        ItemSetBundle { id: 1, rules: vec![rule("P", None, &[("X", 1)], 10)] },
        ItemSetBundle { id: 2, rules: vec![rule("P", None, &[("X", 1)], 10)] },
    ];
    assert!(resolve(&lines, &bundles).operations.is_empty());
}

#[test]
fn selection_compares_decimal_text() {
    let lines = vec![
        line("a", "X", 1, Some("12")),
        line("b", "X", 1, Some("012")),
        line("c", "X", 1, Some("1")),
        line("d", "X", 1, None),
        line("e", "Y", 1, Some("12")),
    ];
    let picked: Vec<String> = get_bundle_cart_lines(&lines, 12).iter().map(|l| l.id.clone()).collect();
    assert_eq!(picked, vec!["a".to_string(), "e".to_string()]);
}

#[test]
fn incomplete_rule_leaves_lines_untouched() {
    let mut lines = vec![line("lx", "X", 1, None), line("lz", "Z", 1, None)];
    let rules = vec![rule("P", None, &[("X", 1), ("Y", 1)], 30)];
    let results = check_rules(&mut lines, &rules);
    assert!(results.is_empty());
    assert_eq!(lines.len(), 2);
}

#[test]
fn insufficient_quantity_never_matches() {
    let mut lines = vec![line("lz", "Z", 1, None)];
    let rules = vec![rule("P", None, &[("Z", 2)], 5)];
    assert!(check_rules(&mut lines, &rules).is_empty());
    assert_eq!(lines.len(), 1);
}

#[test]
fn longer_rule_wins_shared_line() {
    let mut lines = vec![line("lx", "X", 1, None), line("ly", "Y", 1, None)];
    let rules = vec![rule("P", None, &[("X", 1)], 10), rule("Q", None, &[("X", 1), ("Y", 1)], 40)];
    let results = check_rules(&mut lines, &rules);
    assert_eq!(results.len(), 1);
    assert_eq!(results[0].rule.parent_product_id, "Q");
    assert!(lines.is_empty());
}

#[test]
fn equal_length_rules_keep_catalog_order() {
    let mut lines = vec![line("lx", "X", 1, None)];
    let rules = vec![rule("A", None, &[("X", 1)], 10), rule("B", None, &[("X", 1)], 20)];
    let results = check_rules(&mut lines, &rules);
    assert_eq!(results.len(), 1);
    assert_eq!(results[0].rule.parent_product_id, "A");
}

#[test]
fn whole_line_is_claimed() {
    let mut lines = vec![line("lx", "X", 3, None), line("lw", "W", 1, None)];
    let rules = vec![rule("P", None, &[("X", 1)], 10), rule("P", None, &[("X", 1)], 10)];
    let results = check_rules(&mut lines, &rules);
    assert_eq!(results.len(), 1);
    assert_eq!(results[0].cart_lines[0].cart_line_id, "lx");
    assert_eq!(results[0].cart_lines[0].quantity, 1);
    assert_eq!(lines.len(), 1);
    assert_eq!(lines[0].id, "lw");
}

#[test]
fn repeated_item_takes_distinct_lines() {
    let mut lines = vec![line("a", "X", 1, None), line("b", "X", 1, None)];
    let rules = vec![rule("P", None, &[("X", 1), ("X", 1)], 10)];
    let results = check_rules(&mut lines, &rules);
    assert_eq!(results.len(), 1);
    let ids: Vec<&str> = results[0].cart_lines.iter().map(|l| l.cart_line_id.as_str()).collect();
    assert_eq!(ids, vec!["a", "b"]);
    assert!(lines.is_empty());

    let mut single = vec![line("a", "X", 2, None)];
    assert!(check_rules(&mut single, &rules).is_empty());
}

#[test]
fn rule_without_items_never_matches() {
    let mut lines = vec![line("a", "X", 1, None)];
    let rules = vec![rule("P", None, &[], 10)];
    assert!(check_rules(&mut lines, &rules).is_empty());
}

#[test]
fn no_line_is_claimed_by_two_operations() {
    let lines = vec![
        line("a", "X", 1, Some("3")),
        line("b", "Y", 1, Some("3")),
        line("c", "X", 1, Some("3")),
    ];
    let bundles = vec![ItemSetBundle {
        id: 3,
        rules: vec![rule("P", None, &[("X", 1)], 5), rule("P", None, &[("X", 1), ("Y", 1)], 25), rule("P", None, &[("Y", 1)], 5)],
    }];
    let r = resolve(&lines, &bundles);
    let mut all: Vec<String> = Vec::new();
    for op in &r.operations {
        for l in &op.cart_lines {
            assert!(!all.contains(&l.cart_line_id));
            all.push(l.cart_line_id.clone());
        }
    }
    assert_eq!(r.operations.len(), 2);
    assert_eq!(all, vec!["a".to_string(), "b".to_string(), "c".to_string()]);
}

#[test]
fn repeated_calls_give_identical_operations() {
    let lines = vec![line("l1", "X", 1, Some("1")), line("l2", "Y", 1, Some("1"))];
    let bundles = vec![ItemSetBundle { id: 1, rules: vec![rule("P", None, &[("X", 1), ("Y", 1)], 50)] }];
    let a = resolve(&lines, &bundles);
    let b = resolve(&lines, &bundles);
    assert_eq!(a.operations.len(), b.operations.len());
    for (x, y) in a.operations.iter().zip(b.operations.iter()) {
        assert_eq!(x.parent_variant_id, y.parent_variant_id);
        assert_eq!(x.title, y.title);
        assert_eq!(x.price.as_ref().unwrap().percentage_decrease, y.price.as_ref().unwrap().percentage_decrease);
        let xs: Vec<(&str, i64)> = x.cart_lines.iter().map(|l| (l.cart_line_id.as_str(), l.quantity)).collect();
        let ys: Vec<(&str, i64)> = y.cart_lines.iter().map(|l| (l.cart_line_id.as_str(), l.quantity)).collect();
        assert_eq!(xs, ys);
    }
}
