//! The item-set strategy: rules name the items they need, and rules with
//! more items claim cart lines first.
use vstd::prelude::*;
use crate::cart::{
    clone_inputs, inputs_view, CartLine, CartLineInput, FunctionResult, LineInputView, MergeOperation,
    MergeView, PriceAdjustment,
};
use crate::text::{build_title, decimal, synthesized_title, to_decimal};

verus! {

/// An item a rule needs: a merchandise id and the least quantity a line
/// must carry.
pub struct RuleItem {
    pub id: String,
    pub quantity: u64,
}

/// A rule's discount, in percent.
pub struct Discount {
    pub value: u64,
    pub discount_type: String,
}

/// A rule of the item-set strategy.
pub struct ItemSetRule {
    pub parent_product_id: String,
    pub title: Option<String>,
    pub items: Vec<RuleItem>,
    pub discount: Discount,
}

pub struct ItemSetRuleView {
    pub parent_product_id: String,
    pub title: Option<String>,
    pub items: Seq<RuleItem>,
    pub discount: Discount,
}

impl View for ItemSetRule {
    type V = ItemSetRuleView;

    open spec fn view(&self) -> ItemSetRuleView {
        ItemSetRuleView {
            parent_product_id: self.parent_product_id,
            title: self.title,
            items: self.items@,
            discount: self.discount,
        }
    }
}

/// A bundle of the catalog: its id and its rules, in catalog order.
pub struct ItemSetBundle {
    pub id: u64,
    pub rules: Vec<ItemSetRule>,
}

pub open spec fn rules_view(rules: Seq<ItemSetRule>) -> Seq<ItemSetRuleView> {
    rules.map_values(|r: ItemSetRule| r@)
}

impl RuleItem {
    pub fn duplicate(&self) -> (r: RuleItem)
        ensures
            r == *self,
    {
        RuleItem { id: self.id.clone(), quantity: self.quantity }
    }
}

impl ItemSetRule {
    /// A copy of the rule.
    pub fn duplicate(&self) -> (r: ItemSetRule)
        ensures
            r@ == self@,
    {
        let mut items: Vec<RuleItem> = Vec::new();
        let mut i: usize = 0;
        while i < self.items.len()
            invariant
                i <= self.items@.len(),
                items@ =~= self.items@.take(i as int),
            decreases self.items@.len() - i,
        {
            items.push(self.items[i].duplicate());
            i = i + 1;
        }
        assert(items@ =~= self.items@);
        let title = match &self.title {
            Some(t) => Some(t.clone()),
            None => None,
        };
        ItemSetRule {
            parent_product_id: self.parent_product_id.clone(),
            title,
            items,
            discount: Discount {
                value: self.discount.value,
                discount_type: self.discount.discount_type.clone(),
            },
        }
    }
}

// ---------------------------------------------------------------------------
// Specificity order: by descending number of items, catalog order among ties.

/// The indices below `upto` of the rules with exactly `n` items, ascending.
pub open spec fn with_len(rules: Seq<ItemSetRuleView>, n: nat, upto: int) -> Seq<int>
    decreases upto,
{
    if upto <= 0 {
        seq![]
    } else if rules[upto - 1].items.len() == n {
        with_len(rules, n, upto - 1).push(upto - 1)
    } else {
        with_len(rules, n, upto - 1)
    }
}

/// The indices of the rules whose item count lies in `lo ..= hi`, those
/// with more items first, catalog order among equal counts.
pub open spec fn levels(rules: Seq<ItemSetRuleView>, hi: int, lo: int) -> Seq<int>
    decreases hi - lo + 1,
{
    if hi < lo || lo < 0 {
        seq![]
    } else {
        with_len(rules, hi as nat, rules.len() as int) + levels(rules, hi - 1, lo)
    }
}

/// The largest item count among the first `upto` rules (0 when none).
pub open spec fn max_items(rules: Seq<ItemSetRuleView>, upto: int) -> nat
    decreases upto,
{
    if upto <= 0 {
        0
    } else {
        let m = max_items(rules, upto - 1);
        if rules[upto - 1].items.len() > m {
            rules[upto - 1].items.len()
        } else {
            m
        }
    }
}

/// The rules in the order in which they are matched: by descending item
/// count, a stable sort of the catalog order.
pub open spec fn specificity_order(rules: Seq<ItemSetRuleView>) -> Seq<ItemSetRuleView> {
    levels(rules, max_items(rules, rules.len() as int) as int, 0).map_values(|i: int| rules[i])
}

proof fn lemma_levels_extend(rules: Seq<ItemSetRuleView>, hi: int, lo: int)
    requires
        0 < lo <= hi + 1,
    ensures
        levels(rules, hi, lo - 1) == levels(rules, hi, lo) + with_len(rules, (lo - 1) as nat, rules.len() as int),
    decreases hi - lo + 1,
{
    if hi < lo {
        assert(levels(rules, hi - 1, lo - 1) =~= seq![]);
        assert(levels(rules, hi, lo - 1) =~= with_len(rules, (lo - 1) as nat, rules.len() as int));
    } else {
        lemma_levels_extend(rules, hi - 1, lo);
        assert(levels(rules, hi, lo - 1) =~= levels(rules, hi, lo) + with_len(rules, (lo - 1) as nat, rules.len() as int));
    }
}

pub open spec fn indices(v: Seq<usize>) -> Seq<int> {
    v.map_values(|x: usize| x as int)
}

/// The positions of the rules in the order in which they are matched.
pub fn specificity_indices(rules: &Vec<ItemSetRule>) -> (order: Vec<usize>)
    ensures
        indices(order@) == levels(rules_view(rules@), max_items(rules_view(rules@), rules@.len() as int) as int, 0),
        forall|k: int| 0 <= k < order@.len() ==> order@[k] < rules@.len(),
{
    let ghost rv = rules_view(rules@);
    let mut max: usize = 0;
    let mut i: usize = 0;
    while i < rules.len()
        invariant
            i <= rules@.len(),
            rv == rules_view(rules@),
            max == max_items(rv, i as int),
        decreases rules@.len() - i,
    {
        if rules[i].items.len() > max {
            max = rules[i].items.len();
        }
        i = i + 1;
    }
    let mut order: Vec<usize> = Vec::new();
    let mut level: usize = max;
    loop
        invariant_except_break
            level <= max,
            indices(order@) == levels(rv, max as int, level as int + 1),
        invariant
            rv == rules_view(rules@),
            max == max_items(rv, rules@.len() as int),
            forall|k: int| 0 <= k < order@.len() ==> order@[k] < rules@.len(),
        ensures
            indices(order@) == levels(rv, max as int, 0),
        decreases level,
    {
        let ghost before = indices(order@);
        let mut j: usize = 0;
        while j < rules.len()
            invariant
                j <= rules@.len(),
                rv == rules_view(rules@),
                indices(order@) == before + with_len(rv, level as nat, j as int),
                forall|k: int| 0 <= k < order@.len() ==> order@[k] < rules@.len(),
            decreases rules@.len() - j,
        {
            assert(rv[j as int] == rules@[j as int]@);
            if rules[j].items.len() == level {
                let ghost prev = order@;
                order.push(j);
                assert(indices(order@) =~= indices(prev).push(j as int));
                assert(indices(order@) =~= before + with_len(rv, level as nat, j as int + 1));
            }
            j = j + 1;
        }
        proof {
            lemma_levels_extend(rv, max as int, level as int + 1);
        }
        if level == 0 {
            break;
        }
        level = level - 1;
    }
    order
}

// ---------------------------------------------------------------------------
// Matching against a working copy of the bundle's lines.

/// A line can serve `item`: same merchandise, and at least the quantity
/// the item asks for.
pub open spec fn fits(line: CartLine, item: RuleItem) -> bool {
    line.merchandise_id@ == item.id@ && line.quantity as int >= item.quantity as int
}

/// The first position at or after `from` of a line that serves `item` and
/// is not among `taken`.
pub open spec fn first_fit(lines: Seq<CartLine>, item: RuleItem, taken: Seq<int>, from: int) -> Option<int>
    decreases lines.len() - from,
{
    if from < 0 || from >= lines.len() {
        None
    } else if fits(lines[from], item) && !taken.contains(from) {
        Some(from)
    } else {
        first_fit(lines, item, taken, from + 1)
    }
}

/// The positions of the lines that serve `items`, one for each item in turn,
/// each the first line that serves it and that no earlier item took; `None`
/// when some item finds no line.
pub open spec fn picks(lines: Seq<CartLine>, items: Seq<RuleItem>) -> Option<Seq<int>>
    decreases items.len(),
{
    if items.len() == 0 {
        Some(seq![])
    } else {
        match picks(lines, items.drop_last()) {
            Some(p) => match first_fit(lines, items.last(), p, 0) {
                Some(i) => Some(p.push(i)),
                None => None,
            },
            None => None,
        }
    }
}

/// The first `upto` lines, without those at positions in `p`.
pub open spec fn unpicked(lines: Seq<CartLine>, p: Seq<int>, upto: int) -> Seq<CartLine>
    decreases upto,
{
    if upto <= 0 {
        seq![]
    } else if p.contains(upto - 1) {
        unpicked(lines, p, upto - 1)
    } else {
        unpicked(lines, p, upto - 1).push(lines[upto - 1])
    }
}

/// The lines a merge claims: the line picked for each item, with the
/// quantity the item asks for.
pub open spec fn claimed(lines: Seq<CartLine>, items: Seq<RuleItem>, p: Seq<int>) -> Seq<LineInputView> {
    Seq::new(
        p.len(),
        |k: int| LineInputView { cart_line_id: lines[p[k]].id@, quantity: items[k].quantity as i64 },
    )
}

/// A rule that has been satisfied, with the lines it claims.
pub struct SearchResult {
    pub rule: ItemSetRule,
    pub cart_lines: Vec<CartLineInput>,
}

pub struct SearchView {
    pub rule: ItemSetRuleView,
    pub lines: Seq<LineInputView>,
}

impl View for SearchResult {
    type V = SearchView;

    open spec fn view(&self) -> SearchView {
        SearchView { rule: self.rule@, lines: inputs_view(self.cart_lines@) }
    }
}

pub open spec fn results_view(v: Seq<SearchResult>) -> Seq<SearchView> {
    v.map_values(|r: SearchResult| r@)
}

/// Matches `rules`, in the given order, against `lines`: a rule with items
/// that all find a line claims those lines, which leave the working copy;
/// any other rule is skipped and leaves it as it was. Matching stops once
/// no line is left. Gives the results and the lines left over.
pub open spec fn match_rules(lines: Seq<CartLine>, rules: Seq<ItemSetRuleView>) -> (Seq<SearchView>, Seq<CartLine>)
    decreases rules.len(),
{
    if rules.len() == 0 || lines.len() == 0 {
        (seq![], lines)
    } else {
        let r = rules[0];
        match picks(lines, r.items) {
            Some(p) => if r.items.len() > 0 {
                let rest = match_rules(unpicked(lines, p, lines.len() as int), rules.drop_first());
                (seq![SearchView { rule: r, lines: claimed(lines, r.items, p) }] + rest.0, rest.1)
            } else {
                match_rules(lines, rules.drop_first())
            },
            None => match_rules(lines, rules.drop_first()),
        }
    }
}

proof fn lemma_first_fit(lines: Seq<CartLine>, item: RuleItem, taken: Seq<int>, from: int)
    ensures
        match first_fit(lines, item, taken, from) {
            Some(i) => from <= i < lines.len() && fits(lines[i], item) && !taken.contains(i),
            None => true,
        },
    decreases lines.len() - from,
{
    if from >= 0 && from < lines.len() && !(fits(lines[from], item) && !taken.contains(from)) {
        lemma_first_fit(lines, item, taken, from + 1);
    }
}

/// Picked positions are distinct positions of lines that serve their items.
pub proof fn lemma_picks_valid(lines: Seq<CartLine>, items: Seq<RuleItem>)
    ensures
        match picks(lines, items) {
            Some(p) => {
                &&& p.len() == items.len()
                &&& forall|k: int| 0 <= k < p.len() ==> 0 <= #[trigger] p[k] < lines.len() && fits(lines[p[k]], items[k])
                &&& forall|a: int, b: int| 0 <= a < b < p.len() ==> p[a] != p[b]
            },
            None => true,
        },
    decreases items.len(),
{
    if items.len() > 0 {
        lemma_picks_valid(lines, items.drop_last());
        match picks(lines, items.drop_last()) {
            Some(p) => {
                lemma_first_fit(lines, items.last(), p, 0);
                match first_fit(lines, items.last(), p, 0) {
                    Some(i) => {
                        let q = p.push(i);
                        assert forall|a: int, b: int| 0 <= a < b < q.len() implies q[a] != q[b] by {
                            if b == q.len() - 1 {
                                assert(p.contains(p[a]));
                            }
                        }
                    },
                    None => {},
                }
            },
            None => {},
        }
    }
}

proof fn lemma_picks_none(lines: Seq<CartLine>, items: Seq<RuleItem>, k: int)
    requires
        0 <= k <= items.len(),
        picks(lines, items.take(k)) is None,
    ensures
        picks(lines, items) is None,
    decreases items.len() - k,
{
    if k == items.len() {
        assert(items.take(k) =~= items);
    } else {
        assert(items.drop_last().take(k) =~= items.take(k));
        lemma_picks_none(lines, items.drop_last(), k);
    }
}

pub open spec fn opt_index(r: Option<usize>) -> Option<int> {
    match r {
        Some(i) => Some(i as int),
        None => None,
    }
}

impl CartLine {
    pub fn duplicate(&self) -> (r: CartLine)
        ensures
            r == *self,
    {
        let attribute = match &self.attribute {
            Some(a) => Some(a.clone()),
            None => None,
        };
        CartLine {
            id: self.id.clone(),
            merchandise_id: self.merchandise_id.clone(),
            quantity: self.quantity,
            attribute,
        }
    }
}

fn line_fits(line: &CartLine, item: &RuleItem) -> (r: bool)
    ensures
        r == fits(*line, *item),
{
    line.merchandise_id == item.id && line.quantity >= 0 && line.quantity as u64 >= item.quantity
}

fn contains_index(taken: &Vec<usize>, i: usize) -> (r: bool)
    ensures
        r == indices(taken@).contains(i as int),
{
    let mut j: usize = 0;
    while j < taken.len()
        invariant
            j <= taken@.len(),
            forall|t: int| 0 <= t < j ==> taken@[t] != i,
        decreases taken@.len() - j,
    {
        if taken[j] == i {
            assert(indices(taken@)[j as int] == i as int);
            return true;
        }
        j = j + 1;
    }
    false
}

fn find_line(lines: &Vec<CartLine>, item: &RuleItem, taken: &Vec<usize>) -> (r: Option<usize>)
    ensures
        opt_index(r) == first_fit(lines@, *item, indices(taken@), 0),
{
    let mut j: usize = 0;
    while j < lines.len()
        invariant
            j <= lines@.len(),
            first_fit(lines@, *item, indices(taken@), 0) == first_fit(lines@, *item, indices(taken@), j as int),
        decreases lines@.len() - j,
    {
        if line_fits(&lines[j], item) && !contains_index(taken, j) {
            return Some(j);
        }
        j = j + 1;
    }
    None
}

/// The positions of the lines that serve `items` (see `picks`).
pub fn pick_lines(lines: &Vec<CartLine>, items: &Vec<RuleItem>) -> (r: Option<Vec<usize>>)
    ensures
        match r {
            Some(v) => picks(lines@, items@) == Some(indices(v@)),
            None => picks(lines@, items@) is None,
        },
{
    let mut taken: Vec<usize> = Vec::new();
    let mut k: usize = 0;
    while k < items.len()
        invariant
            k <= items@.len(),
            picks(lines@, items@.take(k as int)) == Some(indices(taken@)),
        decreases items@.len() - k,
    {
        assert(items@.take(k as int + 1).drop_last() =~= items@.take(k as int));
        match find_line(lines, &items[k], &taken) {
            Some(i) => {
                let ghost prev = taken@;
                taken.push(i);
                assert(indices(taken@) =~= indices(prev).push(i as int));
            },
            None => {
                proof {
                    lemma_picks_none(lines@, items@, k as int + 1);
                }
                return None;
            },
        }
        k = k + 1;
    }
    assert(items@.take(k as int) =~= items@);
    Some(taken)
}

fn keep_unpicked(lines: &Vec<CartLine>, taken: &Vec<usize>) -> (r: Vec<CartLine>)
    ensures
        r@ == unpicked(lines@, indices(taken@), lines@.len() as int),
{
    let mut out: Vec<CartLine> = Vec::new();
    let mut i: usize = 0;
    while i < lines.len()
        invariant
            i <= lines@.len(),
            out@ == unpicked(lines@, indices(taken@), i as int),
        decreases lines@.len() - i,
    {
        if !contains_index(taken, i) {
            out.push(lines[i].duplicate());
        }
        i = i + 1;
    }
    out
}

fn claim(lines: &Vec<CartLine>, items: &Vec<RuleItem>, taken: &Vec<usize>) -> (r: Vec<CartLineInput>)
    requires
        taken@.len() == items@.len(),
        forall|k: int| 0 <= k < taken@.len() ==> (#[trigger] taken@[k]) < lines@.len() && fits(lines@[taken@[k] as int], items@[k]),
    ensures
        inputs_view(r@) == claimed(lines@, items@, indices(taken@)),
{
    let mut out: Vec<CartLineInput> = Vec::new();
    let mut k: usize = 0;
    while k < taken.len()
        invariant
            k <= taken@.len(),
            taken@.len() == items@.len(),
            forall|t: int| 0 <= t < taken@.len() ==> (#[trigger] taken@[t]) < lines@.len() && fits(lines@[taken@[t] as int], items@[t]),
            out@.len() == k,
            forall|t: int| 0 <= t < k ==> (#[trigger] out@[t])@ == claimed(lines@, items@, indices(taken@))[t],
        decreases taken@.len() - k,
    {
        let line = &lines[taken[k]];
        assert(fits(lines@[taken@[k as int] as int], items@[k as int]));
        out.push(CartLineInput { cart_line_id: line.id.clone(), quantity: items[k].quantity as i64 });
        k = k + 1;
    }
    assert(inputs_view(out@) =~= claimed(lines@, items@, indices(taken@)));
    out
}

/// Matches the rules, most specific first, against the working copy
/// `bundle_cart_lines`, from which each satisfied rule removes the lines it
/// claims.
pub fn check_rules(bundle_cart_lines: &mut Vec<CartLine>, rules: &Vec<ItemSetRule>) -> (results: Vec<SearchResult>)
    ensures
        results_view(results@) == match_rules(old(bundle_cart_lines)@, specificity_order(rules_view(rules@))).0,
        final(bundle_cart_lines)@ == match_rules(old(bundle_cart_lines)@, specificity_order(rules_view(rules@))).1,
{
    let ghost rv = rules_view(rules@);
    let ghost sorted = specificity_order(rv);
    let ghost whole = match_rules(bundle_cart_lines@, sorted);
    let order = specificity_indices(rules);
    assert(sorted.len() == order@.len());
    let mut working: Vec<CartLine> = Vec::new();
    std::mem::swap(&mut working, bundle_cart_lines);
    let mut results: Vec<SearchResult> = Vec::new();
    let mut k: usize = 0;
    assert(sorted.skip(0) =~= sorted);
    assert(results_view(results@) + whole.0 =~= whole.0);
    while k < order.len() && working.len() > 0
        invariant
            k <= order@.len(),
            rv == rules_view(rules@),
            sorted == specificity_order(rv),
            sorted.len() == order@.len(),
            indices(order@) == levels(rv, max_items(rv, rules@.len() as int) as int, 0),
            forall|t: int| 0 <= t < order@.len() ==> order@[t] < rules@.len(),
            results_view(results@) + match_rules(working@, sorted.skip(k as int)).0 == whole.0,
            match_rules(working@, sorted.skip(k as int)).1 == whole.1,
        decreases order@.len() - k,
    {
        let rule = &rules[order[k]];
        let ghost rest = sorted.skip(k as int);
        assert(indices(order@)[k as int] == order@[k as int] as int);
        assert(rest[0] == rule@);
        assert(rest.drop_first() =~= sorted.skip(k as int + 1));
        if rule.items.len() > 0 {
            match pick_lines(&working, &rule.items) {
                Some(taken) => {
                    proof {
                        lemma_picks_valid(working@, rule.items@);
                        assert forall|t: int| 0 <= t < taken@.len() implies (#[trigger] taken@[t]) < working@.len()
                            && fits(working@[taken@[t] as int], rule.items@[t]) by {
                            assert(indices(taken@)[t] == taken@[t] as int);
                        }
                    }
                    let lines = claim(&working, &rule.items, &taken);
                    let ghost prev = results@;
                    results.push(SearchResult { rule: rule.duplicate(), cart_lines: lines });
                    assert(results_view(results@) =~= results_view(prev).push(results@.last()@));
                    working = keep_unpicked(&working, &taken);
                    assert(results_view(results@) + match_rules(working@, sorted.skip(k as int + 1)).0 =~= whole.0);
                },
                None => {},
            }
        }
        k = k + 1;
    }
    assert(match_rules(working@, sorted.skip(k as int)).0 =~= seq![]);
    assert(results_view(results@) =~= whole.0);
    *bundle_cart_lines = working;
    results
}

// ---------------------------------------------------------------------------
// Line selection, operations and the whole resolution.

/// A line belongs to the bundle `bundle_id` when its tag is the bundle id's
/// decimal text.
pub open spec fn tagged_with(line: CartLine, bundle_id: u64) -> bool {
    match line.attribute {
        Some(a) => a@ == decimal(bundle_id as nat),
        None => false,
    }
}

/// The lines among the first `upto` that belong to the bundle, in cart order.
pub open spec fn bundle_lines(lines: Seq<CartLine>, bundle_id: u64, upto: int) -> Seq<CartLine>
    decreases upto,
{
    if upto <= 0 {
        seq![]
    } else if tagged_with(lines[upto - 1], bundle_id) {
        bundle_lines(lines, bundle_id, upto - 1).push(lines[upto - 1])
    } else {
        bundle_lines(lines, bundle_id, upto - 1)
    }
}

/// The lines of the cart that belong to the bundle `bundle_id`.
pub fn get_bundle_cart_lines(lines: &Vec<CartLine>, bundle_id: u64) -> (r: Vec<CartLine>)
    ensures
        r@ == bundle_lines(lines@, bundle_id, lines@.len() as int),
{
    let id_text = to_decimal(bundle_id);
    let mut out: Vec<CartLine> = Vec::new();
    let mut i: usize = 0;
    while i < lines.len()
        invariant
            i <= lines@.len(),
            id_text@ == decimal(bundle_id as nat),
            out@ == bundle_lines(lines@, bundle_id, i as int),
        decreases lines@.len() - i,
    {
        let tagged = match &lines[i].attribute {
            Some(a) => *a == id_text,
            None => false,
        };
        if tagged {
            out.push(lines[i].duplicate());
        }
        i = i + 1;
    }
    out
}

/// The title of a merge under `rule`: its own title, or else one
/// synthesized from its item count and discount.
pub open spec fn title_of(rule: ItemSetRuleView) -> Seq<char> {
    match rule.title {
        Some(t) => t@,
        None => synthesized_title(rule.items.len(), rule.discount.value as nat),
    }
}

/// The merge operation for a satisfied rule.
pub open spec fn operation_of(r: SearchView) -> MergeView {
    MergeView {
        parent_variant_id: r.rule.parent_product_id@,
        title: Some(title_of(r.rule)),
        cart_lines: r.lines,
        image: None,
        percentage_decrease: Some(decimal(r.rule.discount.value as nat)),
    }
}

/// The merge operation for one search result.
pub fn build_operation(result: &SearchResult) -> (op: MergeOperation)
    ensures
        op@ == operation_of(result@),
{
    let rule = &result.rule;
    let title = match &rule.title {
        Some(t) => t.clone(),
        None => build_title(rule.items.len(), rule.discount.value),
    };
    MergeOperation {
        parent_variant_id: rule.parent_product_id.clone(),
        title: Some(title),
        cart_lines: clone_inputs(&result.cart_lines),
        image: None,
        price: Some(PriceAdjustment { percentage_decrease: to_decimal(rule.discount.value) }),
    }
}

/// The merge operations for the search results, one each, in order.
pub fn build_operations(results: &Vec<SearchResult>) -> (ops: Vec<MergeOperation>)
    ensures
        ops@.map_values(|op: MergeOperation| op@) == results_view(results@).map_values(|r: SearchView| operation_of(r)),
{
    let mut ops: Vec<MergeOperation> = Vec::new();
    let mut i: usize = 0;
    while i < results.len()
        invariant
            i <= results@.len(),
            ops@.len() == i,
            forall|t: int| 0 <= t < i ==> (#[trigger] ops@[t])@ == operation_of(results@[t]@),
        decreases results@.len() - i,
    {
        ops.push(build_operation(&results[i]));
        i = i + 1;
    }
    assert(ops@.map_values(|op: MergeOperation| op@) =~= results_view(results@).map_values(|r: SearchView| operation_of(r)));
    ops
}

/// The operations for a cart: the first bundle of the catalog is the active
/// one, its lines are matched against its rules, and each satisfied rule
/// gives one merge. No bundle gives no operation.
pub open spec fn resolution(lines: Seq<CartLine>, bundles: Seq<ItemSetBundle>) -> Seq<MergeView> {
    if bundles.len() == 0 {
        seq![]
    } else {
        match_rules(
            bundle_lines(lines, bundles[0].id, lines.len() as int),
            specificity_order(rules_view(bundles[0].rules@)),
        ).0.map_values(|r: SearchView| operation_of(r))
    }
}

/// Resolves the bundle merges of a cart under the item-set strategy.
pub fn resolve(lines: &Vec<CartLine>, bundles: &Vec<ItemSetBundle>) -> (r: FunctionResult)
    ensures
        r@ == resolution(lines@, bundles@),
{
    if bundles.len() == 0 {
        let r = FunctionResult { operations: Vec::new() };
        assert(r@ =~= seq![]);
        return r;
    }
    let bundle = &bundles[0];
    let mut working = get_bundle_cart_lines(lines, bundle.id);
    let results = check_rules(&mut working, &bundle.rules);
    let operations = build_operations(&results);
    let r = FunctionResult { operations };
    assert(r@ =~= resolution(lines@, bundles@));
    r
}

// ---------------------------------------------------------------------------
// Laws.

/// The operations depend on the cart and the catalog alone: equal inputs
/// give equal operation lists, on every call.
pub proof fn lemma_resolution_deterministic(
    lines1: Seq<CartLine>,
    bundles1: Seq<ItemSetBundle>,
    lines2: Seq<CartLine>,
    bundles2: Seq<ItemSetBundle>,
)
    requires
        lines1 == lines2,
        bundles1 == bundles2,
    ensures
        resolution(lines1, bundles1) == resolution(lines2, bundles2),
{
}

/// A rule whose items cannot all be served by the available lines gives no
/// result and leaves every line available to the rules after it.
pub proof fn lemma_unsatisfiable_rule_skipped(lines: Seq<CartLine>, rules: Seq<ItemSetRuleView>)
    requires
        rules.len() > 0,
        picks(lines, rules[0].items) is None,
    ensures
        match_rules(lines, rules) == match_rules(lines, rules.drop_first()),
{
}

/// No bundle, no rule in the active bundle, or no line tagged with it: no
/// operation.
pub proof fn lemma_empty_resolution(lines: Seq<CartLine>, bundles: Seq<ItemSetBundle>)
    requires
        bundles.len() == 0 || bundles[0].rules@.len() == 0
            || bundle_lines(lines, bundles[0].id, lines.len() as int).len() == 0,
    ensures
        resolution(lines, bundles) == Seq::<MergeView>::empty(),
{
    if bundles.len() > 0 {
        let rv = rules_view(bundles[0].rules@);
        if rv.len() == 0 {
            assert(max_items(rv, 0) == 0);
            assert(with_len(rv, 0, 0) =~= seq![]);
            assert(levels(rv, -1, 0) =~= seq![]);
            assert(levels(rv, 0, 0) =~= seq![]);
        }
        assert(resolution(lines, bundles) =~= Seq::<MergeView>::empty());
    }
}

proof fn lemma_max_items_bounded(rules: Seq<ItemSetRuleView>, upto: int, b: nat)
    requires
        upto <= rules.len(),
        forall|i: int| 0 <= i < upto ==> (#[trigger] rules[i]).items.len() <= b,
    ensures
        max_items(rules, upto) <= b,
    decreases upto,
{
    if upto > 0 {
        lemma_max_items_bounded(rules, upto - 1, b);
    }
}

proof fn lemma_max_items_reached(rules: Seq<ItemSetRuleView>, upto: int, a: int)
    requires
        0 <= a < upto <= rules.len(),
    ensures
        max_items(rules, upto) >= rules[a].items.len(),
    decreases upto,
{
    if a < upto - 1 {
        lemma_max_items_reached(rules, upto - 1, a);
    }
}

proof fn lemma_with_len_single(rules: Seq<ItemSetRuleView>, a: int, upto: int)
    requires
        0 <= a < rules.len(),
        upto <= rules.len(),
        forall|i: int| 0 <= i < rules.len() && i != a ==> (#[trigger] rules[i]).items.len() != rules[a].items.len(),
    ensures
        with_len(rules, rules[a].items.len(), upto) == (if a < upto { seq![a] } else { Seq::<int>::empty() }),
    decreases upto,
{
    if upto > 0 {
        lemma_with_len_single(rules, a, upto - 1);
        if a < upto - 1 {
            assert(rules[upto - 1].items.len() != rules[a].items.len());
        } else if a == upto - 1 {
            assert(Seq::<int>::empty().push(a) =~= seq![a]);
        }
    }
}

/// A rule with more items than any other rule of the catalog is matched
/// first: when the lines can serve all its items, the first merge is its
/// own, before any rule with fewer items can take a line it needs.
pub proof fn lemma_most_specific_rule_wins(lines: Seq<CartLine>, rules: Seq<ItemSetRuleView>, a: int)
    requires
        0 <= a < rules.len(),
        forall|i: int| 0 <= i < rules.len() && i != a ==> (#[trigger] rules[i]).items.len() < rules[a].items.len(),
        rules[a].items.len() > 0,
        picks(lines, rules[a].items) is Some,
    ensures
        specificity_order(rules)[0] == rules[a],
        match_rules(lines, specificity_order(rules)).0.len() > 0,
        match_rules(lines, specificity_order(rules)).0[0].rule == rules[a],
{
    let n = rules[a].items.len();
    lemma_max_items_bounded(rules, rules.len() as int, n);
    lemma_max_items_reached(rules, rules.len() as int, a);
    assert(max_items(rules, rules.len() as int) == n);
    lemma_with_len_single(rules, a, rules.len() as int);
    let order = levels(rules, n as int, 0);
    assert(order == with_len(rules, n, rules.len() as int) + levels(rules, n - 1, 0));
    assert(order[0] == a);
    lemma_picks_valid(lines, rules[a].items);
    let p = picks(lines, rules[a].items)->0;
    assert(p.len() > 0 && 0 <= p[0] < lines.len());
}

/// The id of the `x`-th line claimed by the `r`-th result.
pub open spec fn claim_id(res: Seq<SearchView>, r: int, x: int) -> Seq<char> {
    res[r].lines[x].cart_line_id
}

/// No two claims, in one result or in two, name the same line.
pub open spec fn claims_disjoint(res: Seq<SearchView>) -> bool {
    forall|a: int, b: int, x: int, y: int|
        0 <= a < res.len() && 0 <= b < res.len() && 0 <= x < res[a].lines.len() && 0 <= y < res[b].lines.len()
            && (a != b || x != y) ==> #[trigger] claim_id(res, a, x) != #[trigger] claim_id(res, b, y)
}

/// Cart line ids name one line each.
pub open spec fn ids_unique(lines: Seq<CartLine>) -> bool {
    forall|i: int, j: int| 0 <= i < lines.len() && 0 <= j < lines.len() && i != j ==> lines[i].id@ != lines[j].id@
}

proof fn lemma_unpicked(lines: Seq<CartLine>, p: Seq<int>, upto: int)
    requires
        0 <= upto <= lines.len(),
    ensures
        forall|x: int| 0 <= x < unpicked(lines, p, upto).len() ==> exists|i: int|
            0 <= i < upto && !p.contains(i) && #[trigger] unpicked(lines, p, upto)[x] == lines[i],
        ids_unique(lines) ==> ids_unique(unpicked(lines, p, upto)),
    decreases upto,
{
    if upto > 0 {
        lemma_unpicked(lines, p, upto - 1);
        let prev = unpicked(lines, p, upto - 1);
        let cur = unpicked(lines, p, upto);
        if !p.contains(upto - 1) {
            assert forall|x: int| 0 <= x < cur.len() implies exists|i: int|
                0 <= i < upto && !p.contains(i) && #[trigger] cur[x] == lines[i] by {
                if x < prev.len() {
                    assert(cur[x] == prev[x]);
                } else {
                    assert(cur[x] == lines[upto - 1]);
                }
            }
            if ids_unique(lines) {
                assert forall|i: int, j: int| 0 <= i < cur.len() && 0 <= j < cur.len() && i != j implies cur[i].id@ != cur[j].id@ by {
                    if i == cur.len() - 1 || j == cur.len() - 1 {
                        let o = if i == cur.len() - 1 { j } else { i };
                        assert(cur[o] == prev[o]);
                        let k = choose|k: int| 0 <= k < upto - 1 && !p.contains(k) && prev[o] == lines[k];
                        assert(lines[k].id@ != lines[upto - 1].id@);
                    } else {
                        assert(cur[i] == prev[i]);
                        assert(cur[j] == prev[j]);
                    }
                }
            }
        }
    }
}

proof fn lemma_claims_from(lines: Seq<CartLine>, rules: Seq<ItemSetRuleView>)
    ensures
        forall|r: int, x: int|
            0 <= r < match_rules(lines, rules).0.len() && 0 <= x < match_rules(lines, rules).0[r].lines.len()
                ==> exists|i: int| 0 <= i < lines.len() && #[trigger] claim_id(match_rules(lines, rules).0, r, x) == lines[i].id@,
    decreases rules.len(),
{
    if rules.len() > 0 && lines.len() > 0 {
        let rule = rules[0];
        lemma_claims_from(lines, rules.drop_first());
        match picks(lines, rule.items) {
            Some(p) => if rule.items.len() > 0 {
                let left = unpicked(lines, p, lines.len() as int);
                lemma_picks_valid(lines, rule.items);
                lemma_claims_from(left, rules.drop_first());
                lemma_unpicked(lines, p, lines.len() as int);
                let res = match_rules(lines, rules).0;
                let rest = match_rules(left, rules.drop_first()).0;
                assert forall|r: int, x: int| 0 <= r < res.len() && 0 <= x < res[r].lines.len() implies exists|i: int|
                    0 <= i < lines.len() && #[trigger] claim_id(res, r, x) == lines[i].id@ by {
                    if r == 0 {
                        assert(claim_id(res, r, x) == lines[p[x]].id@);
                    } else {
                        assert(claim_id(res, r, x) == claim_id(rest, r - 1, x));
                        let z = choose|z: int| 0 <= z < left.len() && claim_id(rest, r - 1, x) == left[z].id@;
                        let i = choose|i: int| 0 <= i < lines.len() && !p.contains(i) && left[z] == lines[i];
                    }
                }
            },
            None => {},
        }
    }
}

/// Where cart line ids are unique, no line is claimed twice: the lines that
/// the merges claim are pairwise distinct, within one merge and across merges.
pub proof fn lemma_no_line_claimed_twice(lines: Seq<CartLine>, rules: Seq<ItemSetRuleView>)
    requires
        ids_unique(lines),
    ensures
        claims_disjoint(match_rules(lines, rules).0),
    decreases rules.len(),
{
    if rules.len() > 0 && lines.len() > 0 {
        let rule = rules[0];
        lemma_no_line_claimed_twice(lines, rules.drop_first());
        match picks(lines, rule.items) {
            Some(p) => if rule.items.len() > 0 {
                let left = unpicked(lines, p, lines.len() as int);
                lemma_picks_valid(lines, rule.items);
                lemma_unpicked(lines, p, lines.len() as int);
                lemma_no_line_claimed_twice(left, rules.drop_first());
                lemma_claims_from(left, rules.drop_first());
                let res = match_rules(lines, rules).0;
                let rest = match_rules(left, rules.drop_first()).0;
                assert forall|a: int, b: int, x: int, y: int|
                    0 <= a < res.len() && 0 <= b < res.len() && 0 <= x < res[a].lines.len() && 0 <= y < res[b].lines.len()
                        && (a != b || x != y) implies #[trigger] claim_id(res, a, x) != #[trigger] claim_id(res, b, y) by {
                    if a == 0 && b == 0 {
                        assert(claim_id(res, a, x) == lines[p[x]].id@);
                        assert(claim_id(res, b, y) == lines[p[y]].id@);
                    } else if a == 0 || b == 0 {
                        let (h, hx, o, ox) = if a == 0 { (a, x, b, y) } else { (b, y, a, x) };
                        assert(claim_id(res, h, hx) == lines[p[hx]].id@);
                        assert(claim_id(res, o, ox) == claim_id(rest, o - 1, ox));
                        let z = choose|z: int| 0 <= z < left.len() && claim_id(rest, o - 1, ox) == left[z].id@;
                        let i = choose|i: int| 0 <= i < lines.len() && !p.contains(i) && left[z] == lines[i];
                        assert(p.contains(p[hx]));
                        assert(i != p[hx]);
                    } else {
                        assert(claim_id(res, a, x) == claim_id(rest, a - 1, x));
                        assert(claim_id(res, b, y) == claim_id(rest, b - 1, y));
                    }
                }
            },
            None => {},
        }
    }
}

proof fn lemma_bundle_lines_unique(lines: Seq<CartLine>, bundle_id: u64, upto: int)
    requires
        0 <= upto <= lines.len(),
        ids_unique(lines),
    ensures
        forall|x: int| 0 <= x < bundle_lines(lines, bundle_id, upto).len() ==> exists|i: int|
            0 <= i < upto && #[trigger] bundle_lines(lines, bundle_id, upto)[x] == lines[i],
        ids_unique(bundle_lines(lines, bundle_id, upto)),
    decreases upto,
{
    if upto > 0 {
        lemma_bundle_lines_unique(lines, bundle_id, upto - 1);
        let prev = bundle_lines(lines, bundle_id, upto - 1);
        let cur = bundle_lines(lines, bundle_id, upto);
        if tagged_with(lines[upto - 1], bundle_id) {
            assert forall|x: int| 0 <= x < cur.len() implies exists|i: int| 0 <= i < upto && #[trigger] cur[x] == lines[i] by {
                if x < prev.len() {
                    assert(cur[x] == prev[x]);
                } else {
                    assert(cur[x] == lines[upto - 1]);
                }
            }
            assert forall|i: int, j: int| 0 <= i < cur.len() && 0 <= j < cur.len() && i != j implies cur[i].id@ != cur[j].id@ by {
                if i == cur.len() - 1 || j == cur.len() - 1 {
                    let o = if i == cur.len() - 1 { j } else { i };
                    assert(cur[o] == prev[o]);
                    let k = choose|k: int| 0 <= k < upto - 1 && prev[o] == lines[k];
                    assert(lines[k].id@ != lines[upto - 1].id@);
                } else {
                    assert(cur[i] == prev[i]);
                    assert(cur[j] == prev[j]);
                }
            }
        }
    }
}

/// Where cart line ids are unique, the operations of a resolution never
/// name one cart line twice, within one merge or across merges.
pub proof fn lemma_operations_claim_distinct_lines(lines: Seq<CartLine>, bundles: Seq<ItemSetBundle>)
    requires
        ids_unique(lines),
    ensures
        forall|a: int, b: int, x: int, y: int|
            0 <= a < resolution(lines, bundles).len() && 0 <= b < resolution(lines, bundles).len()
                && 0 <= x < resolution(lines, bundles)[a].cart_lines.len()
                && 0 <= y < resolution(lines, bundles)[b].cart_lines.len() && (a != b || x != y)
                ==> #[trigger] resolution(lines, bundles)[a].cart_lines[x].cart_line_id
                != #[trigger] resolution(lines, bundles)[b].cart_lines[y].cart_line_id,
{
    if bundles.len() > 0 {
        let tagged = bundle_lines(lines, bundles[0].id, lines.len() as int);
        let order = specificity_order(rules_view(bundles[0].rules@));
        lemma_bundle_lines_unique(lines, bundles[0].id, lines.len() as int);
        lemma_no_line_claimed_twice(tagged, order);
        let res = match_rules(tagged, order).0;
        let ops = resolution(lines, bundles);
        assert forall|a: int, b: int, x: int, y: int|
            0 <= a < ops.len() && 0 <= b < ops.len() && 0 <= x < ops[a].cart_lines.len() && 0 <= y < ops[b].cart_lines.len()
                && (a != b || x != y) implies #[trigger] ops[a].cart_lines[x].cart_line_id
                != #[trigger] ops[b].cart_lines[y].cart_line_id by {
            assert(ops[a].cart_lines[x].cart_line_id == claim_id(res, a, x));
            assert(ops[b].cart_lines[y].cart_line_id == claim_id(res, b, y));
        }
    }
}

} // verus!
