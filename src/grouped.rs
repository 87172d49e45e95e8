//! The grouped strategy: a bundle's lines are grouped by the time in their
//! tag, and a group of `n` lines takes the bundle's rule at position `n - 1`.
use vstd::prelude::*;
use crate::cart::{CartLineInput, FunctionResult, LineInputView, MergeOperation, MergeView, PriceAdjustment, inputs_view, clone_inputs};
use crate::text::{decimal, to_decimal};

verus! {

/// The parsed tag of a line: the time that groups it, and its bundle id.
pub struct LineTag {
    pub time: String,
    pub id: u64,
}

/// A cart line with its parsed tag, where it has one.
pub struct TaggedLine {
    pub id: String,
    pub merchandise_id: String,
    pub quantity: i64,
    pub tag: Option<LineTag>,
}

/// A size-tiered rule: the discount, in percent, for a group of
/// `products_count` lines.
#[derive(Clone, Copy)]
pub struct TieredRule {
    pub products_count: u64,
    pub discount: u64,
}

/// A bundle of the catalog: its id and its rules, by group size.
pub struct TieredBundle {
    pub id: u64,
    pub rules: Vec<TieredRule>,
}

/// A group with the rule it takes, and its lines.
pub struct SearchResult {
    pub rule: TieredRule,
    pub cart_lines: Vec<CartLineInput>,
}

pub struct SearchView {
    pub rule: TieredRule,
    pub lines: Seq<LineInputView>,
}

impl View for SearchResult {
    type V = SearchView;

    open spec fn view(&self) -> SearchView {
        SearchView { rule: self.rule, lines: inputs_view(self.cart_lines@) }
    }
}

pub open spec fn results_view(v: Seq<SearchResult>) -> Seq<SearchView> {
    v.map_values(|r: SearchResult| r@)
}

impl TaggedLine {
    pub fn duplicate(&self) -> (r: TaggedLine)
        ensures
            r == *self,
    {
        let tag = match &self.tag {
            Some(t) => Some(LineTag { time: t.time.clone(), id: t.id }),
            None => None,
        };
        TaggedLine {
            id: self.id.clone(),
            merchandise_id: self.merchandise_id.clone(),
            quantity: self.quantity,
            tag,
        }
    }
}

/// A line belongs to the bundle `bundle_id` when its tag names that id.
pub open spec fn in_bundle(line: TaggedLine, bundle_id: u64) -> bool {
    match line.tag {
        Some(t) => t.id == bundle_id,
        None => false,
    }
}

/// The lines among the first `upto` that belong to the bundle, in cart order.
pub open spec fn bundle_lines(lines: Seq<TaggedLine>, bundle_id: u64, upto: int) -> Seq<TaggedLine>
    decreases upto,
{
    if upto <= 0 {
        seq![]
    } else if in_bundle(lines[upto - 1], bundle_id) {
        bundle_lines(lines, bundle_id, upto - 1).push(lines[upto - 1])
    } else {
        bundle_lines(lines, bundle_id, upto - 1)
    }
}

/// The lines of the cart that belong to the bundle `bundle_id`.
pub fn get_bundle_cart_lines(lines: &Vec<TaggedLine>, bundle_id: u64) -> (r: Vec<TaggedLine>)
    ensures
        r@ == bundle_lines(lines@, bundle_id, lines@.len() as int),
{
    let mut out: Vec<TaggedLine> = Vec::new();
    let mut i: usize = 0;
    while i < lines.len()
        invariant
            i <= lines@.len(),
            out@ == bundle_lines(lines@, bundle_id, i as int),
        decreases lines@.len() - i,
    {
        let belongs = match &lines[i].tag {
            Some(t) => t.id == bundle_id,
            None => false,
        };
        if belongs {
            out.push(lines[i].duplicate());
        }
        i = i + 1;
    }
    out
}

/// The time in a line's tag.
pub open spec fn time_of(line: TaggedLine) -> Seq<char> {
    match line.tag {
        Some(t) => t.time@,
        None => seq![],
    }
}

/// The distinct times of the first `upto` lines, in order of first appearance.
pub open spec fn time_keys(lines: Seq<TaggedLine>, upto: int) -> Seq<Seq<char>>
    decreases upto,
{
    if upto <= 0 {
        seq![]
    } else {
        let keys = time_keys(lines, upto - 1);
        if keys.contains(time_of(lines[upto - 1])) {
            keys
        } else {
            keys.push(time_of(lines[upto - 1]))
        }
    }
}

/// The group of `time`: the lines among the first `upto` with that time, in order.
pub open spec fn members(lines: Seq<TaggedLine>, time: Seq<char>, upto: int) -> Seq<TaggedLine>
    decreases upto,
{
    if upto <= 0 {
        seq![]
    } else if time_of(lines[upto - 1]) == time {
        members(lines, time, upto - 1).push(lines[upto - 1])
    } else {
        members(lines, time, upto - 1)
    }
}

/// A group's lines as a merge names them, each with its own quantity.
pub open spec fn group_inputs(group: Seq<TaggedLine>) -> Seq<LineInputView> {
    group.map_values(|l: TaggedLine| LineInputView { cart_line_id: l.id@, quantity: l.quantity })
}

/// The results of the first `k` groups: a group of `n` lines takes
/// `rules[n - 1]`; a group with no rule at that position gives nothing.
pub open spec fn group_results(lines: Seq<TaggedLine>, rules: Seq<TieredRule>, k: int) -> Seq<SearchView>
    decreases k,
{
    let keys = time_keys(lines, lines.len() as int);
    if k <= 0 || k > keys.len() {
        seq![]
    } else {
        let earlier = group_results(lines, rules, k - 1);
        let group = members(lines, keys[k - 1], lines.len() as int);
        if 1 <= group.len() <= rules.len() {
            earlier.push(SearchView { rule: rules[group.len() - 1], lines: group_inputs(group) })
        } else {
            earlier
        }
    }
}

/// The results of all the groups, in order of first appearance of their time.
pub open spec fn search_results(lines: Seq<TaggedLine>, rules: Seq<TieredRule>) -> Seq<SearchView> {
    group_results(lines, rules, time_keys(lines, lines.len() as int).len() as int)
}

pub open spec fn keys_view(keys: Seq<String>) -> Seq<Seq<char>> {
    keys.map_values(|s: String| s@)
}

fn time_text(line: &TaggedLine) -> (r: String)
    ensures
        r@ == time_of(*line),
{
    match &line.tag {
        Some(t) => t.time.clone(),
        None => String::new(),
    }
}

fn has_key(keys: &Vec<String>, time: &String) -> (r: bool)
    ensures
        r == keys_view(keys@).contains(time@),
{
    let mut j: usize = 0;
    while j < keys.len()
        invariant
            j <= keys@.len(),
            forall|t: int| 0 <= t < j ==> keys@[t]@ != time@,
        decreases keys@.len() - j,
    {
        if keys[j] == *time {
            assert(keys_view(keys@)[j as int] == time@);
            return true;
        }
        j = j + 1;
    }
    false
}

/// The distinct times of the lines, in order of first appearance.
pub fn group_keys(lines: &Vec<TaggedLine>) -> (keys: Vec<String>)
    ensures
        keys_view(keys@) == time_keys(lines@, lines@.len() as int),
{
    let mut keys: Vec<String> = Vec::new();
    let mut i: usize = 0;
    while i < lines.len()
        invariant
            i <= lines@.len(),
            keys_view(keys@) == time_keys(lines@, i as int),
        decreases lines@.len() - i,
    {
        let t = time_text(&lines[i]);
        if !has_key(&keys, &t) {
            let ghost prev = keys@;
            keys.push(t);
            assert(keys_view(keys@) =~= keys_view(prev).push(time_of(lines@[i as int])));
        }
        i = i + 1;
    }
    keys
}

/// The group of `time`, as the lines a merge names.
pub fn group_items(lines: &Vec<TaggedLine>, time: &String) -> (r: Vec<CartLineInput>)
    ensures
        inputs_view(r@) == group_inputs(members(lines@, time@, lines@.len() as int)),
{
    let mut out: Vec<CartLineInput> = Vec::new();
    let mut i: usize = 0;
    while i < lines.len()
        invariant
            i <= lines@.len(),
            inputs_view(out@) == group_inputs(members(lines@, time@, i as int)),
        decreases lines@.len() - i,
    {
        let t = time_text(&lines[i]);
        if t == *time {
            let ghost prev = out@;
            out.push(CartLineInput { cart_line_id: lines[i].id.clone(), quantity: lines[i].quantity });
            assert(inputs_view(out@) =~= inputs_view(prev).push(out@.last()@));
            assert(group_inputs(members(lines@, time@, i as int + 1)) =~= group_inputs(members(lines@, time@, i as int)).push(out@.last()@));
        }
        i = i + 1;
    }
    out
}

/// Groups the lines by time and gives each group the rule for its size.
pub fn get_search_results(lines: &Vec<TaggedLine>, rules: &Vec<TieredRule>) -> (results: Vec<SearchResult>)
    ensures
        results_view(results@) == search_results(lines@, rules@),
{
    let keys = group_keys(lines);
    let mut results: Vec<SearchResult> = Vec::new();
    let mut k: usize = 0;
    while k < keys.len()
        invariant
            k <= keys@.len(),
            keys_view(keys@) == time_keys(lines@, lines@.len() as int),
            results_view(results@) == group_results(lines@, rules@, k as int),
        decreases keys@.len() - k,
    {
        let group = group_items(lines, &keys[k]);
        assert(keys_view(keys@)[k as int] == keys@[k as int]@);
        assert(keys_view(keys@).len() == keys@.len());
        assert(inputs_view(group@).len() == group@.len());
        assert(group_inputs(members(lines@, keys@[k as int]@, lines@.len() as int)).len()
            == members(lines@, keys@[k as int]@, lines@.len() as int).len());
        let n = group.len();
        if 1 <= n && n <= rules.len() {
            let ghost prev = results@;
            results.push(SearchResult { rule: rules[n - 1], cart_lines: group });
            assert(results_view(results@) =~= results_view(prev).push(results@.last()@));
        }
        k = k + 1;
    }
    results
}

/// The parent of every merge of this strategy: the merchandise of the
/// cart's first line.
pub open spec fn shared_parent(lines: Seq<TaggedLine>) -> Seq<char> {
    if lines.len() > 0 {
        lines[0].merchandise_id@
    } else {
        seq![]
    }
}

/// The merge operation for a group: no title, no image, the rule's discount.
pub open spec fn operation_of(parent: Seq<char>, r: SearchView) -> MergeView {
    MergeView {
        parent_variant_id: parent,
        title: None,
        cart_lines: r.lines,
        image: None,
        percentage_decrease: Some(decimal(r.rule.discount as nat)),
    }
}

/// The merge operation for one group's result, under the parent `parent`.
pub fn build_operation(parent: &String, result: &SearchResult) -> (op: MergeOperation)
    ensures
        op@ == operation_of(parent@, result@),
{
    MergeOperation {
        parent_variant_id: parent.clone(),
        title: None,
        cart_lines: clone_inputs(&result.cart_lines),
        image: None,
        price: Some(PriceAdjustment { percentage_decrease: to_decimal(result.rule.discount) }),
    }
}

/// The operations for a cart: the first bundle of the catalog is the active
/// one; its lines are grouped by time, and each group with a rule for its
/// size gives one merge. No bundle gives no operation.
pub open spec fn resolution(lines: Seq<TaggedLine>, bundles: Seq<TieredBundle>) -> Seq<MergeView> {
    if bundles.len() == 0 {
        seq![]
    } else {
        search_results(bundle_lines(lines, bundles[0].id, lines.len() as int), bundles[0].rules@).map_values(
            |r: SearchView| operation_of(shared_parent(lines), r),
        )
    }
}

/// Resolves the bundle merges of a cart under the grouped strategy.
pub fn resolve(lines: &Vec<TaggedLine>, bundles: &Vec<TieredBundle>) -> (r: FunctionResult)
    ensures
        r@ == resolution(lines@, bundles@),
{
    if bundles.len() == 0 {
        let r = FunctionResult { operations: Vec::new() };
        assert(r@ =~= seq![]);
        return r;
    }
    let bundle = &bundles[0];
    let bundle_cart_lines = get_bundle_cart_lines(lines, bundle.id);
    let results = get_search_results(&bundle_cart_lines, &bundle.rules);
    let parent = if lines.len() > 0 {
        lines[0].merchandise_id.clone()
    } else {
        String::new()
    };
    let mut operations: Vec<MergeOperation> = Vec::new();
    let mut i: usize = 0;
    while i < results.len()
        invariant
            i <= results@.len(),
            parent@ == shared_parent(lines@),
            operations@.len() == i,
            forall|t: int| 0 <= t < i ==> (#[trigger] operations@[t])@ == operation_of(parent@, results@[t]@),
        decreases results@.len() - i,
    {
        operations.push(build_operation(&parent, &results[i]));
        i = i + 1;
    }
    let r = FunctionResult { operations };
    assert(r@ =~= resolution(lines@, bundles@));
    r
}

// ---------------------------------------------------------------------------
// Laws.

/// The operations depend on the cart and the catalog alone: equal inputs
/// give equal operation lists, on every call.
pub proof fn lemma_resolution_deterministic(
    lines1: Seq<TaggedLine>,
    bundles1: Seq<TieredBundle>,
    lines2: Seq<TaggedLine>,
    bundles2: Seq<TieredBundle>,
)
    requires
        lines1 == lines2,
        bundles1 == bundles2,
    ensures
        resolution(lines1, bundles1) == resolution(lines2, bundles2),
{
}

/// The group of the `k`-th time, of `n` lines, takes exactly `rules[n - 1]`
/// with all its lines; when `n` exceeds the number of rules it gives no
/// result.
pub proof fn lemma_group_takes_rule_by_size(lines: Seq<TaggedLine>, rules: Seq<TieredRule>, k: int)
    requires
        0 <= k < time_keys(lines, lines.len() as int).len(),
    ensures
        ({
            let group = members(lines, time_keys(lines, lines.len() as int)[k], lines.len() as int);
            &&& group.len() > rules.len() ==> group_results(lines, rules, k + 1) == group_results(lines, rules, k)
            &&& 1 <= group.len() <= rules.len() ==> group_results(lines, rules, k + 1) == group_results(lines, rules, k).push(
                SearchView { rule: rules[group.len() - 1], lines: group_inputs(group) },
            )
        }),
{
}

proof fn lemma_no_rules_no_results(lines: Seq<TaggedLine>, rules: Seq<TieredRule>, k: int)
    requires
        rules.len() == 0,
    ensures
        group_results(lines, rules, k) == Seq::<SearchView>::empty(),
    decreases k,
{
    if k > 0 {
        lemma_no_rules_no_results(lines, rules, k - 1);
    }
}

/// No bundle, no rule in the active bundle, or no line tagged with it: no
/// operation.
pub proof fn lemma_empty_resolution(lines: Seq<TaggedLine>, bundles: Seq<TieredBundle>)
    requires
        bundles.len() == 0 || bundles[0].rules@.len() == 0
            || bundle_lines(lines, bundles[0].id, lines.len() as int).len() == 0,
    ensures
        resolution(lines, bundles) == Seq::<MergeView>::empty(),
{
    if bundles.len() > 0 {
        let tagged = bundle_lines(lines, bundles[0].id, lines.len() as int);
        let rules = bundles[0].rules@;
        if rules.len() == 0 {
            lemma_no_rules_no_results(tagged, rules, time_keys(tagged, tagged.len() as int).len() as int);
        } else {
            assert(time_keys(tagged, tagged.len() as int).len() == 0);
        }
        assert(resolution(lines, bundles) =~= Seq::<MergeView>::empty());
    }
}

} // verus!
