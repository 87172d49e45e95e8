//! Cart lines handed to the engine, and the merge operations it returns.
use vstd::prelude::*;

verus! {

/// One line of the cart snapshot. `attribute` is the value of the line's
/// bundle tag, where the line has one.
pub struct CartLine {
    pub id: String,
    pub merchandise_id: String,
    pub quantity: i64,
    pub attribute: Option<String>,
}

/// A cart line named by a merge operation, with the quantity it brings in.
pub struct CartLineInput {
    pub cart_line_id: String,
    pub quantity: i64,
}

pub struct LineInputView {
    pub cart_line_id: Seq<char>,
    pub quantity: i64,
}

impl View for CartLineInput {
    type V = LineInputView;

    open spec fn view(&self) -> LineInputView {
        LineInputView { cart_line_id: self.cart_line_id@, quantity: self.quantity }
    }
}

/// A price adjustment: the decrease in percent, as decimal text.
pub struct PriceAdjustment {
    pub percentage_decrease: String,
}

/// An instruction to merge cart lines into one discounted parent line.
pub struct MergeOperation {
    pub parent_variant_id: String,
    pub title: Option<String>,
    pub cart_lines: Vec<CartLineInput>,
    pub image: Option<String>,
    pub price: Option<PriceAdjustment>,
}

pub struct MergeView {
    pub parent_variant_id: Seq<char>,
    pub title: Option<Seq<char>>,
    pub cart_lines: Seq<LineInputView>,
    pub image: Option<Seq<char>>,
    pub percentage_decrease: Option<Seq<char>>,
}

pub open spec fn opt_text(o: Option<String>) -> Option<Seq<char>> {
    match o {
        Some(s) => Some(s@),
        None => None,
    }
}

pub open spec fn inputs_view(v: Seq<CartLineInput>) -> Seq<LineInputView> {
    v.map_values(|x: CartLineInput| x@)
}

impl View for MergeOperation {
    type V = MergeView;

    open spec fn view(&self) -> MergeView {
        MergeView {
            parent_variant_id: self.parent_variant_id@,
            title: opt_text(self.title),
            cart_lines: inputs_view(self.cart_lines@),
            image: opt_text(self.image),
            percentage_decrease: match self.price {
                Some(p) => Some(p.percentage_decrease@),
                None => None,
            },
        }
    }
}

/// What one invocation returns: the merge operations, possibly none.
pub struct FunctionResult {
    pub operations: Vec<MergeOperation>,
}

impl View for FunctionResult {
    type V = Seq<MergeView>;

    open spec fn view(&self) -> Seq<MergeView> {
        self.operations@.map_values(|op: MergeOperation| op@)
    }
}

impl CartLineInput {
    pub fn duplicate(&self) -> (r: CartLineInput)
        ensures
            r@ == self@,
    {
        CartLineInput { cart_line_id: self.cart_line_id.clone(), quantity: self.quantity }
    }
}

pub fn clone_text(o: &Option<String>) -> (r: Option<String>)
    ensures
        opt_text(r) == opt_text(*o),
{
    match o {
        Some(s) => Some(s.clone()),
        None => None,
    }
}

pub fn clone_inputs(v: &Vec<CartLineInput>) -> (r: Vec<CartLineInput>)
    ensures
        inputs_view(r@) == inputs_view(v@),
{
    let mut r: Vec<CartLineInput> = Vec::new();
    let mut i: usize = 0;
    while i < v.len()
        invariant
            i <= v@.len(),
            r@.len() == i,
            forall|j: int| 0 <= j < i ==> (#[trigger] r@[j])@ == v@[j]@,
        decreases v@.len() - i,
    {
        r.push(v[i].duplicate());
        i = i + 1;
    }
    assert(inputs_view(r@) =~= inputs_view(v@));
    r
}

} // verus!
