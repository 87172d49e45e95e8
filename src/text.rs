//! Decimal rendering of integers and the synthesized bundle title.
use vstd::prelude::*;

verus! {

/// The text of one decimal digit.
pub open spec fn digit_text(d: nat) -> Seq<char> {
    if d == 0 {
        "0"@
    } else if d == 1 {
        "1"@
    } else if d == 2 {
        "2"@
    } else if d == 3 {
        "3"@
    } else if d == 4 {
        "4"@
    } else if d == 5 {
        "5"@
    } else if d == 6 {
        "6"@
    } else if d == 7 {
        "7"@
    } else if d == 8 {
        "8"@
    } else {
        "9"@
    }
}

/// The decimal text of `n`: its digits, most significant first, with no
/// leading zero.
pub open spec fn decimal(n: nat) -> Seq<char>
    decreases n,
{
    if n < 10 {
        digit_text(n)
    } else {
        decimal(n / 10) + digit_text(n % 10)
    }
}

/// "1 item", or "N items" for any other count.
pub open spec fn count_text(n: nat) -> Seq<char> {
    if n == 1 {
        "1 item"@
    } else {
        decimal(n) + " items"@
    }
}

/// The title given to a bundle whose rule names none:
/// `My custom bundle: <count> (-<discount>% off)`.
pub open spec fn synthesized_title(item_count: nat, discount: nat) -> Seq<char> {
    "My custom bundle: "@ + count_text(item_count) + " (-"@ + decimal(discount) + "% off)"@
}

fn digit_str(d: u64) -> (r: &'static str)
    requires
        d < 10,
    ensures
        r@ == digit_text(d as nat),
{
    if d == 0 {
        "0"
    } else if d == 1 {
        "1"
    } else if d == 2 {
        "2"
    } else if d == 3 {
        "3"
    } else if d == 4 {
        "4"
    } else if d == 5 {
        "5"
    } else if d == 6 {
        "6"
    } else if d == 7 {
        "7"
    } else if d == 8 {
        "8"
    } else {
        "9"
    }
}

/// Appends the decimal text of `n` to `out`.
pub fn push_decimal(out: &mut String, n: u64)
    ensures
        final(out)@ == old(out)@ + decimal(n as nat),
    decreases n,
{
    if n < 10 {
        out.append(digit_str(n));
    } else {
        push_decimal(out, n / 10);
        out.append(digit_str(n % 10));
        assert(final(out)@ =~= old(out)@ + decimal(n as nat));
    }
}

/// The decimal text of `n`.
pub fn to_decimal(n: u64) -> (r: String)
    ensures
        r@ == decimal(n as nat),
{
    let mut out = String::new();
    push_decimal(&mut out, n);
    assert(out@ =~= decimal(n as nat));
    out
}

/// The synthesized title of a bundle of `item_count` items at `discount`
/// percent off.
pub fn build_title(item_count: usize, discount: u64) -> (r: String)
    ensures
        r@ == synthesized_title(item_count as nat, discount as nat),
{
    let mut out = String::from_str("My custom bundle: ");
    if item_count == 1 {
        out.append("1 item");
    } else {
        push_decimal(&mut out, item_count as u64);
        out.append(" items");
    }
    out.append(" (-");
    push_decimal(&mut out, discount);
    out.append("% off)");
    assert(out@ =~= synthesized_title(item_count as nat, discount as nat));
    out
}

} // verus!
