//! The text of the error that a refused allocation reports.

use vstd::prelude::*;
use vstd::string::*;

verus! {

/// The character of decimal digit `d` (`0 <= d < 10`).
pub open spec fn digit_char(d: nat) -> char {
    (48 + d) as char
}

/// The decimal numeral of `n`: its base-ten digits, most significant first,
/// without sign, leading zeros or padding.
pub open spec fn decimal(n: nat) -> Seq<char>
    decreases n,
{
    if n < 10 {
        seq![digit_char(n)]
    } else {
        decimal(n / 10).push(digit_char(n % 10))
    }
}

/// The message of a refused allocation: the item count against its limit,
/// then the memory in use against its limit.
pub open spec fn capacity_message(
    total_items: nat,
    max_items: nat,
    total_memory_used: nat,
    max_memory_bytes: nat,
) -> Seq<char> {
    "Arena capacity exceeded, "@ + decimal(total_items) + "/"@ + decimal(max_items) + ", "@
        + decimal(total_memory_used) + "/"@ + decimal(max_memory_bytes)
}

/// Writes `n` with `ToString::to_string`, that is through `usize`'s `Display`,
/// which std documents as the plain decimal numeral: the contract claims the
/// text is exactly `decimal(n)`.
#[verifier::external_body]
fn decimal_text(n: usize) -> (s: String)
    ensures
        s@ == decimal(n as nat),
{
    n.to_string()
}

/// Builds the message of a refused allocation.
pub fn capacity_exceeded_message(
    total_items: usize,
    max_items: usize,
    total_memory_used: usize,
    max_memory_bytes: usize,
) -> (msg: String)
    ensures
        msg@ == capacity_message(
            total_items as nat,
            max_items as nat,
            total_memory_used as nat,
            max_memory_bytes as nat,
        ),
{
    let mut msg = String::from_str("Arena capacity exceeded, ");
    let a = decimal_text(total_items);
    msg.append(a.as_str());
    msg.append("/");
    let b = decimal_text(max_items);
    msg.append(b.as_str());
    msg.append(", ");
    let c = decimal_text(total_memory_used);
    msg.append(c.as_str());
    msg.append("/");
    let d = decimal_text(max_memory_bytes);
    msg.append(d.as_str());
    msg
}

} // verus!
