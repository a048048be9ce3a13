//! The keyboard colour held in the embedded controller.
use vstd::prelude::*;
use crate::text::{decimal, push_char, push_decimal, push_str};

verus! {

/// How the current colour is reported: `Current RGB: R G B`.
pub open spec fn current_rgb_spec(r: u8, g: u8, b: u8) -> Seq<char> {
    "Current RGB: "@ + decimal(r as nat) + seq![' '] + decimal(g as nat) + seq![' '] + decimal(
        b as nat,
    )
}

/// The report of the colour read from the controller.
pub fn current_rgb_message(r: u8, g: u8, b: u8) -> (s: String)
    ensures
        s@ == current_rgb_spec(r, g, b),
{
    let mut s = String::new();
    push_str(&mut s, "Current RGB: ");
    push_decimal(&mut s, r as u64);
    push_char(&mut s, ' ');
    push_decimal(&mut s, g as u64);
    push_char(&mut s, ' ');
    push_decimal(&mut s, b as u64);
    assert(s@ =~= current_rgb_spec(r, g, b));
    s
}

} // verus!
