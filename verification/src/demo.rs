//! A hand-written picture of the carrier protocol: the outer/inner function
//! pair that the named-function transformation synthesizes, written out for
//! one concrete signature (`red`, `green`, `blue`, all bytes).

use vstd::prelude::*;

use crate::record::Carrier;
use crate::record::Field;

verus! {

/// The field name `red`.
pub open spec fn red_name() -> Seq<u8> {
    seq![114u8, 101u8, 100u8]
}

/// The field name `green`.
pub open spec fn green_name() -> Seq<u8> {
    seq![103u8, 114u8, 101u8, 101u8, 110u8]
}

/// The field name `blue`.
pub open spec fn blue_name() -> Seq<u8> {
    seq![98u8, 108u8, 117u8, 101u8]
}

/// The name `red` as a field-name value.
pub fn red_name_vec() -> (r: Vec<u8>)
    ensures
        r@ == red_name(),
{
    let mut v: Vec<u8> = Vec::new();
    v.push(114u8);
    v.push(101u8);
    v.push(100u8);
    proof {
        assert(v@ =~= red_name());
    }
    v
}

/// The name `green` as a field-name value.
pub fn green_name_vec() -> (r: Vec<u8>)
    ensures
        r@ == green_name(),
{
    let mut v: Vec<u8> = Vec::new();
    v.push(103u8);
    v.push(114u8);
    v.push(101u8);
    v.push(101u8);
    v.push(110u8);
    proof {
        assert(v@ =~= green_name());
    }
    v
}

/// The name `blue` as a field-name value.
pub fn blue_name_vec() -> (r: Vec<u8>)
    ensures
        r@ == blue_name(),
{
    let mut v: Vec<u8> = Vec::new();
    v.push(98u8);
    v.push(108u8);
    v.push(117u8);
    v.push(101u8);
    proof {
        assert(v@ =~= blue_name());
    }
    v
}

/// The positional inner function: ordinary parameters, one per field.
pub fn do_something_inner(red: u8, green: u8, blue: u8) -> (r: (u8, u8, u8))
    ensures
        r == (red, green, blue),
{
    (red, green, blue)
}

/// The record-accepting outer function: takes one carrier per field, checks
/// the names statically through its contract, extracts the payloads and
/// forwards them positionally to the inner function.
pub fn do_something_outer(args: (Carrier<u8>, Carrier<u8>, Carrier<u8>)) -> (r: (u8, u8, u8))
    requires
        args.0.spec_name() == red_name(),
        args.1.spec_name() == green_name(),
        args.2.spec_name() == blue_name(),
    ensures
        r == (args.0.spec_value(), args.1.spec_value(), args.2.spec_value()),
{
    let (red, green, blue) = args;
    let red = red.take();
    let green = green.take();
    let blue = blue.take();
    do_something_inner(red, green, blue)
}

/// Builds the three carriers for `red = 0`, `green = 1`, `blue = 2` and
/// hands them to the outer function, as a named call site would.
pub fn test() -> (r: (u8, u8, u8))
    ensures
        r == (0u8, 1u8, 2u8),
{
    let args = (
        Carrier::new(red_name_vec(), 0u8),
        Carrier::new(green_name_vec(), 1u8),
        Carrier::new(blue_name_vec(), 2u8),
    );
    do_something_outer(args)
}

} // verus!
