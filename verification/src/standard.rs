//! The built-in library: the single native function `clock`, which reports
//! seconds since the epoch from the clock reading the host injects.

use vstd::prelude::*;

use crate::interpreter::sp_clock_value;
use crate::numeric::THOUSAND_BITS;
use crate::numeric::num_div;
use crate::numeric::num_of_u64;
use crate::value::Value;

verus! {

/// The value of the `clock` built-in: the injected millisecond reading,
/// divided by a thousand in double arithmetic.
pub fn clock(now_millis: u64) -> (r: Value)
    ensures
        r@ == sp_clock_value(now_millis),
{
    Value::Number(num_div(num_of_u64(now_millis), THOUSAND_BITS))
}

} // verus!
