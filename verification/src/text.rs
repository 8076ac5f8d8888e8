//! Small verified text utilities: building strings character by character,
//! comparing against literals, and printing integers in decimal.

use vstd::prelude::*;

verus! {

/// Relies on `String::push`: appends exactly the one character.
pub assume_specification[ String::push ](s: &mut String, ch: char)
    ensures
        final(s)@ == old(s)@.push(ch),
;

/// Whether a string equals a literal, at the level of character sequences.
pub fn str_is(s: &String, lit: &str) -> (r: bool)
    ensures
        r == (s@ == lit@),
{
    let o = String::from_str(lit);
    s.eq(&o)
}

pub open spec fn digit_char(d: int) -> char {
    ((48 + d) as u8) as char
}

/// The decimal digits of a natural number, most significant first.
pub open spec fn spec_dec_nat(n: nat) -> Seq<char>
    decreases n,
{
    if n < 10 {
        seq![digit_char(n as int)]
    } else {
        spec_dec_nat((n / 10) as nat).push(digit_char((n % 10) as int))
    }
}

pub fn dec_u128(n: u128) -> (r: String)
    ensures
        r@ == spec_dec_nat(n as nat),
    decreases n,
{
    if n < 10 {
        let mut s = String::new();
        s.push((48 + n as u8) as char);
        assert(s@ =~= seq![digit_char(n as int)]);
        s
    } else {
        let mut s = dec_u128(n / 10);
        s.push((48 + (n % 10) as u8) as char);
        s
    }
}

pub fn dec_usize(n: usize) -> (r: String)
    ensures
        r@ == spec_dec_nat(n as nat),
{
    dec_u128(n as u128)
}

} // verus!
