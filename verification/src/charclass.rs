//! Character classes that the token rules are built from.
use vstd::prelude::*;

verus! {

/// Whether `c` is one of the ten decimal digits `0` to `9`.
pub open spec fn decimal_digit(c: char) -> bool {
    '0' <= c <= '9'
}

/// What `char::is_alphabetic` answers for `c`: membership in Unicode's
/// `Alphabetic` class, which is a table and is not spelled out here.
pub uninterp spec fn alphabetic(c: char) -> bool;

/// What `char::is_numeric` answers for `c`: membership in Unicode's general
/// categories for numbers, which is a table and is not spelled out here.
pub uninterp spec fn numeric(c: char) -> bool;

/// Whether `c` is a letter or a number of any script.
pub open spec fn alphanumeric(c: char) -> bool {
    alphabetic(c) || numeric(c)
}

/// Trusted: `char::is_alphabetic` is a function of the character alone; its
/// answer is given the name `alphabetic`. Nothing else is claimed of it.
pub assume_specification[ char::is_alphabetic ](c: char) -> (b: bool)
    ensures
        b == alphabetic(c),
;

/// Trusted: `char::is_alphanumeric` holds of exactly the characters that
/// satisfy `char::is_alphabetic` or `char::is_numeric`, as std documents.
pub assume_specification[ char::is_alphanumeric ](c: char) -> (b: bool)
    ensures
        b == (alphabetic(c) || numeric(c)),
;

/// Decides `decimal_digit` by comparing against the two ends of the range.
pub fn is_decimal_digit(c: char) -> (b: bool)
    ensures
        b == decimal_digit(c),
{
    '0' <= c && c <= '9'
}

} // verus!
