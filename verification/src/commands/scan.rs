//! Which files the scan of the UI folder keeps.
use vstd::prelude::*;

use crate::text::{chars_of, eq_chars, lit, lowercase, lowercase_of};

verus! {

/// A screen file has the extension `xfdl`, in any case.
pub fn is_xfdl_extension(ext: &str) -> (r: bool)
    ensures
        r == (lowercase(ext@) == "xfdl"@),
{
    eq_chars(&lowercase_of(&chars_of(ext)), &lit("xfdl"))
}

} // verus!
