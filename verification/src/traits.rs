//! Conversion of numeric values to their canonical decimal text.

use vstd::prelude::*;

use crate::num::{spec_int_text, int_to_string};

verus! {

/// A value with a canonical decimal rendering.
pub trait ToAstring: Sized {
    /// The characters the value renders as.
    spec fn spec_astring(&self) -> Seq<char>;

    /// Renders the value.
    fn to_astring(self) -> (r: String)
        ensures
            r@ == self.spec_astring(),
    ;
}

impl ToAstring for i64 {
    open spec fn spec_astring(&self) -> Seq<char> {
        spec_int_text(*self as int)
    }

    fn to_astring(self) -> (r: String) {
        int_to_string(self)
    }
}

} // verus!
