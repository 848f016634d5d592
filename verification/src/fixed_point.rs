//! Q9 fixed-point numbers: a 16-bit signed raw value that stands for
//! `raw / 512`, so one sign bit and nine fractional bits.

use vstd::prelude::*;

verus! {

/// A Q9 fixed-point number, held as its raw scaled value.
#[derive(Debug, Clone, Copy, PartialEq, Eq, Structural)]
pub struct Q9(i16);

impl View for Q9 {
    type V = i16;

    /// The raw value; the number it stands for is `raw / 512`.
    closed spec fn view(&self) -> i16 {
        self.0
    }
}

impl Q9 {
    /// Takes a raw scaled value as it is.
    pub fn from_raw(raw: i16) -> (q: Self)
        ensures
            q@ == raw,
    {
        Q9(raw)
    }

    /// The raw scaled value.
    pub fn to_raw(self) -> (raw: i16)
        ensures
            raw == self@,
    {
        self.0
    }
}

/// A `Q9` is determined by its raw value, so `from_raw(q.to_raw())` gives
/// back `q` and `from_raw(r).to_raw()` gives back `r`.
pub proof fn law_q9_determined_by_raw(a: Q9, b: Q9)
    ensures
        a@ == b@ <==> a == b,
{
}

} // verus!
