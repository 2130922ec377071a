//! Small value types used by the example pipeline.
use vstd::prelude::*;

verus! {

/// An amount of money in dollars and cents.
#[derive(Clone, Copy, Debug, PartialEq, Eq, Structural)]
pub struct Monetary {
    dollar: u32,
    cent: u8,
}

/// The cent part given to `Monetary::new` was 100 or more.
#[derive(Clone, Copy, Debug, PartialEq, Eq, Structural)]
pub struct InvalidMonetaryParts;

impl Monetary {
    /// A cent part below 100.
    pub closed spec fn wf(&self) -> bool {
        self.cent < 100
    }

    pub closed spec fn spec_dollar(&self) -> u32 {
        self.dollar
    }

    pub closed spec fn spec_cent(&self) -> u8 {
        self.cent
    }

    /// Makes an amount; the cent part must be below 100.
    pub fn new(dollar: u32, cent: u8) -> (r: Result<Monetary, InvalidMonetaryParts>)
        ensures
            cent >= 100 <==> r is Err,
            r matches Ok(v) ==> v.spec_dollar() == dollar && v.spec_cent() == cent && v.wf(),
    {
        if cent >= 100 {
            return Err(InvalidMonetaryParts);
        }
        Ok(Monetary { dollar, cent })
    }

    pub fn dollar(&self) -> (r: u32)
        ensures
            r == self.spec_dollar(),
    {
        self.dollar
    }

    pub fn cent(&self) -> (r: u8)
        ensures
            r == self.spec_cent(),
    {
        self.cent
    }
}

/// Hands out consecutive row numbers.
#[derive(Clone, Copy, Debug, Default, PartialEq, Eq, Structural)]
pub struct RowSequence {
    current: u32,
}

impl RowSequence {
    /// The number the next call of `advance` returns.
    pub closed spec fn next_row(&self) -> u32 {
        self.current
    }

    /// A sequence whose first number is `start`.
    pub fn new(start: u32) -> (r: RowSequence)
        ensures
            r.next_row() == start,
    {
        RowSequence { current: start }
    }

    /// Returns the current number and moves to the next one.
    pub fn advance(&mut self) -> (r: u32)
        requires
            old(self).next_row() < u32::MAX,
        ensures
            r == old(self).next_row(),
            final(self).next_row() == old(self).next_row() + 1,
    {
        let current = self.current;
        self.current = self.current + 1;
        current
    }
}

} // verus!
