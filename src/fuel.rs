//! An integer work budget that bounds how much an activation does before it
//! yields.
use vstd::prelude::*;

verus! {

/// Default budget of one activation.
pub const DEFAULT_FUEL: usize = 1000000;

/// A work budget: `budget` units (none for an unbounded budget), of which
/// `spent` have been used since the last reset.
#[derive(Clone, Copy, Debug, PartialEq, Eq, Structural)]
pub struct Fuel {
    pub budget: Option<usize>,
    pub spent: usize,
}

impl Fuel {
    /// Whether the budget is used up; an unbounded budget never is.
    pub open spec fn exhausted(self) -> bool {
        match self.budget {
            Some(b) => self.spent >= b,
            None => false,
        }
    }

    /// A budget of `budget` units, none of them used.
    pub fn limited(budget: usize) -> (r: Fuel)
        ensures
            r.budget == Some(budget),
            r.spent == 0,
    {
        Fuel { budget: Some(budget), spent: 0 }
    }

    /// An unbounded budget.
    pub fn unlimited() -> (r: Fuel)
        ensures
            r.budget.is_none(),
            r.spent == 0,
    {
        Fuel { budget: None, spent: 0 }
    }

    /// Makes the whole budget available again.
    pub fn reset(&mut self)
        ensures
            final(self).budget == old(self).budget,
            final(self).spent == 0,
    {
        self.spent = 0;
    }

    /// Uses `units` of the budget; the count saturates at `usize::MAX`.
    pub fn exert(&mut self, units: usize)
        ensures
            final(self).budget == old(self).budget,
            final(self).spent == if old(self).spent + units <= usize::MAX {
                (old(self).spent + units) as usize
            } else {
                usize::MAX
            },
    {
        self.spent = self.spent.saturating_add(units);
    }

    /// Whether the budget is used up.
    pub fn is_exhausted(&self) -> (r: bool)
        ensures
            r == self.exhausted(),
    {
        match self.budget {
            Some(b) => self.spent >= b,
            None => false,
        }
    }

    /// The units used since the last reset, for a bounded budget.
    pub fn used(&self) -> (r: Option<usize>)
        ensures
            r == (if self.budget.is_some() {
                Some(self.spent)
            } else {
                None
            }),
    {
        match self.budget {
            Some(_) => Some(self.spent),
            None => None,
        }
    }

    /// The units left, for a bounded budget.
    pub fn remaining(&self) -> (r: Option<usize>)
        ensures
            r == (match self.budget {
                Some(b) => Some(if b >= self.spent {
                    (b - self.spent) as usize
                } else {
                    0
                }),
                None => None,
            }),
    {
        match self.budget {
            Some(b) => Some(if b >= self.spent {
                b - self.spent
            } else {
                0
            }),
            None => None,
        }
    }
}

} // verus!
