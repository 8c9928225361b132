//! The two-child either rule: passes when at least one side passes, and may
//! track surplus credit left over by the side that overshot.

use vstd::prelude::*;

use super::{Rule as AnyRule, Surplus};

verus! {

/// An either-of-two rule.
pub struct Rule {
    pub either: (Box<AnyRule>, Box<AnyRule>),
    pub surplus: Option<Surplus>,
}

impl Rule {
    /// Whether either side draws on a saved collection.
    pub fn has_save_rule(&self) -> (r: bool)
        ensures
            r == (self.either.0.has_save_rule_spec() || self.either.1.has_save_rule_spec()),
        decreases *self,
    {
        self.either.0.has_save_rule() || self.either.1.has_save_rule()
    }
}

} // verus!
