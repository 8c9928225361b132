//! The two-child both rule: passes only when the two sides pass.

use vstd::prelude::*;

use super::Rule as AnyRule;

verus! {

/// A both-of-two rule.
pub struct Rule {
    pub both: (Box<AnyRule>, Box<AnyRule>),
}

impl Rule {
    /// Whether either side draws on a saved collection.
    pub fn has_save_rule(&self) -> (r: bool)
        ensures
            r == (self.both.0.has_save_rule_spec() || self.both.1.has_save_rule_spec()),
        decreases *self,
    {
        self.both.0.has_save_rule() || self.both.1.has_save_rule()
    }
}

} // verus!
