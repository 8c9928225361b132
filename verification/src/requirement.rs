//! A named requirement of a program: an optional message, an optional rule
//! tree to satisfy, audit override flags, named save blocks that later
//! given/match rules draw on, and its sub-requirements in insertion order.

use vstd::prelude::*;

use crate::filter::Clause;
use crate::rules::{Action, GivenCoursesWhatOptions, Rule};

verus! {

/// The source collection a save block captures.
#[derive(Clone)]
pub enum GivenForSaveBlock {
    /// Every course on the transcript.
    AllCourses { what: GivenCoursesWhatOptions },
    /// An earlier saved collection.
    NamedVariable { save: String, what: GivenCoursesWhatOptions },
}

/// A named, reusable filtered collection that given/match rules within the
/// same requirement can draw on.
#[derive(Clone)]
pub struct SaveBlock {
    pub name: String,
    pub given: GivenForSaveBlock,
    pub filter: Option<Clause>,
    pub action: Option<Action>,
}

/// A named requirement, possibly nested. Sub-requirements keep their
/// insertion order and unique names.
pub struct Requirement {
    pub message: Option<String>,
    pub department_audited: bool,
    pub registrar_audited: bool,
    pub result: Option<Rule>,
    pub contract: bool,
    pub save: Vec<SaveBlock>,
    pub requirements: Vec<(String, Requirement)>,
}

impl Requirement {
    /// Well-formedness: sub-requirement names are unique.
    pub open spec fn names_unique(&self) -> bool {
        forall|i: int, j: int|
            0 <= i < j < self.requirements@.len() ==> (#[trigger] self.requirements@[i]).0@ != (
            #[trigger] self.requirements@[j]).0@
    }

    /// The sub-requirement of the given name, if any.
    pub fn get_requirement(&self, name: &str) -> (r: Option<&Requirement>)
        ensures
            (match r {
                Some(q) => exists|i: int|
                    0 <= i < self.requirements@.len() && (#[trigger] self.requirements@[i]).0@
                        == name@ && q == &self.requirements@[i].1,
                None => forall|i: int|
                    0 <= i < self.requirements@.len() ==> (#[trigger] self.requirements@[i]).0@
                        != name@,
            }),
    {
        let kc = crate::text::chars_of(name);
        let mut i: usize = 0;
        while i < self.requirements.len()
            invariant
                i <= self.requirements@.len(),
                kc@ == name@,
                forall|k: int|
                    0 <= k < i ==> (#[trigger] self.requirements@[k]).0@ != name@,
            decreases self.requirements@.len() - i,
        {
            let nc = crate::text::chars_of(self.requirements[i].0.as_str());
            if crate::value::chars_eq(nc.as_slice(), kc.as_slice()) {
                return Some(&self.requirements[i].1);
            }
            i += 1;
        }
        None
    }
}

} // verus!
