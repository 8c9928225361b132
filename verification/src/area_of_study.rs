//! A complete program definition: its name and kind, the catalog year, the
//! top-level rule tree, and the named requirements it references, in
//! insertion order.

use vstd::prelude::*;

use crate::requirement::Requirement;
use crate::rules::Rule;

verus! {

/// The kind of program an area of study declares.
#[derive(Debug, PartialEq, Clone)]
pub enum AreaType {
    Degree,
    Major { degree: String },
    Minor { degree: String },
    Concentration { degree: String },
    Emphasis { degree: String, major: String },
}

/// A complete program definition.
pub struct AreaOfStudy {
    pub area_name: String,
    pub area_type: AreaType,
    pub catalog: String,
    pub result: Rule,
    pub requirements: Vec<(String, Requirement)>,
}

impl AreaOfStudy {
    /// Well-formedness: requirement names are unique.
    pub open spec fn names_unique(&self) -> bool {
        forall|i: int, j: int|
            0 <= i < j < self.requirements@.len() ==> (#[trigger] self.requirements@[i]).0@ != (
            #[trigger] self.requirements@[j]).0@
    }

    /// The requirement of the given name, if any: a reference rule that
    /// names no requirement here dangles, which construction must reject.
    pub fn get_requirement(&self, name: &str) -> (r: Option<&Requirement>)
        ensures
            (match r {
                Some(q) => exists|i: int|
                    0 <= i < self.requirements@.len() && (#[trigger] self.requirements@[i]).0@
                        == name@ && q == &self.requirements@[i].1,
                None => forall|i: int|
                    0 <= i < self.requirements@.len() ==> (#[trigger] self.requirements@[i]).0@
                        != name@,
            }),
    {
        let kc = crate::text::chars_of(name);
        let mut i: usize = 0;
        while i < self.requirements.len()
            invariant
                i <= self.requirements@.len(),
                kc@ == name@,
                forall|k: int|
                    0 <= k < i ==> (#[trigger] self.requirements@[k]).0@ != name@,
            decreases self.requirements@.len() - i,
        {
            let nc = crate::text::chars_of(self.requirements[i].0.as_str());
            if crate::value::chars_eq(nc.as_slice(), kc.as_slice()) {
                return Some(&self.requirements[i].1);
            }
            i += 1;
        }
        None
    }
}

} // verus!
