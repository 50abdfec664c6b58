//! `==` on numbers: equality as IEEE 754 defines it.

use vstd::prelude::*;
use vstd::std_specs::cmp::PartialEqSpecImpl;
use crate::ieee::single::Single;

verus! {

impl PartialEq for Single {
    fn eq(&self, other: &Single) -> (r: bool) {
        Single::eq(*self, *other)
    }
}

impl PartialEqSpecImpl for Single {
    open spec fn obeys_eq_spec() -> bool {
        true
    }

    open spec fn eq_spec(&self, other: &Single) -> bool {
        self.equals(*other)
    }
}

} // verus!
