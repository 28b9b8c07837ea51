//! `==` on nodes and trees.

use crate::tree::{Node, Tree};
use vstd::prelude::*;
use vstd::std_specs::cmp::PartialEqSpecImpl;

verus! {

impl PartialEq for Node {
    fn eq(&self, other: &Node) -> (same: bool) {
        self.equals(other)
    }
}

impl PartialEqSpecImpl for Node {
    open spec fn obeys_eq_spec() -> bool {
        true
    }

    open spec fn eq_spec(&self, other: &Node) -> bool {
        self@ == other@
    }
}

impl PartialEq for Tree {
    fn eq(&self, other: &Tree) -> (same: bool) {
        self.equals(other)
    }
}

impl PartialEqSpecImpl for Tree {
    open spec fn obeys_eq_spec() -> bool {
        true
    }

    open spec fn eq_spec(&self, other: &Tree) -> bool {
        self@ == other@
    }
}

} // verus!
