//! Witness containers.
//!
//! A partial witness is the caller's list of externally supplied values,
//! recorded in insertion order.  A full witness holds one value slot per
//! copy class of the layout; every target the layout requires is resolved.

use vstd::prelude::*;
use crate::field::FieldElem;
use crate::layout::Layout;
use crate::target::Target;

verus! {

/// Externally supplied values for some subset of targets.
#[derive(Debug)]
pub struct PartialWitness {
    /// The recorded `(target, value)` pairs, in insertion order.
    pub pairs: Vec<(Target, FieldElem)>,
}

impl PartialWitness {
    /// An empty partial witness.
    pub fn new() -> (pw: PartialWitness)
        ensures
            pw.pairs@ == Seq::<(Target, FieldElem)>::empty(),
    {
        let pw = PartialWitness { pairs: Vec::new() };
        proof {
            assert(pw.pairs@ =~= Seq::<(Target, FieldElem)>::empty());
        }
        pw
    }

    /// Records a value for a target.
    pub fn set_target(&mut self, t: Target, v: FieldElem)
        ensures
            final(self).pairs@ == old(self).pairs@.push((t, v)),
    {
        self.pairs.push((t, v));
    }
}

/// The slot contents for every copy class of a layout; produced by witness
/// resolution, with every required target resolved.
#[derive(Debug)]
pub struct FullWitness {
    /// The value of each slot, indexed by dense target number; only
    /// representative slots are populated.
    pub slots: Vec<Option<FieldElem>>,
}

impl FullWitness {
    /// Reads the resolved value of a target, if its slot is populated.
    pub fn try_get_target(&self, layout: &Layout, t: Target) -> (r: Option<FieldElem>)
        requires
            layout.wf(),
            layout.target_in_grid(t),
            self.slots@.len() == layout.spec_num_targets(),
        ensures
            r == self.slots@[layout.spec_rep_of(t)],
    {
        let slot = layout.rep_of(t);
        self.slots[slot]
    }
}

} // verus!
