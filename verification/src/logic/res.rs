//! The three-valued outcome of a check: proved, refuted, or conditional on
//! residual obligations.

use vstd::prelude::*;

use crate::ty::bound::Bound;

verus! {

/// Outcome of a check against the current state: it holds, it does not, or
/// it holds only if the listed assertions do.
#[derive(Debug)]
pub enum CheckRes {
    Yes,
    No,
    OnlyIf(Vec<Bound>),
}

} // verus!
