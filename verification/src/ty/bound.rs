//! Subtyping assertions `sub : super_`.

use vstd::prelude::*;

use crate::logic::stmt::Stmt;
use crate::logic::Logic;
use crate::model::{spec_parameterise, ty_covered, BoundV, LogicV, StmtV};
use crate::ty::{view_subst, Type};

verus! {

/// An assertion that `sub` must be a subtype of (bound by) `super_`. Used
/// both as a declaration- or implementation-attached constraint and as a
/// user-posed goal.
#[derive(Debug, PartialEq, Eq)]
pub struct Bound {
    pub sub: Type,
    pub super_: Type,
}

pub open spec fn view_bound(b: Bound) -> BoundV {
    BoundV { sub: b.sub@, super_: b.super_@ }
}

pub open spec fn view_bound_seq(s: Seq<Bound>) -> Seq<BoundV> {
    Seq::new(s.len(), |i: int| view_bound(s[i]))
}

impl View for Bound {
    type V = BoundV;

    open spec fn view(&self) -> BoundV {
        view_bound(*self)
    }
}

impl Clone for Bound {
    fn clone(&self) -> (res: Self)
        ensures
            res@ == self@,
    {
        Bound { sub: self.sub.clone(), super_: self.super_.clone() }
    }
}

impl Bound {
    /// Substitution applied to both sides of the assertion.
    pub fn parameterise(&self, params: &Vec<(String, Type)>) -> (r: Bound)
        requires
            ty_covered(self@.sub, view_subst(params@)),
            ty_covered(self@.super_, view_subst(params@)),
        ensures
            r@ == (BoundV {
                sub: spec_parameterise(self@.sub, view_subst(params@)),
                super_: spec_parameterise(self@.super_, view_subst(params@)),
            }),
    {
        Bound { sub: self.sub.parameterise(params), super_: self.super_.parameterise(params) }
    }

    /// The assertion as an atomic proof obligation.
    pub fn into_logic(self) -> (r: Logic)
        ensures
            r@ == LogicV::Stmt(StmtV::Extends { sub: self@.sub, super_: self@.super_ }),
    {
        Logic::Stmt(Stmt::Extends { sub: self.sub, super_: self.super_ })
    }
}

} // verus!
