//! Declarations of named types.

use vstd::prelude::*;

use crate::model::DeclV;
use crate::ty::args::{view_strings, GeneircArgs};
use crate::ty::bound::{view_bound_seq, Bound};

verus! {

/// The definition of a type name: its ordered generic parameters and the
/// constraints attached to them. Created once per name.
#[derive(Debug)]
pub struct Decl {
    pub name: String,
    pub args: GeneircArgs,
    pub bounds: Vec<Bound>,
}

pub open spec fn view_decl(d: Decl) -> DeclV {
    DeclV { name: d.name@, args: view_strings(d.args@), bounds: view_bound_seq(d.bounds@) }
}

pub open spec fn view_decl_seq(s: Seq<Decl>) -> Seq<DeclV> {
    Seq::new(s.len(), |i: int| view_decl(s[i]))
}

impl View for Decl {
    type V = DeclV;

    open spec fn view(&self) -> DeclV {
        view_decl(*self)
    }
}

impl Clone for Decl {
    fn clone(&self) -> (res: Self)
        ensures
            res@ == self@,
    {
        Decl {
            name: self.name.clone(),
            args: crate::ty::args::clone_strings(&self.args),
            bounds: crate::ty::impl_::clone_bound_vec(&self.bounds),
        }
    }
}

} // verus!
