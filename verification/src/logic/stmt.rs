//! Atomic proof obligations.

use vstd::prelude::*;

use crate::logic::Logic;
use crate::model::{
    frame_table_only, logic_ok, spec_reduce_stmt, stmt_ok, StmtV, DEREF_FUEL,
};
use crate::state::TypeSystem;
use crate::ty::args::string_eq;
use crate::ty::{ty_eq, Type};

verus! {

/// An atomic goal: an equality (unification) obligation, a subtyping
/// obligation, or a structural-member obligation. The member obligation is
/// declared for completeness of the vocabulary and has no resolution rule:
/// the engine never reduces it.
#[derive(Debug, PartialEq, Eq)]
pub enum Stmt {
    Exactly { ty: Type, is: Type },
    Extends { sub: Type, super_: Type },
    HasMember { ty: Type, member: String, member_ty: Type },
}

pub open spec fn view_stmt(s: Stmt) -> StmtV {
    match s {
        Stmt::Exactly { ty, is } => StmtV::Exactly { ty: ty@, is: is@ },
        Stmt::Extends { sub, super_ } => StmtV::Extends { sub: sub@, super_: super_@ },
        Stmt::HasMember { ty, member, member_ty } => StmtV::HasMember {
            ty: ty@,
            member: member@,
            member_ty: member_ty@,
        },
    }
}

impl View for Stmt {
    type V = StmtV;

    open spec fn view(&self) -> StmtV {
        view_stmt(*self)
    }
}

impl Clone for Stmt {
    fn clone(&self) -> (res: Self)
        ensures
            res@ == self@,
    {
        match self {
            Stmt::Exactly { ty, is } => Stmt::Exactly { ty: ty.clone(), is: is.clone() },
            Stmt::Extends { sub, super_ } => Stmt::Extends {
                sub: sub.clone(),
                super_: super_.clone(),
            },
            Stmt::HasMember { ty, member, member_ty } => Stmt::HasMember {
                ty: ty.clone(),
                member: member.clone(),
                member_ty: member_ty.clone(),
            },
        }
    }
}

impl Stmt {
    /// One reduction step of an atomic obligation: equality goals go to the
    /// unifier, subtyping goals to the derivation search. The structural
    /// member obligation has no resolution rule and is excluded by the
    /// precondition.
    pub fn reduce(&self, state: &mut TypeSystem, infer: bool) -> (r: Logic)
        requires
            old(state).wf(),
            stmt_ok(self@, old(state)@.decls, old(state)@.table.len() as nat),
            old(state)@.impls.len() < usize::MAX,
        ensures
            final(state).wf(),
            frame_table_only(old(state)@, final(state)@),
            logic_ok(r@, final(state)@.decls, final(state)@.table.len() as nat),
            r@ == spec_reduce_stmt(
                self@,
                old(state)@.impls,
                old(state)@.table,
                infer,
                DEREF_FUEL as nat,
            ).0,
            final(state)@.table == spec_reduce_stmt(
                self@,
                old(state)@.impls,
                old(state)@.table,
                infer,
                DEREF_FUEL as nat,
            ).1,
    {
        match self {
            Stmt::Exactly { ty, is } => ty.is_exactly(is, state, infer),
            Stmt::Extends { sub, super_ } => sub.is_bound_by(super_, state, infer),
            Stmt::HasMember { .. } => {
                proof {
                    assert(false);
                }
                Logic::False
            },
        }
    }
}

/// Structural equality of two obligations.
pub fn stmt_eq(a: &Stmt, b: &Stmt) -> (r: bool)
    ensures
        r == (a@ == b@),
{
    match (a, b) {
        (Stmt::Exactly { ty: t1, is: i1 }, Stmt::Exactly { ty: t2, is: i2 }) => ty_eq(t1, t2)
            && ty_eq(i1, i2),
        (Stmt::Extends { sub: s1, super_: p1 }, Stmt::Extends { sub: s2, super_: p2 }) => ty_eq(
            s1,
            s2,
        ) && ty_eq(p1, p2),
        (
            Stmt::HasMember { ty: t1, member: m1, member_ty: mt1 },
            Stmt::HasMember { ty: t2, member: m2, member_ty: mt2 },
        ) => ty_eq(t1, t2) && string_eq(m1, m2) && ty_eq(mt1, mt2),
        _ => false,
    }
}

} // verus!
