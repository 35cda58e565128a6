//! The type representation and its pure operations: substitution of generic
//! parameters and resolution through the variable table.

use vstd::prelude::*;

use crate::model::{
    lemma_parameterise_seq, lemma_resolve_seq, lemma_ty_size_seq_index, spec_parameterise,
    spec_parameterise_named, spec_parameterise_seq, spec_resolve, spec_resolve_seq, subst_lookup,
    table_vars_ok, ty_covered, ty_size, ty_size_seq, ty_vars_ok, NamedV, TyV, DEREF_FUEL,
};
use crate::state::TypeSystem;
use crate::ty::args::string_eq;

pub mod args;
pub mod bound;
pub mod decl;
pub mod impl_;
pub mod inst;
pub mod is_bound;
pub mod is_exactly;
pub mod parse;
pub mod path;

verus! {

/// A concrete or partially concrete type: a declared name applied to
/// positional arguments.
#[derive(Debug, PartialEq, Eq)]
pub struct Named {
    pub name: String,
    pub args: Vec<Type>,
}

/// A type term. `Generic` is a placeholder local to a declaration or
/// implementation, substituted away before the type escapes that scope.
/// `Var` is an index into the variable table, never a value in itself.
/// `Free` marks an unresolved table entry and never occurs inside a type.
#[derive(Debug, PartialEq, Eq)]
pub enum Type {
    Named(Named),
    Generic(String),
    Var(usize),
    Free,
}

pub open spec fn view_ty(t: Type) -> TyV
    decreases t,
{
    match t {
        Type::Named(n) => TyV::Named(view_named(n)),
        Type::Generic(g) => TyV::Generic(g@),
        Type::Var(id) => TyV::Var(id as nat),
        Type::Free => TyV::Free,
    }
}

pub open spec fn view_named(n: Named) -> NamedV
    decreases n,
{
    NamedV { name: n.name@, args: view_ty_seq(n.args@) }
}

pub open spec fn view_ty_seq(s: Seq<Type>) -> Seq<TyV>
    decreases s,
{
    if s.len() == 0 {
        Seq::empty()
    } else {
        seq![view_ty(s[0])] + view_ty_seq(s.drop_first())
    }
}

pub proof fn lemma_view_ty_seq(s: Seq<Type>)
    ensures
        view_ty_seq(s).len() == s.len(),
        forall|i: int| 0 <= i < s.len() ==> #[trigger] view_ty_seq(s)[i] == view_ty(s[i]),
    decreases s.len(),
{
    if s.len() > 0 {
        lemma_view_ty_seq(s.drop_first());
        assert forall|i: int| 0 <= i < s.len() implies #[trigger] view_ty_seq(s)[i] == view_ty(
            s[i],
        ) by {
            if i > 0 {
                assert(s.drop_first()[i - 1] == s[i]);
                assert(view_ty_seq(s.drop_first())[i - 1] == view_ty(s.drop_first()[i - 1]));
            }
        }
    }
}

impl View for Type {
    type V = TyV;

    open spec fn view(&self) -> TyV {
        view_ty(*self)
    }
}

impl View for Named {
    type V = NamedV;

    open spec fn view(&self) -> NamedV {
        view_named(*self)
    }
}

pub fn clone_ty_vec(v: &Vec<Type>) -> (r: Vec<Type>)
    ensures
        r@.len() == v@.len(),
        forall|i: int| 0 <= i < v@.len() ==> (#[trigger] r@[i])@ == v@[i]@,
    decreases v,
{
    let mut out: Vec<Type> = Vec::new();
    let mut i: usize = 0;
    while i < v.len()
        invariant
            i <= v.len(),
            out@.len() == i,
            forall|j: int| 0 <= j < i ==> (#[trigger] out@[j])@ == v@[j]@,
        decreases v.len() - i,
    {
        let c = v[i].clone();
        out.push(c);
        i = i + 1;
    }
    out
}

impl Clone for Named {
    fn clone(&self) -> (res: Self)
        ensures
            res@ == self@,
        decreases self,
    {
        let r = Named { name: self.name.clone(), args: clone_ty_vec(&self.args) };
        proof {
            lemma_view_ty_seq(r.args@);
            lemma_view_ty_seq(self.args@);
            assert(view_ty_seq(r.args@) =~= view_ty_seq(self.args@));
        }
        r
    }
}

impl Clone for Type {
    fn clone(&self) -> (res: Self)
        ensures
            res@ == self@,
        decreases self,
    {
        match self {
            Type::Named(n) => Type::Named(n.clone()),
            Type::Generic(g) => Type::Generic(g.clone()),
            Type::Var(id) => Type::Var(*id),
            Type::Free => Type::Free,
        }
    }
}

/// Structural equality of two types: named nodes by name and argument list,
/// variables by index only.
pub fn ty_eq(a: &Type, b: &Type) -> (r: bool)
    ensures
        r == (a@ == b@),
    decreases a,
{
    match (a, b) {
        (Type::Named(x), Type::Named(y)) => named_eq(x, y),
        (Type::Generic(g), Type::Generic(h)) => string_eq(g, h),
        (Type::Var(i), Type::Var(j)) => i == j,
        (Type::Free, Type::Free) => true,
        _ => false,
    }
}

pub fn named_eq(a: &Named, b: &Named) -> (r: bool)
    ensures
        r == (a@ == b@),
    decreases a,
{
    proof {
        lemma_view_ty_seq(a.args@);
        lemma_view_ty_seq(b.args@);
    }
    if !string_eq(&a.name, &b.name) {
        return false;
    }
    if a.args.len() != b.args.len() {
        return false;
    }
    let mut i: usize = 0;
    while i < a.args.len()
        invariant
            i <= a.args.len(),
            a.args@.len() == b.args@.len(),
            a.name@ == b.name@,
            forall|j: int| 0 <= j < i ==> (#[trigger] a.args@[j])@ == b.args@[j]@,
        decreases a.args.len() - i,
    {
        if !ty_eq(&a.args[i], &b.args[i]) {
            proof {
                lemma_view_ty_seq(a.args@);
                lemma_view_ty_seq(b.args@);
                assert(view_ty_seq(a.args@)[i as int] == view_ty(a.args@[i as int]));
                assert(view_ty_seq(b.args@)[i as int] == view_ty(b.args@[i as int]));
                assert(view_ty_seq(a.args@)[i as int] != view_ty_seq(b.args@)[i as int]);
            }
            return false;
        }
        i = i + 1;
    }
    proof {
        lemma_view_ty_seq(a.args@);
        lemma_view_ty_seq(b.args@);
        assert(view_ty_seq(a.args@) =~= view_ty_seq(b.args@));
    }
    true
}

/// View of a substitution map.
pub open spec fn view_subst(s: Seq<(String, Type)>) -> Seq<(Seq<char>, TyV)> {
    Seq::new(s.len(), |i: int| (s[i].0@, view_ty(s[i].1)))
}

/// First binding of `name` in a substitution map.
pub fn subst_get<'a>(params: &'a Vec<(String, Type)>, name: &String) -> (r: Option<&'a Type>)
    ensures
        match r {
            Some(t) => subst_lookup(view_subst(params@), name@) == Some(t@),
            None => subst_lookup(view_subst(params@), name@) is None,
        },
{
    let ghost mv = view_subst(params@);
    proof {
        assert(mv.skip(0) =~= mv);
    }
    let mut i: usize = 0;
    while i < params.len()
        invariant
            i <= params.len(),
            mv == view_subst(params@),
            mv.len() == params@.len(),
            subst_lookup(mv, name@) == subst_lookup(mv.skip(i as int), name@),
        decreases params.len() - i,
    {
        proof {
            assert(mv.skip(i as int)[0] == mv[i as int]);
            assert(mv[i as int] == (params@[i as int].0@, view_ty(params@[i as int].1)));
            assert(mv.skip(i as int).drop_first() =~= mv.skip(i as int + 1));
        }
        if string_eq(&params[i].0, name) {
            return Some(&params[i].1);
        }
        i = i + 1;
    }
    proof {
        assert(mv.skip(params@.len() as int) =~= Seq::<(Seq<char>, TyV)>::empty());
    }
    None
}

impl Type {
    /// Structural rewrite replacing every generic placeholder with its
    /// binding; the map must cover every generic of the type.
    pub fn parameterise(&self, params: &Vec<(String, Type)>) -> (r: Type)
        requires
            ty_covered(self@, view_subst(params@)),
        ensures
            r@ == spec_parameterise(self@, view_subst(params@)),
        decreases ty_size(self@), 1nat,
    {
        match self {
            Type::Named(named) => Type::Named(named.parameterise(params)),
            Type::Generic(name) => {
                match subst_get(params, name) {
                    Some(t) => t.clone(),
                    None => {
                        proof {
                            assert(false);
                        }
                        Type::Free
                    },
                }
            },
            Type::Var(id) => Type::Var(*id),
            Type::Free => {
                proof {
                    assert(false);
                }
                Type::Free
            },
        }
    }

    /// Structural rewrite replacing every bound variable with its binding,
    /// recursively, so that only unresolved variables remain as variables.
    /// The dereference budget guards against a cyclic chain of bindings; an
    /// exhausted budget leaves the variable as it stands.
    pub fn resolve(&self, state: &TypeSystem) -> (r: Type)
        requires
            ty_vars_ok(self@, state@.table.len() as nat),
            table_vars_ok(state@.table),
        ensures
            r@ == spec_resolve(self@, state@.table, DEREF_FUEL as nat),
    {
        self.resolve_fuel(state, DEREF_FUEL)
    }

    /// The rewrite of `resolve`, with the explicit dereference budget.
    fn resolve_fuel(&self, state: &TypeSystem, fuel: u64) -> (r: Type)
        requires
            ty_vars_ok(self@, state@.table.len() as nat),
            table_vars_ok(state@.table),
        ensures
            r@ == spec_resolve(self@, state@.table, fuel as nat),
        decreases fuel, ty_size(self@),
    {
        match self {
            Type::Named(named) => {
                let ghost tblv = state@.table;
                proof {
                    lemma_view_ty_seq(named.args@);
                    assert forall|j: int| 0 <= j < named.args@.len() implies ty_vars_ok(
                        (#[trigger] named.args@[j])@,
                        tblv.len() as nat,
                    ) by {
                        assert(view_ty_seq(named.args@)[j] == view_ty(named.args@[j]));
                        assert(ty_vars_ok(view_named(*named).args[j], tblv.len() as nat));
                    }
                }
                let mut out: Vec<Type> = Vec::new();
                let mut i: usize = 0;
                while i < named.args.len()
                    invariant
                        i <= named.args.len(),
                        out@.len() == i,
                        tblv == state@.table,
                        table_vars_ok(tblv),
                        *self == Type::Named(*named),
                        forall|j: int|
                            0 <= j < named.args@.len() ==> ty_vars_ok(
                                (#[trigger] named.args@[j])@,
                                tblv.len() as nat,
                            ),
                        forall|j: int|
                            0 <= j < i ==> (#[trigger] out@[j])@ == spec_resolve(
                                named.args@[j]@,
                                tblv,
                                fuel as nat,
                            ),
                    decreases named.args.len() - i,
                {
                    proof {
                        lemma_view_ty_seq(named.args@);
                        assert(view_ty_seq(named.args@)[i as int] == view_ty(named.args@[i as int]));
                        lemma_ty_size_seq_index(view_ty_seq(named.args@), i as int);
                        assert(self@ == TyV::Named(view_named(*named)));
                        assert(ty_size(self@) == 1 + ty_size_seq(view_ty_seq(named.args@)));
                        assert(ty_size(view_ty(named.args@[i as int])) < ty_size(self@));
                    }
                    let r = named.args[i].resolve_fuel(state, fuel);
                    out.push(r);
                    i = i + 1;
                }
                let res = Type::Named(Named { name: named.name.clone(), args: out });
                proof {
                    lemma_view_ty_seq(res->Named_0.args@);
                    lemma_view_ty_seq(named.args@);
                    lemma_resolve_seq(view_ty_seq(named.args@), tblv, fuel as nat);
                    assert(view_ty_seq(res->Named_0.args@) =~= spec_resolve_seq(
                        view_ty_seq(named.args@),
                        tblv,
                        fuel as nat,
                    ));
                }
                res
            },
            Type::Var(id) => {
                match state.resolve(*id) {
                    Some(t) => {
                        if fuel > 0 {
                            proof {
                                assert(!(state@.table[*id as int] is Free));
                                assert(ty_vars_ok(
                                    state@.table[*id as int],
                                    state@.table.len() as nat,
                                ));
                            }
                            t.resolve_fuel(state, fuel - 1)
                        } else {
                            Type::Var(*id)
                        }
                    },
                    None => Type::Var(*id),
                }
            },
            Type::Free => {
                proof {
                    assert(false);
                }
                Type::Free
            },
            Type::Generic(g) => Type::Generic(g.clone()),
        }
    }
}

impl Named {
    /// Substitution applied to every argument of a named type.
    pub fn parameterise(&self, params: &Vec<(String, Type)>) -> (r: Named)
        requires
            ty_covered(view_ty(Type::Named(*self)), view_subst(params@)),
        ensures
            r@ == spec_parameterise_named(self@, view_subst(params@)),
        decreases ty_size(view_ty(Type::Named(*self))), 0nat,
    {
        let ghost mv = view_subst(params@);
        proof {
            lemma_view_ty_seq(self.args@);
            assert forall|j: int| 0 <= j < self.args@.len() implies ty_covered(
                (#[trigger] self.args@[j])@,
                mv,
            ) by {
                assert(view_ty_seq(self.args@)[j] == view_ty(self.args@[j]));
                assert(ty_covered(view_named(*self).args[j], mv));
            }
        }
        let mut out: Vec<Type> = Vec::new();
        let mut i: usize = 0;
        while i < self.args.len()
            invariant
                i <= self.args.len(),
                out@.len() == i,
                mv == view_subst(params@),
                forall|j: int|
                    0 <= j < self.args@.len() ==> ty_covered((#[trigger] self.args@[j])@, mv),
                forall|j: int|
                    0 <= j < i ==> (#[trigger] out@[j])@ == spec_parameterise(self.args@[j]@, mv),
            decreases self.args.len() - i,
        {
            proof {
                lemma_view_ty_seq(self.args@);
                assert(view_ty_seq(self.args@)[i as int] == view_ty(self.args@[i as int]));
                lemma_ty_size_seq_index(view_ty_seq(self.args@), i as int);
            }
            let r = self.args[i].parameterise(params);
            out.push(r);
            i = i + 1;
        }
        let res = Named { name: self.name.clone(), args: out };
        proof {
            lemma_view_ty_seq(res.args@);
            lemma_view_ty_seq(self.args@);
            lemma_parameterise_seq(view_ty_seq(self.args@), mv);
            assert(view_ty_seq(res.args@) =~= spec_parameterise_seq(view_ty_seq(self.args@), mv));
        }
        res
    }
}

} // verus!
