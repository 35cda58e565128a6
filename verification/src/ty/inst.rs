//! Instantiation of a declared type: binding its parameters to supplied
//! arguments or fresh variables, and recording its constraints as global
//! proof obligations.

use vstd::prelude::*;

use crate::lemmas::{
    lemma_find_decl_member, lemma_scoped_covered, lemma_subst_lookup_present, lemma_ty_ok_mono,
};
use crate::model::{
    decl_ok, find_decl, inst_ok, spec_inst, spec_inst_named, spec_parameterise, subst_lookup,
    ty_ok, ty_scoped, BoundV, DeclV, StateV, TyV,
};
use crate::model::state_wf;
use crate::state::TypeSystem;
use crate::ty::bound::view_bound_seq;
use crate::ty::decl::Decl;
use crate::ty::is_bound::lemma_view_bound_index;
use crate::ty::{lemma_view_ty_seq, view_subst, view_ty, view_ty_seq, Named, Type};

verus! {

impl Type {
    /// Instantiate a declared type by name.
    ///
    /// Supplied arguments fill the declaration's parameters in order; extra
    /// arguments are silently dropped; each missing one becomes a freshly
    /// allocated unresolved variable. The declaration's constraints,
    /// substituted accordingly, are appended to the global obligation list.
    /// A bare variable instantiates to itself.
    pub fn inst(&self, state: &mut TypeSystem) -> (r: Type)
        requires
            old(state).wf(),
            inst_ok(self@, old(state)@.decls, old(state)@.table.len() as nat),
        ensures
            final(state).wf(),
            final(state)@.decls == old(state)@.decls,
            final(state)@.impls == old(state)@.impls,
            final(state)@.generics == old(state)@.generics,
            final(state)@.goal == old(state)@.goal,
            final(state)@.counter == final(state)@.table.len(),
            r@ == spec_inst(self@, old(state)@.decls, old(state)@.table, old(state)@.bounds).0,
            final(state)@.table == spec_inst(
                self@,
                old(state)@.decls,
                old(state)@.table,
                old(state)@.bounds,
            ).1,
            final(state)@.bounds == spec_inst(
                self@,
                old(state)@.decls,
                old(state)@.table,
                old(state)@.bounds,
            ).2,
            ty_ok(r@, final(state)@.decls, final(state)@.table.len() as nat),
    {
        let ghost ds = old(state)@.decls;
        let ghost tbl0 = old(state)@.table;
        let ghost bs0 = old(state)@.bounds;
        let ghost n0 = old(state)@.table.len() as nat;
        match self {
            Type::Named(named) => {
                let d: Decl = match state.get_decl(&named.name) {
                    Some(dd) => dd.clone(),
                    None => {
                        proof {
                            assert(false);
                        }
                        Decl { name: String::new(), args: Vec::new(), bounds: Vec::new() }
                    },
                };
                let ghost dv = d@;
                proof {
                    assert(find_decl(ds, named@.name) == Some(dv));
                    lemma_find_decl_member(ds, named@.name);
                    let w = choose|w: int|
                        0 <= w < ds.len() && #[trigger] ds[w] == dv && ds[w].name == named@.name;
                    assert(decl_ok(ds[w], ds, n0));
                    lemma_view_ty_seq(named.args@);
                }
                let ghost res = spec_inst_named(named@, dv, tbl0, bs0);
                // Supplied arguments, clipped to the declaration's arity.
                let keep = if named.args.len() > d.args.len() {
                    d.args.len()
                } else {
                    named.args.len()
                };
                let ghost supplied = if named@.args.len() > dv.args.len() {
                    named@.args.take(dv.args.len() as int)
                } else {
                    named@.args
                };
                let mut args2: Vec<Type> = Vec::new();
                let mut i: usize = 0;
                while i < keep
                    invariant
                        i <= keep,
                        keep <= named.args@.len(),
                        keep == supplied.len(),
                        supplied.len() <= named@.args.len(),
                        forall|j: int| 0 <= j < supplied.len() ==> #[trigger] supplied[j] == named@.args[j],
                        named@.args.len() == named.args@.len(),
                        forall|j: int|
                            0 <= j < named.args@.len() ==> #[trigger] named@.args[j] == named.args@[j]@,
                        args2@.len() == i,
                        forall|j: int| 0 <= j < i ==> (#[trigger] args2@[j])@ == supplied[j],
                    decreases keep - i,
                {
                    let c = named.args[i].clone();
                    args2.push(c);
                    i = i + 1;
                }
                // Fresh variables for the missing parameters.
                let missing = d.args.len() - keep;
                let mut m: usize = 0;
                proof {
                    assert(tbl0 + Seq::new(0nat, |k: int| TyV::Free) =~= tbl0);
                }
                while m < missing
                    invariant
                        m <= missing,
                        state.wf(),
                        state@ == (StateV {
                            counter: (tbl0.len() + m) as nat,
                            table: tbl0 + Seq::new(m as nat, |k: int| TyV::Free),
                            ..old(state)@
                        }),
                        args2@.len() == keep + m,
                        keep == supplied.len(),
                        forall|j: int| 0 <= j < keep ==> (#[trigger] args2@[j])@ == supplied[j],
                        forall|j: int|
                            keep <= j < args2@.len() ==> (#[trigger] args2@[j])@ == TyV::Var(
                                (tbl0.len() + j - keep) as nat,
                            ),
                    decreases missing - m,
                {
                    proof {
                        assert(tbl0 + Seq::new(m as nat, |k: int| TyV::Free) =~= state@.table);
                    }
                    let id = state.new_type_var();
                    args2.push(Type::Var(id));
                    proof {
                        assert((tbl0 + Seq::new(m as nat, |k: int| TyV::Free)).push(TyV::Free) =~= tbl0
                            + Seq::new((m + 1) as nat, |k: int| TyV::Free));
                    }
                    m = m + 1;
                }
                proof {
                    assert(state@.table =~= res.1);
                    assert(state@.table.len() == dv.args.len() + tbl0.len() - keep);
                }
                // The parameter map: each declaration parameter to its argument.
                let mut params: Vec<(String, Type)> = Vec::new();
                let mut p: usize = 0;
                proof {
                    assert(args2@.len() == d.args@.len());
                }
                while p < d.args.len()
                    invariant
                        p <= d.args.len(),
                        dv == d@,
                        args2@.len() == d.args@.len(),
                        dv.args.len() == d.args@.len(),
                        forall|j: int| 0 <= j < d.args@.len() ==> #[trigger] dv.args[j] == d.args@[j]@,
                        params@.len() == p,
                        forall|j: int|
                            0 <= j < p ==> #[trigger] view_subst(params@)[j] == (
                            dv.args[j],
                            args2@[j]@,
                            ),
                    decreases d.args.len() - p,
                {
                    let key = d.args[p].clone();
                    let value = args2[p].clone();
                    let ghost prepar = params@;
                    params.push((key, value));
                    proof {
                        assert forall|j: int| 0 <= j < params@.len() implies #[trigger] view_subst(
                            params@,
                        )[j] == (dv.args[j], args2@[j]@) by {
                            if j < prepar.len() {
                                assert(params@[j] == prepar[j]);
                                assert(view_subst(prepar)[j] == (prepar[j].0@, view_ty(prepar[j].1)));
                            }
                        }
                    }
                    p = p + 1;
                }
                let ghost mv = view_subst(params@);
                let ghost margs = Seq::new(
                    dv.args.len(),
                    |j: int| (dv.args[j], res.0->Named_0.args[j]),
                );
                proof {
                    assert forall|j: int| 0 <= j < dv.args.len() implies #[trigger] mv[j] == margs[j] by {
                        if j < keep {
                            assert(args2@[j]@ == supplied[j]);
                        }
                    }
                    assert(mv =~= margs);
                    assert forall|g: Seq<char>| dv.args.contains(g) implies #[trigger] subst_lookup(
                        mv,
                        g,
                    ) is Some by {
                        let w = choose|w: int| 0 <= w < dv.args.len() && dv.args[w] == g;
                        assert(mv[w].0 == g);
                        lemma_subst_lookup_present(mv, g);
                    }
                }
                // Record the declaration's constraints, substituted.
                let mut q: usize = 0;
                let ghost dbv = view_bound_seq(d.bounds@);
                proof {
                    lemma_view_bound_index(d.bounds@);
                    assert(state@.bounds == bs0);
                    assert(bs0 + Seq::new(0, |j: int| res_bound(dv, mv, j)) =~= bs0);
                }
                while q < d.bounds.len()
                    invariant
                        q <= d.bounds.len(),
                        state.wf(),
                        ds == old(state)@.decls,
                        bs0 == old(state)@.bounds,
                        tbl0 == old(state)@.table,
                        res == spec_inst_named(named@, dv, tbl0, bs0),
                        dv == d@,
                        mv == view_subst(params@),
                        dbv == view_bound_seq(d.bounds@),
                        dbv.len() == d.bounds@.len(),
                        dbv == dv.bounds,
                        forall|j: int| 0 <= j < d.bounds@.len() ==> #[trigger] dbv[j] == d.bounds@[j]@,
                        forall|j: int|
                            0 <= j < dv.bounds.len() ==> ty_scoped((#[trigger] dv.bounds[j]).sub, dv.args)
                                && ty_scoped(dv.bounds[j].super_, dv.args),
                        forall|g: Seq<char>|
                            dv.args.contains(g) ==> #[trigger] subst_lookup(mv, g) is Some,
                        state@ == (StateV {
                            counter: res.1.len() as nat,
                            table: res.1,
                            bounds: bs0 + Seq::new(q as nat, |j: int| res_bound(dv, mv, j)),
                            ..old(state)@
                        }),
                    decreases d.bounds.len() - q,
                {
                    proof {
                        assert(dbv[q as int] == d.bounds@[q as int]@);
                        assert(ty_scoped(dv.bounds[q as int].sub, dv.args));
                        lemma_scoped_covered(dv.bounds[q as int].sub, dv.args, mv);
                        lemma_scoped_covered(dv.bounds[q as int].super_, dv.args, mv);
                    }
                    let b = d.bounds[q].parameterise(&params);
                    let ghost sv1 = state@;
                    let ghost bpre = state@.bounds;
                    state.bounds.push(b);
                    proof {
                        lemma_view_bound_index(state.bounds@);
                        assert(state@.bounds =~= sv1.bounds.push(b@));
                        assert(state@ == (StateV { bounds: sv1.bounds.push(b@), ..sv1 }));
                        assert(state@.table == sv1.table);
                        assert(state@.decls == sv1.decls);
                        assert(state@.impls == sv1.impls);
                        assert(state@.goal == sv1.goal);
                        assert(state_wf(sv1));
                        assert(state_wf(state@));
                    }
                    proof {
                        lemma_view_bound_index(state.bounds@);
                        lemma_view_bound_index(old(state).bounds@);
                        assert(view_bound_seq(state.bounds@) =~= bpre.push(b@));
                        assert(bpre.push(b@) =~= bs0 + Seq::new(
                            (q + 1) as nat,
                            |j: int| res_bound(dv, mv, j),
                        ));
                    }
                    q = q + 1;
                }
                let r = Type::Named(Named { name: named.name.clone(), args: args2 });
                proof {
                    lemma_view_ty_seq(r->Named_0.args@);
                    assert forall|j: int| 0 <= j < args2@.len() implies #[trigger] view_ty_seq(
                        args2@,
                    )[j] == res.0->Named_0.args[j] by {
                        assert(view_ty_seq(args2@)[j] == args2@[j]@);
                        if j < keep {
                            assert(args2@[j]@ == supplied[j]);
                        }
                    }
                    assert(view_ty_seq(args2@) =~= res.0->Named_0.args);
                    assert(state@.bounds =~= res.2);
                    assert forall|j: int| 0 <= j < args2@.len() implies ty_ok(
                        #[trigger] view_ty_seq(args2@)[j],
                        ds,
                        state@.table.len() as nat,
                    ) by {
                        if j < keep {
                            assert(ty_ok(named@.args[j], ds, n0));
                            lemma_ty_ok_mono(named@.args[j], ds, n0, ds, state@.table.len() as nat);
                        }
                    }
                }
                r
            },
            Type::Var(id) => Type::Var(*id),
            Type::Generic(_) => {
                proof {
                    assert(false);
                }
                Type::Free
            },
            Type::Free => {
                proof {
                    assert(false);
                }
                Type::Free
            },
        }
    }
}

/// One substituted constraint of an instantiated declaration.
pub open spec fn res_bound(dv: DeclV, mv: Seq<(Seq<char>, TyV)>, j: int) -> BoundV {
    BoundV {
        sub: spec_parameterise(dv.bounds[j].sub, mv),
        super_: spec_parameterise(dv.bounds[j].super_, mv),
    }
}

} // verus!
