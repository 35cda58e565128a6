//! Unification: exact equality of two types against the variable table,
//! binding unresolved variables when inference is enabled.

use vstd::prelude::*;

use crate::lemmas::lemma_all_of_ok;
use crate::logic::stmt::Stmt;
use crate::logic::{lemma_view_logic_seq, view_logic_seq, Logic};
use crate::model::{
    frame_table_only, lemma_ty_size_seq_index, logic_ok, splice_item, spec_unify, spec_unify_args,
    spec_unify_named, ty_ok, ty_size, LogicV, TyV, DEREF_FUEL,
};
use crate::state::TypeSystem;
use crate::ty::args::string_eq;
use crate::ty::{lemma_view_ty_seq, ty_eq, view_named, view_ty, view_ty_seq, Named, Type};

verus! {

/// Splice one sub-result into a collected conjunction: a nested conjunction
/// contributes its members, anything else contributes itself.
fn push_spliced(acc: &mut Vec<Logic>, l: Logic)
    ensures
        view_logic_seq(final(acc)@) == view_logic_seq(old(acc)@) + splice_item(l@),
{
    let ghost pre = view_logic_seq(acc@);
    match l {
        Logic::AllOf(xs) => {
            let mut t: usize = 0;
            proof {
                lemma_view_logic_seq(xs@);
                assert(view_logic_seq(xs@).take(0) =~= Seq::<LogicV>::empty());
                assert(pre + view_logic_seq(xs@).take(0) =~= pre);
            }
            while t < xs.len()
                invariant
                    t <= xs.len(),
                    view_logic_seq(xs@).len() == xs@.len(),
                    forall|j: int|
                        0 <= j < xs@.len() ==> #[trigger] view_logic_seq(xs@)[j] == xs@[j]@,
                    view_logic_seq(acc@) == pre + view_logic_seq(xs@).take(t as int),
                decreases xs.len() - t,
            {
                let c = xs[t].clone();
                let ghost accpre = acc@;
                acc.push(c);
                proof {
                    lemma_view_logic_seq(acc@);
                    lemma_view_logic_seq(accpre);
                    assert forall|u: int| 0 <= u < acc@.len() implies #[trigger] view_logic_seq(
                        acc@,
                    )[u] == view_logic_seq(accpre).push(xs@[t as int]@)[u] by {
                        if u < accpre.len() {
                            assert(acc@[u] == accpre[u]);
                        } else {
                            assert(acc@[u]@ == xs@[t as int]@);
                        }
                    }
                    assert(view_logic_seq(acc@) =~= view_logic_seq(accpre).push(xs@[t as int]@));
                    assert(view_logic_seq(xs@).take(t as int + 1) =~= view_logic_seq(xs@).take(
                        t as int,
                    ).push(view_logic_seq(xs@)[t as int]));
                    assert(pre + view_logic_seq(xs@).take(t as int + 1) =~= (pre + view_logic_seq(
                        xs@,
                    ).take(t as int)).push(xs@[t as int]@));
                }
                t = t + 1;
            }
            proof {
                assert(view_logic_seq(xs@).take(xs@.len() as int) =~= view_logic_seq(xs@));
            }
        },
        other => {
            let ghost ov = other@;
            let ghost accpre = acc@;
            acc.push(other);
            proof {
                lemma_view_logic_seq(acc@);
                lemma_view_logic_seq(accpre);
                assert forall|u: int| 0 <= u < acc@.len() implies #[trigger] view_logic_seq(acc@)[u]
                    == (pre + seq![ov])[u] by {
                    if u < accpre.len() {
                        assert(acc@[u] == accpre[u]);
                    } else {
                        assert(acc@[u]@ == ov);
                    }
                }
                assert(view_logic_seq(acc@) =~= pre + seq![ov]);
            }
        },
    }
}

impl Type {
    /// Exact equality of two types against the current variable bindings.
    ///
    /// An unresolved variable on either side is bound to the other side when
    /// `infer` is set, and otherwise yields a residual equality obligation
    /// without touching the table; bound variables are dereferenced; named
    /// types must agree on their name and, recursively, their arguments;
    /// generics agree by name; any other combination is refuted.
    pub fn is_exactly(&self, other: &Type, state: &mut TypeSystem, infer: bool) -> (r: Logic)
        requires
            old(state).wf(),
            ty_ok(self@, old(state)@.decls, old(state)@.table.len() as nat),
            ty_ok(other@, old(state)@.decls, old(state)@.table.len() as nat),
        ensures
            final(state).wf(),
            frame_table_only(old(state)@, final(state)@),
            logic_ok(r@, final(state)@.decls, final(state)@.table.len() as nat),
            r@ == spec_unify(self@, other@, old(state)@.table, infer, DEREF_FUEL as nat).0,
            final(state)@.table == spec_unify(
                self@,
                other@,
                old(state)@.table,
                infer,
                DEREF_FUEL as nat,
            ).1,
    {
        self.is_exactly_fuel(other, state, infer, DEREF_FUEL)
    }

    /// The unifier with an explicit budget of variable dereferences; an
    /// exhausted budget defers the obligation instead of regressing through
    /// a table built without an occurs check.
    fn is_exactly_fuel(&self, other: &Type, state: &mut TypeSystem, infer: bool, fuel: u64) -> (r:
        Logic)
        requires
            old(state).wf(),
            ty_ok(self@, old(state)@.decls, old(state)@.table.len() as nat),
            ty_ok(other@, old(state)@.decls, old(state)@.table.len() as nat),
        ensures
            final(state).wf(),
            frame_table_only(old(state)@, final(state)@),
            logic_ok(r@, final(state)@.decls, final(state)@.table.len() as nat),
            r@ == spec_unify(self@, other@, old(state)@.table, infer, fuel as nat).0,
            final(state)@.table == spec_unify(self@, other@, old(state)@.table, infer, fuel as nat).1,
        decreases fuel, ty_size(self@) + ty_size(other@), 1nat,
    {
        match other {
            Type::Var(j) => {
                match state.resolve(*j) {
                    None => {
                        if ty_eq(self, other) {
                            Logic::True
                        } else if infer {
                            let c = self.clone();
                            state.bind_var(*j, c);
                            Logic::True
                        } else {
                            Logic::Stmt(Stmt::Exactly { ty: self.clone(), is: other.clone() })
                        }
                    },
                    Some(t) => {
                        if fuel > 0 {
                            proof {
                                assert(!(old(state)@.table[*j as int] is Free));
                                assert(ty_ok(
                                    old(state)@.table[*j as int],
                                    old(state)@.decls,
                                    old(state)@.table.len() as nat,
                                ));
                            }
                            self.is_exactly_fuel(&t, state, infer, fuel - 1)
                        } else {
                            Logic::Stmt(Stmt::Exactly { ty: self.clone(), is: other.clone() })
                        }
                    },
                }
            },
            _ => {
                match self {
                    Type::Var(i) => {
                        match state.resolve(*i) {
                            None => {
                                if infer {
                                    let c = other.clone();
                                    state.bind_var(*i, c);
                                    Logic::True
                                } else {
                                    Logic::Stmt(
                                        Stmt::Exactly { ty: self.clone(), is: other.clone() },
                                    )
                                }
                            },
                            Some(t) => {
                                if fuel > 0 {
                                    proof {
                                        assert(!(old(state)@.table[*i as int] is Free));
                                        assert(ty_ok(
                                            old(state)@.table[*i as int],
                                            old(state)@.decls,
                                            old(state)@.table.len() as nat,
                                        ));
                                    }
                                    t.is_exactly_fuel(other, state, infer, fuel - 1)
                                } else {
                                    Logic::Stmt(
                                        Stmt::Exactly { ty: self.clone(), is: other.clone() },
                                    )
                                }
                            },
                        }
                    },
                    Type::Named(an) => {
                        match other {
                            Type::Named(bn) => {
                                let r = an.is_exactly_fuel(bn, state, infer, fuel);
                                proof {
                                    assert(spec_unify(
                                        self@,
                                        other@,
                                        old(state)@.table,
                                        infer,
                                        fuel as nat,
                                    ) == spec_unify_named(
                                        an@,
                                        bn@,
                                        old(state)@.table,
                                        infer,
                                        fuel as nat,
                                    ));
                                }
                                r
                            },
                            _ => Logic::False,
                        }
                    },
                    Type::Generic(g) => {
                        match other {
                            Type::Generic(h) => {
                                if string_eq(g, h) {
                                    Logic::True
                                } else {
                                    Logic::False
                                }
                            },
                            _ => Logic::False,
                        }
                    },
                    Type::Free => {
                        proof {
                            assert(false);
                        }
                        Logic::False
                    },
                }
            },
        }
    }
}

impl Named {
    /// Exact equality of two named types: the names must agree, and the
    /// argument lists are unified pairwise, left to right, any refuted pair
    /// refuting the whole and the remaining sub-results joined into one
    /// conjunction.
    pub fn is_exactly(&self, other: &Named, state: &mut TypeSystem, infer: bool) -> (r: Logic)
        requires
            old(state).wf(),
            ty_ok(TyV::Named(self@), old(state)@.decls, old(state)@.table.len() as nat),
            ty_ok(TyV::Named(other@), old(state)@.decls, old(state)@.table.len() as nat),
        ensures
            final(state).wf(),
            frame_table_only(old(state)@, final(state)@),
            logic_ok(r@, final(state)@.decls, final(state)@.table.len() as nat),
            r@ == spec_unify_named(self@, other@, old(state)@.table, infer, DEREF_FUEL as nat).0,
            final(state)@.table == spec_unify_named(
                self@,
                other@,
                old(state)@.table,
                infer,
                DEREF_FUEL as nat,
            ).1,
    {
        self.is_exactly_fuel(other, state, infer, DEREF_FUEL)
    }

    /// The pairwise walk of `is_exactly`, with the explicit dereference
    /// budget.
    fn is_exactly_fuel(&self, other: &Named, state: &mut TypeSystem, infer: bool, fuel: u64) -> (r:
        Logic)
        requires
            old(state).wf(),
            ty_ok(TyV::Named(self@), old(state)@.decls, old(state)@.table.len() as nat),
            ty_ok(TyV::Named(other@), old(state)@.decls, old(state)@.table.len() as nat),
        ensures
            final(state).wf(),
            frame_table_only(old(state)@, final(state)@),
            logic_ok(r@, final(state)@.decls, final(state)@.table.len() as nat),
            r@ == spec_unify_named(self@, other@, old(state)@.table, infer, fuel as nat).0,
            final(state)@.table == spec_unify_named(
                self@,
                other@,
                old(state)@.table,
                infer,
                fuel as nat,
            ).1,
        decreases fuel, ty_size(TyV::Named(view_named(*self))) + ty_size(
            TyV::Named(view_named(*other)),
        ), 0nat,
    {
        if !string_eq(&self.name, &other.name) {
            return Logic::False;
        }
        proof {
            lemma_view_ty_seq(self.args@);
            lemma_view_ty_seq(other.args@);
        }
        // Generic arity is an invariant of well-formed types: both sides
        // carry the arity of the one declaration their shared name has.
        assert(self.args@.len() == other.args@.len());
        let ghost va = view_named(*self).args;
        let ghost vb = view_named(*other).args;
        let ghost ds = old(state)@.decls;
        let ghost n = old(state)@.table.len() as nat;
        let ghost full = spec_unify_args(va, vb, old(state)@.table, infer, fuel as nat);
        proof {
            assert(va.skip(0) =~= va);
            assert(vb.skip(0) =~= vb);
            assert forall|j: int| 0 <= j < va.len() implies ty_ok(#[trigger] va[j], ds, n) && ty_ok(
                vb[j],
                ds,
                n,
            ) by {
                assert(view_named(*self).args[j] == va[j]);
                assert(view_named(*other).args[j] == vb[j]);
            }
        }
        let mut logics: Vec<Logic> = Vec::new();
        let mut i: usize = 0;
        proof {
            assert(view_logic_seq(logics@) =~= Seq::<LogicV>::empty());
        }
        while i < self.args.len()
            invariant
                i <= self.args.len(),
                state.wf(),
                frame_table_only(old(state)@, state@),
                self.args@.len() == other.args@.len(),
                va == view_named(*self).args,
                vb == view_named(*other).args,
                va.len() == self.args@.len(),
                vb.len() == other.args@.len(),
                ds == old(state)@.decls,
                n == old(state)@.table.len() as nat,
                self@.name == other@.name,
                full == spec_unify_args(va, vb, old(state)@.table, infer, fuel as nat),
                forall|j: int| 0 <= j < va.len() ==> ty_ok(#[trigger] va[j], ds, n) && ty_ok(vb[j], ds, n),
                forall|j: int|
                    0 <= j < logics@.len() ==> logic_ok((#[trigger] logics@[j])@, ds, n),
                full.1 == spec_unify_args(
                    va.skip(i as int),
                    vb.skip(i as int),
                    state@.table,
                    infer,
                    fuel as nat,
                ).1,
                (match spec_unify_args(
                    va.skip(i as int),
                    vb.skip(i as int),
                    state@.table,
                    infer,
                    fuel as nat,
                ).0 {
                    Option::None => full.0 is None,
                    Option::Some(items) => full.0 == Some(view_logic_seq(logics@) + items),
                }),
            decreases self.args.len() - i,
        {
            let ghost tbl_cur = state@.table;
            proof {
                lemma_view_ty_seq(self.args@);
                lemma_view_ty_seq(other.args@);
                assert(va.skip(i as int)[0] == va[i as int]);
                assert(vb.skip(i as int)[0] == vb[i as int]);
                assert(va[i as int] == view_ty(self.args@[i as int]));
                assert(vb[i as int] == view_ty(other.args@[i as int]));
                assert(va.skip(i as int).drop_first() =~= va.skip(i as int + 1));
                assert(vb.skip(i as int).drop_first() =~= vb.skip(i as int + 1));
                lemma_ty_size_seq_index(view_ty_seq(self.args@), i as int);
                lemma_ty_size_seq_index(view_ty_seq(other.args@), i as int);
            }
            let l = self.args[i].is_exactly_fuel(&other.args[i], state, infer, fuel);
            let is_false = match &l {
                Logic::False => true,
                _ => false,
            };
            proof {
                assert(is_false == (l@ is False));
            }
            if is_false {
                proof {
                    assert(spec_unify_args(
                        va.skip(i as int),
                        vb.skip(i as int),
                        tbl_cur,
                        infer,
                        fuel as nat,
                    ).0 is None);
                    assert(full.0 is None);
                }
                return Logic::False;
            }
            let ghost pre_logics = view_logic_seq(logics@);
            let ghost lv = l@;
            proof {
                lemma_view_logic_seq(logics@);
                assert forall|j: int| 0 <= j < pre_logics.len() implies logic_ok(
                    #[trigger] pre_logics[j],
                    ds,
                    n,
                ) by {
                    assert(pre_logics[j] == logics@[j]@);
                }
                assert forall|j: int| 0 <= j < splice_item(lv).len() implies logic_ok(
                    #[trigger] splice_item(lv)[j],
                    ds,
                    n,
                ) by {
                    if lv is AllOf {
                        assert(splice_item(lv)[j] == lv->AllOf_0[j]);
                    }
                }
            }
            push_spliced(&mut logics, l);
            proof {
                lemma_view_logic_seq(logics@);
                assert forall|j: int| 0 <= j < logics@.len() implies logic_ok(
                    (#[trigger] logics@[j])@,
                    ds,
                    n,
                ) by {
                    assert(logics@[j]@ == view_logic_seq(logics@)[j]);
                    assert(view_logic_seq(logics@)[j] == (pre_logics + splice_item(lv))[j]);
                    if j < pre_logics.len() {
                        assert(logic_ok(pre_logics[j], ds, n));
                    } else {
                        assert(logic_ok(splice_item(lv)[j - pre_logics.len()], ds, n));
                    }
                }
            }
            i = i + 1;
        }
        proof {
            assert(va.skip(va.len() as int) =~= Seq::<TyV>::empty());
            assert(vb.skip(vb.len() as int) =~= Seq::<TyV>::empty());
            assert(full.0 == Some(view_logic_seq(logics@) + Seq::<LogicV>::empty()));
            assert(view_logic_seq(logics@) + Seq::<LogicV>::empty() =~= view_logic_seq(logics@));
            lemma_view_logic_seq(logics@);
            lemma_all_of_ok(view_logic_seq(logics@), ds, n);
        }
        Logic::all_of(logics)
    }
}

} // verus!
