//! Subtyping queries: search the implementation graph for every derivation
//! of the target from the source, and combine the derivations' obligations.

use vstd::prelude::*;

use crate::lemmas::{lemma_all_of_ok, lemma_impl_map_ok, lemma_one_of_ok, lemma_paths_elems};
use crate::logic::stmt::Stmt;
use crate::logic::{lemma_view_logic_seq, view_logic_seq, Logic};
use crate::model::{
    bound_ok, chase, frame_table_only, impl_ok, logic_ok, spec_apply_chain, spec_extends,
    spec_extends_chains, spec_impl_map, spec_unify_named, ty_ok, BoundV, ImplV, LogicV,
    NamedV, StmtV, TyV, DEREF_FUEL,
};
use crate::state::TypeSystem;
use crate::ty::bound::{view_bound_seq, Bound};
use crate::ty::impl_::{view_impl_seq, Impl};
use crate::ty::path::view_paths;
use crate::ty::{Named, Type};

verus! {

/// Follow top-level variable indirections through the table, up to `fuel`
/// steps.
fn chase_exec(t: &Type, state: &TypeSystem, fuel: u64) -> (r: Type)
    requires
        state.wf(),
        ty_ok(t@, state@.decls, state@.table.len() as nat),
    ensures
        r@ == chase(t@, state@.table, fuel as nat),
        ty_ok(r@, state@.decls, state@.table.len() as nat),
    decreases fuel,
{
    match t {
        Type::Var(id) => {
            match state.resolve(*id) {
                Some(t2) => {
                    if fuel > 0 {
                        proof {
                            assert(!(state@.table[*id as int] is Free));
                            assert(ty_ok(
                                state@.table[*id as int],
                                state@.decls,
                                state@.table.len() as nat,
                            ));
                        }
                        chase_exec(&t2, state, fuel - 1)
                    } else {
                        t.clone()
                    }
                },
                None => t.clone(),
            }
        },
        _ => t.clone(),
    }
}

/// Walk one derivation chain hop by hop from a concrete type, collecting
/// the residual constraints of every hop; `None` when some hop's pattern
/// match fails.
fn apply_chain(chain: &Vec<Impl>, ty: &Named, state: &TypeSystem) -> (r: Option<(Named, Vec<Bound>)>)
    requires
        state.wf(),
        ty_ok(TyV::Named(ty@), state@.decls, state@.table.len() as nat),
        forall|j: int|
            0 <= j < chain@.len() ==> impl_ok(
                #[trigger] view_impl_seq(chain@)[j],
                state@.decls,
                state@.table.len() as nat,
            ),
    ensures
        match r {
            None => spec_apply_chain(view_impl_seq(chain@), ty@) is None,
            Some(p) => spec_apply_chain(view_impl_seq(chain@), ty@) == Some(
                (p.0@, view_bound_seq(p.1@)),
            ) && ty_ok(TyV::Named(p.0@), state@.decls, state@.table.len() as nat) && forall|j: int|
                0 <= j < p.1@.len() ==> bound_ok(
                    (#[trigger] p.1@[j])@,
                    state@.decls,
                    state@.table.len() as nat,
                ),
        },
{
    let ghost cv = view_impl_seq(chain@);
    let ghost ds = state@.decls;
    let ghost n = state@.table.len() as nat;
    let ghost full = spec_apply_chain(cv, ty@);
    let mut cur: Named = ty.clone();
    let mut bounds: Vec<Bound> = Vec::new();
    let mut i: usize = 0;
    proof {
        assert(cv.skip(0) =~= cv);
        assert(view_bound_seq(bounds@) =~= Seq::<BoundV>::empty());
    }
    while i < chain.len()
        invariant
            i <= chain.len(),
            cv == view_impl_seq(chain@),
            cv.len() == chain@.len(),
            ds == state@.decls,
            n == state@.table.len() as nat,
            forall|j: int| 0 <= j < cv.len() ==> impl_ok(#[trigger] cv[j], ds, n),
            ty_ok(TyV::Named(cur@), ds, n),
            forall|j: int| 0 <= j < bounds@.len() ==> bound_ok((#[trigger] bounds@[j])@, ds, n),
            full == spec_apply_chain(cv, ty@),
            (match spec_apply_chain(cv.skip(i as int), cur@) {
                Option::None => full is None,
                Option::Some(p) => full == Some((p.0, view_bound_seq(bounds@) + p.1)),
            }),
        decreases chain.len() - i,
    {
        proof {
            assert(cv.skip(i as int)[0] == cv[i as int]);
            assert(cv[i as int] == chain@[i as int]@);
            assert(cv.skip(i as int).drop_first() =~= cv.skip(i as int + 1));
            lemma_impl_map_ok(cv[i as int], cur@, ds, n);
        }
        match chain[i].map(&cur) {
            None => {
                return None;
            },
            Some(step) => {
                let (next, bs) = step;
                proof {
                    assert(spec_impl_map(cv[i as int], cur@) == Some((next@, view_bound_seq(bs@))));
                }
                let ghost bpre = view_bound_seq(bounds@);
                let mut j: usize = 0;
                proof {
                    lemma_view_bound_index(bs@);
                    lemma_view_bound_index(bounds@);
                    assert forall|t: int| 0 <= t < bs@.len() implies bound_ok(
                        (#[trigger] bs@[t])@,
                        ds,
                        n,
                    ) by {
                        assert(view_bound_seq(bs@)[t] == bs@[t]@);
                    }
                    assert(view_bound_seq(bs@).take(0) =~= Seq::<BoundV>::empty());
                    assert(bpre + view_bound_seq(bs@).take(0) =~= bpre);
                }
                while j < bs.len()
                    invariant
                        j <= bs.len(),
                        ds == state@.decls,
                        n == state@.table.len() as nat,
                        bpre.len() + j == bounds@.len(),
                        view_bound_seq(bounds@) == bpre + view_bound_seq(bs@).take(j as int),
                        forall|t: int|
                            0 <= t < bs@.len() ==> bound_ok((#[trigger] bs@[t])@, ds, n),
                        forall|t: int|
                            0 <= t < bpre.len() ==> bound_ok(#[trigger] bpre[t], ds, n),
                        forall|t: int|
                            0 <= t < bounds@.len() ==> bound_ok((#[trigger] bounds@[t])@, ds, n),
                    decreases bs.len() - j,
                {
                    let c = bs[j].clone();
                    let ghost bdpre = bounds@;
                    bounds.push(c);
                    proof {
                        lemma_view_bound_index(bounds@);
                        lemma_view_bound_index(bdpre);
                        lemma_view_bound_index(bs@);
                        assert forall|t: int| 0 <= t < bounds@.len() implies #[trigger] view_bound_seq(
                            bounds@,
                        )[t] == (bpre + view_bound_seq(bs@).take(j as int + 1))[t] by {
                            if t < bdpre.len() {
                                assert(bounds@[t] == bdpre[t]);
                                assert(view_bound_seq(bdpre)[t] == bdpre[t]@);
                            } else {
                                assert(bounds@[t]@ == bs@[j as int]@);
                                assert(view_bound_seq(bs@)[j as int] == bs@[j as int]@);
                            }
                        }
                        assert(view_bound_seq(bounds@) =~= bpre + view_bound_seq(bs@).take(
                            j as int + 1,
                        ));
                    }
                    j = j + 1;
                }
                proof {
                    assert(view_bound_seq(bs@).take(bs@.len() as int) =~= view_bound_seq(bs@));
                    assert(bpre + view_bound_seq(bs@) + spec_rest_bounds(
                        cv.skip(i as int + 1),
                        next@,
                    ) =~= bpre + (view_bound_seq(bs@) + spec_rest_bounds(
                        cv.skip(i as int + 1),
                        next@,
                    )));
                }
                cur = next;
            },
        }
        i = i + 1;
    }
    proof {
        assert(cv.skip(cv.len() as int) =~= Seq::<ImplV>::empty());
        assert(view_bound_seq(bounds@) + Seq::<BoundV>::empty() =~= view_bound_seq(bounds@));
    }
    Some((cur, bounds))
}

/// The residual constraints that the rest of a chain will contribute.
pub open spec fn spec_rest_bounds(chain: Seq<ImplV>, ty: NamedV) -> Seq<BoundV> {
    match spec_apply_chain(chain, ty) {
        Some(p) => p.1,
        None => Seq::empty(),
    }
}

/// Index facts for the view of a list of constraints.
pub proof fn lemma_view_bound_index(s: Seq<Bound>)
    ensures
        view_bound_seq(s).len() == s.len(),
        forall|i: int| 0 <= i < s.len() ==> #[trigger] view_bound_seq(s)[i] == s[i]@,
{
}

impl Type {
    /// A subtyping query. Both sides are dereferenced through the table;
    /// when both are named, every derivation chain is applied and any one
    /// suffices (their outcomes form a disjunction, and no chain at all
    /// refutes the query); when a side is still an unresolved variable the
    /// obligation is deferred unchanged.
    pub fn is_bound_by(&self, other: &Type, state: &mut TypeSystem, infer: bool) -> (r: Logic)
        requires
            old(state).wf(),
            ty_ok(self@, old(state)@.decls, old(state)@.table.len() as nat),
            ty_ok(other@, old(state)@.decls, old(state)@.table.len() as nat),
            old(state)@.impls.len() < usize::MAX,
        ensures
            final(state).wf(),
            frame_table_only(old(state)@, final(state)@),
            logic_ok(r@, final(state)@.decls, final(state)@.table.len() as nat),
            r@ == spec_extends(
                self@,
                other@,
                old(state)@.impls,
                old(state)@.table,
                infer,
                DEREF_FUEL as nat,
            ).0,
            final(state)@.table == spec_extends(
                self@,
                other@,
                old(state)@.impls,
                old(state)@.table,
                infer,
                DEREF_FUEL as nat,
            ).1,
    {
        let ghost ds = old(state)@.decls;
        let ghost n = old(state)@.table.len() as nat;
        let ghost iv = old(state)@.impls;
        let s1 = chase_exec(self, state, DEREF_FUEL);
        let s2 = chase_exec(other, state, DEREF_FUEL);
        match (&s1, &s2) {
            (Type::Named(this), Type::Named(target)) => {
                let chains = this.paths_to_sub_ty(target, state);
                let ghost cvs = view_paths(chains@);
                proof {
                    lemma_paths_elems(this@.name, target@.name, iv, (iv.len() + 1) as nat);
                    assert forall|ci: int, j: int|
                        0 <= ci < cvs.len() && 0 <= j < cvs[ci].len() implies impl_ok(
                        #[trigger] cvs[ci][j],
                        ds,
                        n,
                    ) by {
                        assert(iv.contains(cvs[ci][j]));
                        let t = choose|t: int| 0 <= t < iv.len() && iv[t] == cvs[ci][j];
                        assert(impl_ok(iv[t], ds, n));
                    }
                    assert(cvs.skip(0) =~= cvs);
                }
                let ghost full = spec_extends_chains(
                    cvs,
                    this@,
                    target@,
                    old(state)@.table,
                    infer,
                    DEREF_FUEL as nat,
                );
                let mut logics: Vec<Logic> = Vec::new();
                let mut ci: usize = 0;
                proof {
                    assert(view_logic_seq(logics@) =~= Seq::<LogicV>::empty());
                }
                while ci < chains.len()
                    invariant
                        ci <= chains.len(),
                        state.wf(),
                        frame_table_only(old(state)@, state@),
                        ds == old(state)@.decls,
                        n == old(state)@.table.len() as nat,
                        iv == old(state)@.impls,
                        cvs == view_paths(chains@),
                        cvs.len() == chains@.len(),
                        ty_ok(TyV::Named(this@), ds, n),
                        ty_ok(TyV::Named(target@), ds, n),
                        forall|a: int, b: int|
                            0 <= a < cvs.len() && 0 <= b < cvs[a].len() ==> impl_ok(
                                #[trigger] cvs[a][b],
                                ds,
                                n,
                            ),
                        full == spec_extends_chains(
                            cvs,
                            this@,
                            target@,
                            old(state)@.table,
                            infer,
                            DEREF_FUEL as nat,
                        ),
                        forall|j: int|
                            0 <= j < logics@.len() ==> logic_ok((#[trigger] logics@[j])@, ds, n),
                        full.1 == spec_extends_chains(
                            cvs.skip(ci as int),
                            this@,
                            target@,
                            state@.table,
                            infer,
                            DEREF_FUEL as nat,
                        ).1,
                        full.0 == view_logic_seq(logics@) + spec_extends_chains(
                            cvs.skip(ci as int),
                            this@,
                            target@,
                            state@.table,
                            infer,
                            DEREF_FUEL as nat,
                        ).0,
                    decreases chains.len() - ci,
                {
                    let ghost tbl_cur = state@.table;
                    proof {
                        assert(cvs.skip(ci as int)[0] == cvs[ci as int]);
                        assert(cvs[ci as int] == view_impl_seq(chains@[ci as int]@));
                        assert(cvs.skip(ci as int).drop_first() =~= cvs.skip(ci as int + 1));
                        assert forall|b: int| 0 <= b < chains@[ci as int]@.len() implies impl_ok(
                            #[trigger] view_impl_seq(chains@[ci as int]@)[b],
                            ds,
                            n,
                        ) by {
                            assert(cvs[ci as int][b] == view_impl_seq(chains@[ci as int]@)[b]);
                        }
                    }
                    match apply_chain(&chains[ci], this, state) {
                        None => {},
                        Some(step) => {
                            let (derived, bs) = step;
                            let mut path_logic: Vec<Logic> = Vec::new();
                            let ghost bsv = view_bound_seq(bs@);
                            let ghost stmts = Seq::new(
                                bsv.len(),
                                |t: int|
                                    LogicV::Stmt(
                                        StmtV::Extends { sub: bsv[t].sub, super_: bsv[t].super_ },
                                    ),
                            );
                            let mut j: usize = 0;
                            proof {
                                lemma_view_bound_index(bs@);
                                assert(view_logic_seq(path_logic@) =~= Seq::<LogicV>::empty());
                                assert(view_logic_seq(path_logic@) =~= stmts.take(0));
                            }
                            while j < bs.len()
                                invariant
                                    j <= bs.len(),
                                    ds == state@.decls,
                                    n == state@.table.len() as nat,
                                    bsv == view_bound_seq(bs@),
                                    bsv.len() == bs@.len(),
                                    stmts.len() == bsv.len(),
                                    forall|t: int|
                                        0 <= t < bsv.len() ==> #[trigger] stmts[t] == LogicV::Stmt(
                                            StmtV::Extends {
                                                sub: bsv[t].sub,
                                                super_: bsv[t].super_,
                                            },
                                        ),
                                    forall|t: int|
                                        0 <= t < bs@.len() ==> bound_ok((#[trigger] bs@[t])@, ds, n),
                                    path_logic@.len() == j,
                                    view_logic_seq(path_logic@) == stmts.take(j as int),
                                decreases bs.len() - j,
                            {
                                let ghost ppre = path_logic@;
                                let b = bs[j].clone();
                                let l = b.into_logic();
                                path_logic.push(l);
                                proof {
                                    lemma_view_bound_index(bs@);
                                    lemma_view_logic_seq(path_logic@);
                                    lemma_view_logic_seq(ppre);
                                    assert forall|t: int|
                                        0 <= t < path_logic@.len() implies #[trigger] view_logic_seq(
                                        path_logic@,
                                    )[t] == stmts.take(j as int + 1)[t] by {
                                        if t < ppre.len() {
                                            assert(path_logic@[t] == ppre[t]);
                                        } else {
                                            assert(path_logic@[t]@ == stmts[j as int]);
                                        }
                                    }
                                    assert(view_logic_seq(path_logic@) =~= stmts.take(j as int + 1));
                                }
                                j = j + 1;
                            }
                            let l = derived.is_exactly(target, state, infer);
                            let ghost ppre = path_logic@;
                            path_logic.push(l);
                            proof {
                                lemma_view_logic_seq(path_logic@);
                                lemma_view_logic_seq(ppre);
                                assert(stmts.take(bsv.len() as int) =~= stmts);
                                assert forall|t: int|
                                    0 <= t < path_logic@.len() implies #[trigger] view_logic_seq(
                                    path_logic@,
                                )[t] == (stmts + seq![
                                    spec_unify_named(
                                        derived@,
                                        target@,
                                        tbl_cur,
                                        infer,
                                        DEREF_FUEL as nat,
                                    ).0,
                                ])[t] by {
                                    if t < ppre.len() {
                                        assert(path_logic@[t] == ppre[t]);
                                    }
                                }
                                assert(view_logic_seq(path_logic@) =~= stmts + seq![
                                    spec_unify_named(
                                        derived@,
                                        target@,
                                        tbl_cur,
                                        infer,
                                        DEREF_FUEL as nat,
                                    ).0,
                                ]);
                                assert forall|t: int|
                                    0 <= t < view_logic_seq(path_logic@).len() implies logic_ok(
                                    #[trigger] view_logic_seq(path_logic@)[t],
                                    ds,
                                    n,
                                ) by {
                                    if t < stmts.len() {
                                        assert(view_logic_seq(path_logic@)[t] == stmts[t]);
                                        assert(bound_ok(bsv[t], ds, n));
                                    }
                                }
                                lemma_all_of_ok(view_logic_seq(path_logic@), ds, n);
                            }
                            let item = Logic::all_of(path_logic);
                            let ghost lpre = logics@;
                            logics.push(item);
                            proof {
                                lemma_view_logic_seq(logics@);
                                lemma_view_logic_seq(lpre);
                                assert forall|t: int|
                                    0 <= t < logics@.len() implies #[trigger] view_logic_seq(
                                    logics@,
                                )[t] == view_logic_seq(lpre).push(item@)[t] by {
                                    if t < lpre.len() {
                                        assert(logics@[t] == lpre[t]);
                                    }
                                }
                                assert(view_logic_seq(logics@) =~= view_logic_seq(lpre).push(
                                    item@,
                                ));
                            }
                        },
                    }
                    ci = ci + 1;
                }
                proof {
                    assert(cvs.skip(cvs.len() as int) =~= Seq::<Seq<ImplV>>::empty());
                    assert(full.0 == view_logic_seq(logics@) + Seq::<LogicV>::empty());
                    assert(view_logic_seq(logics@) + Seq::<LogicV>::empty() =~= view_logic_seq(
                        logics@,
                    ));
                    lemma_view_logic_seq(logics@);
                    lemma_one_of_ok(view_logic_seq(logics@), ds, n);
                }
                Logic::one_of(logics)
            },
            _ => {
                Logic::Stmt(Stmt::Extends { sub: self.clone(), super_: other.clone() })
            },
        }
    }
}

} // verus!
