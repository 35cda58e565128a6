//! The propositional constraint layer: conjunctions, disjunctions, atomic
//! obligations and the boolean constants, with reduction to a normal form.

use vstd::prelude::*;

use crate::lemmas::{
    lemma_all_of_ok, lemma_contains_push, lemma_drop_true_empty, lemma_drop_true_push,
    lemma_logic_size_seq_index,
};
use crate::logic::stmt::{stmt_eq, view_stmt, Stmt};
use crate::model::{
    all_of_v, count_false, drop_true, first_non_false, frame_table_only, logic_ok, logic_size,
    logic_size_seq, one_of_v, spec_reduce, spec_reduce_seq, spec_solve, LogicV, DEREF_FUEL,
};
use crate::state::TypeSystem;

pub mod pretty;
pub mod res;
pub mod stmt;

verus! {

/// A logic formula over proof obligations.
#[derive(Debug, PartialEq, Eq)]
pub enum Logic {
    OneOf(Vec<Logic>),
    AllOf(Vec<Logic>),
    Stmt(Stmt),
    True,
    False,
}

pub open spec fn view_logic(l: Logic) -> LogicV
    decreases l,
{
    match l {
        Logic::OneOf(items) => LogicV::OneOf(view_logic_seq(items@)),
        Logic::AllOf(items) => LogicV::AllOf(view_logic_seq(items@)),
        Logic::Stmt(s) => LogicV::Stmt(view_stmt(s)),
        Logic::True => LogicV::True,
        Logic::False => LogicV::False,
    }
}

pub open spec fn view_logic_seq(s: Seq<Logic>) -> Seq<LogicV>
    decreases s,
{
    if s.len() == 0 {
        Seq::empty()
    } else {
        seq![view_logic(s[0])] + view_logic_seq(s.drop_first())
    }
}

pub proof fn lemma_view_logic_seq(s: Seq<Logic>)
    ensures
        view_logic_seq(s).len() == s.len(),
        forall|i: int| 0 <= i < s.len() ==> #[trigger] view_logic_seq(s)[i] == view_logic(s[i]),
    decreases s.len(),
{
    if s.len() > 0 {
        lemma_view_logic_seq(s.drop_first());
        assert forall|i: int| 0 <= i < s.len() implies #[trigger] view_logic_seq(s)[i]
            == view_logic(s[i]) by {
            if i > 0 {
                assert(s.drop_first()[i - 1] == s[i]);
                assert(view_logic_seq(s.drop_first())[i - 1] == view_logic(s.drop_first()[i - 1]));
            }
        }
    }
}

impl View for Logic {
    type V = LogicV;

    open spec fn view(&self) -> LogicV {
        view_logic(*self)
    }
}

pub fn clone_logic_vec(v: &Vec<Logic>) -> (r: Vec<Logic>)
    ensures
        r@.len() == v@.len(),
        forall|i: int| 0 <= i < v@.len() ==> (#[trigger] r@[i])@ == v@[i]@,
    decreases v,
{
    let mut out: Vec<Logic> = Vec::new();
    let mut i: usize = 0;
    while i < v.len()
        invariant
            i <= v.len(),
            out@.len() == i,
            forall|j: int| 0 <= j < i ==> (#[trigger] out@[j])@ == v@[j]@,
        decreases v.len() - i,
    {
        let c = v[i].clone();
        out.push(c);
        i = i + 1;
    }
    out
}

impl Clone for Logic {
    fn clone(&self) -> (res: Self)
        ensures
            res@ == self@,
        decreases self,
    {
        match self {
            Logic::OneOf(items) => {
                let r = Logic::OneOf(clone_logic_vec(items));
                proof {
                    lemma_view_logic_seq(items@);
                    lemma_view_logic_seq(r->OneOf_0@);
                    assert(view_logic_seq(r->OneOf_0@) =~= view_logic_seq(items@));
                }
                r
            },
            Logic::AllOf(items) => {
                let r = Logic::AllOf(clone_logic_vec(items));
                proof {
                    lemma_view_logic_seq(items@);
                    lemma_view_logic_seq(r->AllOf_0@);
                    assert(view_logic_seq(r->AllOf_0@) =~= view_logic_seq(items@));
                }
                r
            },
            Logic::Stmt(s) => Logic::Stmt(s.clone()),
            Logic::True => Logic::True,
            Logic::False => Logic::False,
        }
    }
}

/// Structural equality of two formulas.
pub fn logic_eq(a: &Logic, b: &Logic) -> (r: bool)
    ensures
        r == (a@ == b@),
    decreases a,
{
    match (a, b) {
        (Logic::OneOf(x), Logic::OneOf(y)) => logic_vec_eq(x, y),
        (Logic::AllOf(x), Logic::AllOf(y)) => logic_vec_eq(x, y),
        (Logic::Stmt(s), Logic::Stmt(t)) => stmt_eq(s, t),
        (Logic::True, Logic::True) => true,
        (Logic::False, Logic::False) => true,
        _ => false,
    }
}

pub fn logic_vec_eq(a: &Vec<Logic>, b: &Vec<Logic>) -> (r: bool)
    ensures
        r == (view_logic_seq(a@) == view_logic_seq(b@)),
    decreases a,
{
    proof {
        lemma_view_logic_seq(a@);
        lemma_view_logic_seq(b@);
    }
    if a.len() != b.len() {
        return false;
    }
    let mut i: usize = 0;
    while i < a.len()
        invariant
            i <= a.len(),
            a@.len() == b@.len(),
            forall|j: int| 0 <= j < i ==> (#[trigger] a@[j])@ == b@[j]@,
        decreases a.len() - i,
    {
        if !logic_eq(&a[i], &b[i]) {
            proof {
                lemma_view_logic_seq(a@);
                lemma_view_logic_seq(b@);
                assert(view_logic_seq(a@)[i as int] != view_logic_seq(b@)[i as int]);
            }
            return false;
        }
        i = i + 1;
    }
    proof {
        lemma_view_logic_seq(a@);
        lemma_view_logic_seq(b@);
        assert(view_logic_seq(a@) =~= view_logic_seq(b@));
    }
    true
}

impl Logic {
    /// The normalising conjunction: `True` members are dropped, any `False`
    /// member collapses the whole formula to `False`, the empty conjunction
    /// is `True` and a singleton stands by itself.
    pub fn all_of(items: Vec<Logic>) -> (r: Logic)
        ensures
            r@ == all_of_v(view_logic_seq(items@)),
    {
        let ghost iv = view_logic_seq(items@);
        proof {
            lemma_view_logic_seq(items@);
        }
        let mut kept: Vec<Logic> = Vec::new();
        let mut saw_false: bool = false;
        let mut i: usize = 0;
        proof {
            lemma_drop_true_empty();
            assert(iv.take(0) =~= Seq::<LogicV>::empty());
        }
        while i < items.len()
            invariant
                i <= items.len(),
                iv == view_logic_seq(items@),
                iv.len() == items@.len(),
                forall|j: int| 0 <= j < items@.len() ==> #[trigger] iv[j] == items@[j]@,
                view_logic_seq(kept@) == drop_true(iv.take(i as int)),
                kept@.len() == view_logic_seq(kept@).len(),
                saw_false == drop_true(iv.take(i as int)).contains(LogicV::False),
            decreases items.len() - i,
        {
            let ghost pre = drop_true(iv.take(i as int));
            let ghost cur = iv[i as int];
            proof {
                assert(iv.take(i as int + 1).drop_last() =~= iv.take(i as int));
                assert(iv.take(i as int + 1).last() == cur);
                lemma_drop_true_push(iv.take(i as int), cur);
                assert(iv.take(i as int).push(cur) =~= iv.take(i as int + 1));
                assert(drop_true(iv.take(i as int).push(cur)) == drop_true(iv.take(i as int + 1)));
            }
            let is_true = match &items[i] {
                Logic::True => true,
                _ => false,
            };
            proof {
                assert(is_true == (cur is True));
            }
            if !is_true {
                let is_false = match &items[i] {
                    Logic::False => true,
                    _ => false,
                };
                proof {
                    assert(is_false == (cur is False));
                }
                let c = items[i].clone();
                let ghost kept_pre = kept@;
                kept.push(c);
                proof {
                    lemma_view_logic_seq(kept@);
                    lemma_view_logic_seq(kept_pre);
                    assert(kept@ =~= kept_pre.push(c));
                    assert forall|k: int| 0 <= k < kept@.len() implies #[trigger] view_logic_seq(
                        kept@,
                    )[k] == pre.push(cur)[k] by {
                        if k < kept_pre.len() {
                            assert(view_logic_seq(kept_pre)[k] == view_logic(kept_pre[k]));
                            assert(kept@[k] == kept_pre[k]);
                        } else {
                            assert(kept@[k] == c);
                        }
                    }
                    assert(view_logic_seq(kept@) =~= pre.push(cur));
                    lemma_contains_push(pre, cur, LogicV::False);
                }
                if is_false {
                    saw_false = true;
                }
            }
            i = i + 1;
        }
        proof {
            assert(iv.take(items@.len() as int) =~= iv);
        }
        if saw_false {
            return Logic::False;
        }
        if kept.len() == 0 {
            return Logic::True;
        }
        if kept.len() == 1 {
            let r = kept[0].clone();
            proof {
                lemma_view_logic_seq(kept@);
            }
            return r;
        }
        let r = Logic::AllOf(kept);
        r
    }

    /// The disjunction of derivation alternatives: none refutes the goal, a
    /// single one stands by itself.
    pub fn one_of(items: Vec<Logic>) -> (r: Logic)
        ensures
            r@ == one_of_v(view_logic_seq(items@)),
    {
        proof {
            lemma_view_logic_seq(items@);
        }
        if items.len() == 0 {
            return Logic::False;
        }
        if items.len() == 1 {
            let r = items[0].clone();
            return r;
        }
        Logic::OneOf(items)
    }

    /// One reduction step of a formula against the current state.
    ///
    /// Atomic obligations are dispatched to the unifier or the derivation
    /// search; conjunction members are reduced with the caller's inference
    /// flag and refolded; disjunction branches are always explored without
    /// inference, and the disjunction collapses when all or all-but-one of
    /// its branches are refuted.
    pub fn reduce(&self, state: &mut TypeSystem, infer: bool) -> (r: Logic)
        requires
            old(state).wf(),
            logic_ok(self@, old(state)@.decls, old(state)@.table.len() as nat),
            old(state)@.impls.len() < usize::MAX,
        ensures
            final(state).wf(),
            frame_table_only(old(state)@, final(state)@),
            logic_ok(r@, final(state)@.decls, final(state)@.table.len() as nat),
            r@ == spec_reduce(
                self@,
                old(state)@.impls,
                old(state)@.table,
                infer,
                DEREF_FUEL as nat,
            ).0,
            final(state)@.table == spec_reduce(
                self@,
                old(state)@.impls,
                old(state)@.table,
                infer,
                DEREF_FUEL as nat,
            ).1,
        decreases logic_size(self@), 1nat,
    {
        match self {
            Logic::True => Logic::True,
            Logic::False => Logic::False,
            Logic::Stmt(s) => s.reduce(state, infer),
            Logic::AllOf(items) => {
                proof {
                    lemma_view_logic_seq(items@);
                    assert forall|j: int| 0 <= j < items@.len() implies logic_ok(
                        (#[trigger] items@[j])@,
                        old(state)@.decls,
                        old(state)@.table.len() as nat,
                    ) by {
                        assert(view_logic_seq(items@)[j] == items@[j]@);
                        assert(logic_ok(
                            view_logic_seq(items@)[j],
                            old(state)@.decls,
                            old(state)@.table.len() as nat,
                        ));
                    }
                }
                let rs = reduce_children(items, state, infer);
                proof {
                    lemma_view_logic_seq(rs@);
                    assert forall|j: int| 0 <= j < view_logic_seq(rs@).len() implies logic_ok(
                        #[trigger] view_logic_seq(rs@)[j],
                        final(state)@.decls,
                        final(state)@.table.len() as nat,
                    ) by {
                        assert(view_logic_seq(rs@)[j] == rs@[j]@);
                    }
                    lemma_all_of_ok(
                        view_logic_seq(rs@),
                        final(state)@.decls,
                        final(state)@.table.len() as nat,
                    );
                }
                Logic::all_of(rs)
            },
            Logic::OneOf(items) => {
                proof {
                    lemma_view_logic_seq(items@);
                    assert forall|j: int| 0 <= j < items@.len() implies logic_ok(
                        (#[trigger] items@[j])@,
                        old(state)@.decls,
                        old(state)@.table.len() as nat,
                    ) by {
                        assert(view_logic_seq(items@)[j] == items@[j]@);
                        assert(logic_ok(
                            view_logic_seq(items@)[j],
                            old(state)@.decls,
                            old(state)@.table.len() as nat,
                        ));
                    }
                }
                let rs = reduce_children(items, state, false);
                let n_false = count_false_exec(&rs);
                proof {
                    lemma_view_logic_seq(rs@);
                    assert forall|j: int| 0 <= j < view_logic_seq(rs@).len() implies logic_ok(
                        #[trigger] view_logic_seq(rs@)[j],
                        final(state)@.decls,
                        final(state)@.table.len() as nat,
                    ) by {
                        assert(view_logic_seq(rs@)[j] == rs@[j]@);
                    }
                }
                if n_false == rs.len() {
                    Logic::False
                } else if n_false + 1 == rs.len() {
                    first_non_false_exec(&rs)
                } else {
                    Logic::OneOf(rs)
                }
            },
        }
    }

    /// The proof loop: reduce with inference committed until the formula
    /// stops changing or collapses to a boolean constant.
    ///
    /// The loop carries an iteration budget of the table's size plus two:
    /// every pass that changes the formula is expected to resolve at least
    /// one variable, the variable set is fixed while solving, and a goal
    /// that resolves nothing converges in one extra pass — so the budget
    /// covers every such run. That expectation is not itself proved; a
    /// pathological goal that keeps changing without resolving anything is
    /// returned as it stands when the budget runs out, and the contract
    /// states exactly that (the budget is an argument of the equation
    /// below), so a caller sees the truncation rather than a silent claim
    /// of a fixed point.
    pub fn solve(&self, state: &mut TypeSystem) -> (r: Logic)
        requires
            old(state).wf(),
            logic_ok(self@, old(state)@.decls, old(state)@.table.len() as nat),
            old(state)@.impls.len() < usize::MAX,
            old(state)@.table.len() + 2 <= usize::MAX,
        ensures
            final(state).wf(),
            frame_table_only(old(state)@, final(state)@),
            logic_ok(r@, final(state)@.decls, final(state)@.table.len() as nat),
            r@ == spec_solve(
                self@,
                old(state)@.impls,
                old(state)@.table,
                (old(state)@.table.len() + 2) as nat,
                DEREF_FUEL as nat,
            ).0,
            final(state)@.table == spec_solve(
                self@,
                old(state)@.impls,
                old(state)@.table,
                (old(state)@.table.len() + 2) as nat,
                DEREF_FUEL as nat,
            ).1,
    {
        let ghost iv = old(state)@.impls;
        let ghost full = spec_solve(
            self@,
            iv,
            old(state)@.table,
            (old(state)@.table.len() + 2) as nat,
            DEREF_FUEL as nat,
        );
        let mut cur = self.clone();
        proof {
            crate::ty::lemma_view_ty_seq(state.type_vars@);
        }
        let mut steps: usize = state.type_vars.len() + 2;
        loop
            invariant
                state.wf(),
                frame_table_only(old(state)@, state@),
                iv == old(state)@.impls,
                logic_ok(cur@, state@.decls, state@.table.len() as nat),
                state@.impls.len() < usize::MAX,
                full == spec_solve(cur@, iv, state@.table, steps as nat, DEREF_FUEL as nat),
                full == spec_solve(
                    self@,
                    iv,
                    old(state)@.table,
                    (old(state)@.table.len() + 2) as nat,
                    DEREF_FUEL as nat,
                ),
            decreases steps,
        {
            let done = match &cur {
                Logic::True => true,
                Logic::False => true,
                _ => false,
            };
            proof {
                assert(done == (cur@ is True || cur@ is False));
            }
            if done || steps == 0 {
                return cur;
            }
            let next = cur.reduce(state, true);
            if logic_eq(&next, &cur) {
                return next;
            }
            cur = next;
            steps = steps - 1;
        }
    }
}

/// Reduce every member of a list, left to right, threading the state.
fn reduce_children(items: &Vec<Logic>, state: &mut TypeSystem, infer: bool) -> (r: Vec<Logic>)
    requires
        old(state).wf(),
        forall|j: int|
            0 <= j < items@.len() ==> logic_ok(
                (#[trigger] items@[j])@,
                old(state)@.decls,
                old(state)@.table.len() as nat,
            ),
        old(state)@.impls.len() < usize::MAX,
    ensures
        final(state).wf(),
        frame_table_only(old(state)@, final(state)@),
        r@.len() == items@.len(),
        forall|j: int|
            0 <= j < r@.len() ==> logic_ok(
                (#[trigger] r@[j])@,
                final(state)@.decls,
                final(state)@.table.len() as nat,
            ),
        view_logic_seq(r@) == spec_reduce_seq(
            view_logic_seq(items@),
            old(state)@.impls,
            old(state)@.table,
            infer,
            DEREF_FUEL as nat,
        ).0,
        final(state)@.table == spec_reduce_seq(
            view_logic_seq(items@),
            old(state)@.impls,
            old(state)@.table,
            infer,
            DEREF_FUEL as nat,
        ).1,
    decreases logic_size_seq(view_logic_seq(items@)), 2nat,
{
    let ghost iv = view_logic_seq(items@);
    let ghost imv = old(state)@.impls;
    let ghost ds = old(state)@.decls;
    let ghost n = old(state)@.table.len() as nat;
    let ghost full = spec_reduce_seq(iv, imv, old(state)@.table, infer, DEREF_FUEL as nat);
    proof {
        lemma_view_logic_seq(items@);
        assert(iv.skip(0) =~= iv);
    }
    let mut out: Vec<Logic> = Vec::new();
    let mut i: usize = 0;
    proof {
        assert(view_logic_seq(out@) =~= Seq::<LogicV>::empty());
    }
    while i < items.len()
        invariant
            i <= items.len(),
            state.wf(),
            frame_table_only(old(state)@, state@),
            ds == old(state)@.decls,
            n == old(state)@.table.len() as nat,
            imv == old(state)@.impls,
            imv.len() < usize::MAX,
            iv == view_logic_seq(items@),
            iv.len() == items@.len(),
            forall|j: int| 0 <= j < items@.len() ==> #[trigger] iv[j] == items@[j]@,
            forall|j: int| 0 <= j < iv.len() ==> logic_ok(#[trigger] iv[j], ds, n),
            out@.len() == i,
            forall|j: int| 0 <= j < out@.len() ==> logic_ok((#[trigger] out@[j])@, ds, n),
            full == spec_reduce_seq(iv, imv, old(state)@.table, infer, DEREF_FUEL as nat),
            full.1 == spec_reduce_seq(
                iv.skip(i as int),
                imv,
                state@.table,
                infer,
                DEREF_FUEL as nat,
            ).1,
            full.0 == view_logic_seq(out@) + spec_reduce_seq(
                iv.skip(i as int),
                imv,
                state@.table,
                infer,
                DEREF_FUEL as nat,
            ).0,
        decreases items.len() - i,
    {
        proof {
            assert(iv.skip(i as int)[0] == iv[i as int]);
            assert(iv.skip(i as int).drop_first() =~= iv.skip(i as int + 1));
            lemma_logic_size_seq_index(iv, i as int);
        }
        let l = items[i].reduce(state, infer);
        let ghost opre = out@;
        out.push(l);
        proof {
            lemma_view_logic_seq(out@);
            lemma_view_logic_seq(opre);
            assert forall|t: int| 0 <= t < out@.len() implies #[trigger] view_logic_seq(out@)[t]
                == view_logic_seq(opre).push(out@[out@.len() - 1]@)[t] by {
                if t < opre.len() {
                    assert(out@[t] == opre[t]);
                }
            }
            assert(view_logic_seq(out@) =~= view_logic_seq(opre).push(out@[out@.len() - 1]@));
        }
        i = i + 1;
    }
    proof {
        assert(iv.skip(iv.len() as int) =~= Seq::<LogicV>::empty());
        assert(view_logic_seq(out@) + Seq::<LogicV>::empty() =~= view_logic_seq(out@));
    }
    out
}

/// How many members of a list are the constant `False`.
fn count_false_exec(v: &Vec<Logic>) -> (r: usize)
    ensures
        r == count_false(view_logic_seq(v@)),
        r <= v@.len(),
{
    let ghost sv = view_logic_seq(v@);
    proof {
        lemma_view_logic_seq(v@);
        assert(sv.take(0) =~= Seq::<LogicV>::empty());
    }
    let mut cnt: usize = 0;
    let mut i: usize = 0;
    while i < v.len()
        invariant
            i <= v.len(),
            sv == view_logic_seq(v@),
            sv.len() == v@.len(),
            forall|j: int| 0 <= j < v@.len() ==> #[trigger] sv[j] == v@[j]@,
            cnt == count_false(sv.take(i as int)),
            cnt <= i,
        decreases v.len() - i,
    {
        proof {
            assert(sv.take(i as int + 1).drop_last() =~= sv.take(i as int));
            assert(sv.take(i as int + 1).last() == sv[i as int]);
        }
        let is_false = match &v[i] {
            Logic::False => true,
            _ => false,
        };
        proof {
            assert(is_false == (sv[i as int] is False));
        }
        if is_false {
            cnt = cnt + 1;
        }
        i = i + 1;
    }
    proof {
        assert(sv.take(sv.len() as int) =~= sv);
    }
    cnt
}

/// The first member of a list that is not the constant `False`; `False`
/// itself when every member is.
fn first_non_false_exec(v: &Vec<Logic>) -> (r: Logic)
    ensures
        r@ == first_non_false(view_logic_seq(v@)),
        (exists|k: int| 0 <= k < v@.len() && r@ == (#[trigger] v@[k])@) || r@ is False,
{
    let ghost sv = view_logic_seq(v@);
    proof {
        lemma_view_logic_seq(v@);
        assert(sv.skip(0) =~= sv);
    }
    let mut i: usize = 0;
    while i < v.len()
        invariant
            i <= v.len(),
            sv == view_logic_seq(v@),
            sv.len() == v@.len(),
            forall|j: int| 0 <= j < v@.len() ==> #[trigger] sv[j] == v@[j]@,
            first_non_false(sv) == first_non_false(sv.skip(i as int)),
        decreases v.len() - i,
    {
        proof {
            assert(sv.skip(i as int)[0] == sv[i as int]);
            assert(sv.skip(i as int).drop_first() =~= sv.skip(i as int + 1));
        }
        let is_false = match &v[i] {
            Logic::False => true,
            _ => false,
        };
        proof {
            assert(is_false == (sv[i as int] is False));
        }
        if !is_false {
            let r = v[i].clone();
            return r;
        }
        i = i + 1;
    }
    proof {
        assert(sv.skip(sv.len() as int) =~= Seq::<LogicV>::empty());
    }
    Logic::False
}

} // verus!
