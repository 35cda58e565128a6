//! The batch test vocabulary: a populated context, a list of goals, and the
//! closed-form formula the goals are expected to reduce to.

use vstd::prelude::*;

use crate::logic::{logic_eq, view_logic_seq, Logic};
use crate::model::{all_of_v, logic_ok, spec_solve, DEREF_FUEL};
use crate::state::TypeSystem;

verus! {

/// One batch test: an environment, the goals posed against it, and the
/// formula their fixed point is expected to equal structurally.
#[derive(Debug)]
pub struct Test {
    pub ts: TypeSystem,
    pub goals: Vec<Logic>,
    pub expected: Logic,
}

impl Test {
    /// Run the test: fold the goals into one conjunction, reduce it to a
    /// fixed point with inference committed, and compare the result
    /// structurally against the expected formula.
    pub fn passes(self) -> (r: bool)
        requires
            self.ts.wf(),
            forall|j: int|
                0 <= j < self.goals@.len() ==> logic_ok(
                    (#[trigger] self.goals@[j])@,
                    self.ts@.decls,
                    self.ts@.table.len() as nat,
                ),
            self.ts@.impls.len() < usize::MAX,
            self.ts@.table.len() + 2 <= usize::MAX,
        ensures
            r == (spec_solve(
                all_of_v(view_logic_seq(self.goals@)),
                self.ts@.impls,
                self.ts@.table,
                (self.ts@.table.len() + 2) as nat,
                DEREF_FUEL as nat,
            ).0 == self.expected@),
    {
        let Test { ts, goals, expected } = self;
        let mut state = ts;
        proof {
            crate::logic::lemma_view_logic_seq(goals@);
            assert forall|j: int| 0 <= j < view_logic_seq(goals@).len() implies logic_ok(
                #[trigger] view_logic_seq(goals@)[j],
                state@.decls,
                state@.table.len() as nat,
            ) by {
                assert(view_logic_seq(goals@)[j] == goals@[j]@);
            }
            crate::lemmas::lemma_all_of_ok(
                view_logic_seq(goals@),
                state@.decls,
                state@.table.len() as nat,
            );
        }
        let goal = Logic::all_of(goals);
        let reduced = goal.solve(&mut state);
        logic_eq(&reduced, &expected)
    }
}

} // verus!
