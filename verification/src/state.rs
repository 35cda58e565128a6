//! The process-wide mutable context: declarations, implementation edges, the
//! variable table, the fresh-variable counter, the accumulated constraint
//! list, and the interactive goal.

use vstd::pervasive::VecAdditionalExecFns;
use vstd::prelude::*;

use crate::lemmas::{
    lemma_decl_ok_mono, lemma_decls_extend_push, lemma_impl_ok_mono, lemma_logic_ok_mono,
    lemma_ty_ok_mono,
};
use crate::logic::{lemma_view_logic_seq, view_logic, view_logic_seq, Logic};
use crate::model::{
    decl_ok, find_decl, impl_ok, logic_ok, spec_add_goal, spec_reduce, state_wf,
    ty_ok, DeclV, LogicV, StateV, TyV, DEREF_FUEL,
};
use crate::ty::args::{view_strings, GeneircArgs};
use crate::ty::bound::{view_bound_seq, Bound};
use crate::ty::decl::{view_decl_seq, Decl};
use crate::ty::impl_::{view_impl_seq, Impl};
use crate::ty::{lemma_view_ty_seq, view_ty_seq, Type};

verus! {

/// The shared mutable context, threaded by exclusive borrow through every
/// operation of the engine.
#[derive(Debug)]
pub struct TypeSystem {
    pub counter: usize,
    pub decls: Vec<Decl>,
    pub bounds: Vec<Bound>,
    pub impls: Vec<Impl>,
    pub type_vars: Vec<Type>,
    pub generics: GeneircArgs,
    pub goal: Logic,
}

impl View for TypeSystem {
    type V = StateV;

    open spec fn view(&self) -> StateV {
        StateV {
            counter: self.counter as nat,
            decls: view_decl_seq(self.decls@),
            bounds: view_bound_seq(self.bounds@),
            impls: view_impl_seq(self.impls@),
            table: view_ty_seq(self.type_vars@),
            generics: view_strings(self.generics@),
            goal: view_logic(self.goal),
        }
    }
}

impl TypeSystem {
    /// The context invariant; every operation of the engine preserves it.
    pub open spec fn wf(&self) -> bool {
        state_wf(self@)
    }

    /// An empty context: nothing declared, nothing implemented, no
    /// variables, the trivial goal.
    pub fn new() -> (r: Self)
        ensures
            r.wf(),
            r@.counter == 0,
            r@.decls.len() == 0,
            r@.bounds.len() == 0,
            r@.impls.len() == 0,
            r@.table.len() == 0,
            r@.generics.len() == 0,
            r@.goal is True,
    {
        let r = TypeSystem {
            counter: 0,
            decls: Vec::new(),
            impls: Vec::new(),
            type_vars: Vec::new(),
            bounds: Vec::new(),
            generics: Vec::new(),
            goal: Logic::True,
        };
        proof {
            assert(view_ty_seq(r.type_vars@) =~= Seq::<TyV>::empty());
        }
        r
    }

    /// Record a declaration. The name must be fresh and the declaration well
    /// formed; a caller that cannot know this checks with `get_decl` first.
    pub fn add_decl(&mut self, decl: Decl)
        requires
            old(self).wf(),
            find_decl(old(self)@.decls, decl@.name) is None,
            decl_ok(decl@, old(self)@.decls, old(self)@.table.len() as nat),
        ensures
            final(self).wf(),
            final(self)@ == (StateV { decls: old(self)@.decls.push(decl@), ..old(self)@ }),
    {
        let ghost old_ds = self@.decls;
        let ghost dv = decl@;
        let ghost n = self@.table.len() as nat;
        self.decls.push(decl);
        proof {
            assert(view_decl_seq(self.decls@) =~= old_ds.push(dv));
            lemma_decls_extend_push(old_ds, dv);
            let ds2 = old_ds.push(dv);
            assert forall|i: int, j: int| 0 <= i < j < ds2.len() implies ds2[i].name != ds2[j].name by {
                if j < old_ds.len() {
                } else {
                    lemma_find_decl_none_name(old_ds, dv.name, i);
                }
            }
            assert forall|i: int| 0 <= i < ds2.len() implies decl_ok(#[trigger] ds2[i], ds2, n) by {
                if i < old_ds.len() {
                    lemma_decl_ok_mono(old_ds[i], old_ds, n, ds2, n);
                } else {
                    lemma_decl_ok_mono(dv, old_ds, n, ds2, n);
                }
            }
            assert forall|i: int| 0 <= i < self@.impls.len() implies impl_ok(
                #[trigger] self@.impls[i],
                ds2,
                n,
            ) by {
                lemma_impl_ok_mono(self@.impls[i], old_ds, n, ds2, n);
            }
            assert forall|i: int|
                0 <= i < self@.table.len() implies ((#[trigger] self@.table[i]) is Free || ty_ok(
                self@.table[i],
                ds2,
                self@.table.len() as nat,
            )) by {
                if !(self@.table[i] is Free) {
                    lemma_ty_ok_mono(self@.table[i], old_ds, n, ds2, n);
                }
            }
            lemma_logic_ok_mono(self@.goal, old_ds, n, ds2, n);
        }
    }

    /// Record a generic name in the parse-scope list.
    pub fn add_generic(&mut self, name: String)
        ensures
            final(self)@ == (StateV { generics: old(self)@.generics.push(name@), ..old(self)@ }),
            old(self).wf() ==> final(self).wf(),
    {
        let ghost oldg = self@.generics;
        let ghost nv = name@;
        self.generics.push(name);
        proof {
            assert(view_strings(self.generics@) =~= oldg.push(nv));
        }
    }

    /// Forget the parse-scope generic names.
    pub fn clear_generics(&mut self)
        ensures
            final(self)@ == (StateV { generics: Seq::empty(), ..old(self)@ }),
            old(self).wf() ==> final(self).wf(),
    {
        self.generics = Vec::new();
        proof {
            assert(view_strings(self.generics@) =~= Seq::<Seq<char>>::empty());
        }
    }

    /// Record an implementation edge. No uniqueness check: duplicates and
    /// overlaps are legal and all live in the graph.
    pub fn add_impl(&mut self, impl_: Impl)
        requires
            old(self).wf(),
            impl_ok(impl_@, old(self)@.decls, old(self)@.table.len() as nat),
        ensures
            final(self).wf(),
            final(self)@ == (StateV { impls: old(self)@.impls.push(impl_@), ..old(self)@ }),
    {
        let ghost oldi = self@.impls;
        let ghost iv = impl_@;
        self.impls.push(impl_);
        proof {
            assert(view_impl_seq(self.impls@) =~= oldi.push(iv));
        }
    }

    /// Allocate a fresh unresolved variable and return its index.
    pub fn new_type_var(&mut self) -> (r: usize)
        requires
            old(self).wf(),
        ensures
            final(self).wf(),
            r == old(self)@.table.len(),
            final(self)@ == (StateV {
                counter: old(self)@.counter + 1,
                table: old(self)@.table.push(TyV::Free),
                ..old(self)@
            }),
    {
        let ghost oldt = self@.table;
        let ghost ds = self@.decls;
        let id = self.type_vars.len();
        self.type_vars.push(Type::Free);
        self.counter = self.type_vars.len();
        proof {
            lemma_view_ty_seq(self.type_vars@);
            lemma_view_ty_seq(old(self).type_vars@);
            assert(view_ty_seq(self.type_vars@) =~= oldt.push(TyV::Free));
            let n2 = (oldt.len() + 1) as nat;
            assert forall|i: int|
                0 <= i < self@.table.len() implies ((#[trigger] self@.table[i]) is Free || ty_ok(
                self@.table[i],
                ds,
                self@.table.len() as nat,
            )) by {
                assert(self@.table == oldt.push(TyV::Free));
                if i < oldt.len() {
                    assert(self@.table[i] == oldt[i]);
                    if !(oldt[i] is Free) {
                        lemma_ty_ok_mono(oldt[i], ds, oldt.len() as nat, ds, n2);
                    }
                } else {
                    assert(self@.table[i] == TyV::Free);
                }
            }
            assert forall|i: int| 0 <= i < ds.len() implies decl_ok(#[trigger] ds[i], ds, n2) by {
                lemma_decl_ok_mono(ds[i], ds, oldt.len() as nat, ds, n2);
            }
            assert forall|i: int| 0 <= i < self@.impls.len() implies impl_ok(
                #[trigger] self@.impls[i],
                ds,
                n2,
            ) by {
                lemma_impl_ok_mono(self@.impls[i], ds, oldt.len() as nat, ds, n2);
            }
            lemma_logic_ok_mono(self@.goal, ds, oldt.len() as nat, ds, n2);
        }
        id
    }

    /// Bind an unresolved variable to a type: the only externally observable
    /// mutation that proving a goal causes. A bound variable is never
    /// rebound.
    pub fn bind_var(&mut self, id: usize, t: Type)
        requires
            old(self).wf(),
            id < old(self)@.table.len(),
            old(self)@.table[id as int] is Free,
            ty_ok(t@, old(self)@.decls, old(self)@.table.len() as nat),
        ensures
            final(self).wf(),
            final(self)@ == (StateV {
                table: old(self)@.table.update(id as int, t@),
                ..old(self)@
            }),
    {
        let ghost oldt = self@.table;
        let ghost ds = self@.decls;
        let ghost tv = t@;
        proof {
            lemma_view_ty_seq(self.type_vars@);
        }
        self.type_vars.set(id, t);
        proof {
            lemma_view_ty_seq(self.type_vars@);
            assert forall|i: int| 0 <= i < view_ty_seq(self.type_vars@).len() implies #[trigger]
            view_ty_seq(self.type_vars@)[i] == oldt.update(id as int, tv)[i] by {
                if i != id {
                    assert(self.type_vars@[i] == old(self).type_vars@[i]);
                }
            }
            assert(view_ty_seq(self.type_vars@) =~= oldt.update(id as int, tv));
            assert forall|i: int|
                0 <= i < self@.table.len() implies ((#[trigger] self@.table[i]) is Free || ty_ok(
                self@.table[i],
                ds,
                self@.table.len() as nat,
            )) by {
                if i != id {
                    assert(self@.table[i] == oldt[i]);
                }
            }
        }
    }

    /// The binding of a variable: `None` while it is unresolved.
    pub fn resolve(&self, type_var: usize) -> (r: Option<Type>)
        requires
            type_var < self@.table.len(),
        ensures
            match r {
                None => self@.table[type_var as int] is Free,
                Some(t) => t@ == self@.table[type_var as int] && !(self@.table[type_var as int] is Free),
            },
    {
        proof {
            lemma_view_ty_seq(self.type_vars@);
        }
        match &self.type_vars[type_var] {
            Type::Free => None,
            t => Some(t.clone()),
        }
    }

    /// Join a freshly posed goal onto the accumulated one and reduce the
    /// result once with inference committed; the reduced formula becomes the
    /// new accumulated goal.
    pub fn add_goal(&mut self, goal: Logic)
        requires
            old(self).wf(),
            logic_ok(goal@, old(self)@.decls, old(self)@.table.len() as nat),
            old(self)@.impls.len() < usize::MAX,
        ensures
            final(self).wf(),
            final(self)@.decls == old(self)@.decls,
            final(self)@.impls == old(self)@.impls,
            final(self)@.bounds == old(self)@.bounds,
            final(self)@.generics == old(self)@.generics,
            final(self)@.counter == old(self)@.counter,
            final(self)@.goal == spec_reduce(
                spec_add_goal(old(self)@.goal, goal@),
                old(self)@.impls,
                old(self)@.table,
                true,
                DEREF_FUEL as nat,
            ).0,
            final(self)@.table == spec_reduce(
                spec_add_goal(old(self)@.goal, goal@),
                old(self)@.impls,
                old(self)@.table,
                true,
                DEREF_FUEL as nat,
            ).1,
    {
        let ghost ds = self@.decls;
        let ghost n = self@.table.len() as nat;
        let ghost oldg = self@.goal;
        let ghost gv = goal@;
        let cur = self.goal.clone();
        let combined = match cur {
            Logic::True => goal,
            Logic::AllOf(v) => {
                let mut v2 = v;
                let ghost vpre = v2@;
                let ghost pre = view_logic_seq(v2@);
                proof {
                    lemma_view_logic_seq(vpre);
                }
                v2.push(goal);
                proof {
                    lemma_view_logic_seq(v2@);
                    assert forall|t: int| 0 <= t < v2@.len() implies #[trigger] view_logic_seq(
                        v2@,
                    )[t] == pre.push(gv)[t] by {
                        assert(view_logic_seq(v2@)[t] == v2@[t]@);
                        if t < vpre.len() {
                            assert(v2@[t] == vpre[t]);
                            assert(view_logic_seq(vpre)[t] == vpre[t]@);
                        }
                    }
                    assert(view_logic_seq(v2@) =~= pre.push(gv));
                }
                Logic::AllOf(v2)
            },
            other => {
                let mut v2: Vec<Logic> = Vec::new();
                v2.push(other);
                v2.push(goal);
                proof {
                    lemma_view_logic_seq(v2@);
                    assert(view_logic_seq(v2@) =~= seq![oldg, gv]);
                }
                Logic::AllOf(v2)
            },
        };
        proof {
            assert(combined@ == spec_add_goal(oldg, gv));
            assert(logic_ok(combined@, ds, n)) by {
                match oldg {
                    LogicV::AllOf(xs) => {
                        assert forall|t: int|
                            0 <= t < xs.push(gv).len() implies logic_ok(
                            #[trigger] xs.push(gv)[t],
                            ds,
                            n,
                        ) by {
                            if t < xs.len() {
                                assert(xs.push(gv)[t] == xs[t]);
                            }
                        }
                    },
                    _ => {},
                }
            }
        }
        let r = combined.reduce(self, true);
        self.goal = r;
        proof {
            let ghost sv = self@;
            assert(state_wf(sv));
        }
    }

    /// The declaration stored under `name`, if any.
    pub fn get_decl<'a>(&'a self, name: &String) -> (r: Option<&'a Decl>)
        ensures
            match r {
                Some(d) => find_decl(self@.decls, name@) == Some(d@),
                None => find_decl(self@.decls, name@) is None,
            },
    {
        let ghost ds = self@.decls;
        proof {
            assert(ds.skip(0) =~= ds);
        }
        let mut i: usize = 0;
        while i < self.decls.len()
            invariant
                i <= self.decls.len(),
                ds == self@.decls,
                ds.len() == self.decls@.len(),
                forall|j: int| 0 <= j < ds.len() ==> ds[j] == (#[trigger] self.decls@[j])@,
                find_decl(ds, name@) == find_decl(ds.skip(i as int), name@),
            decreases self.decls.len() - i,
        {
            proof {
                assert(ds.skip(i as int)[0] == ds[i as int]);
                assert(ds.skip(i as int).drop_first() =~= ds.skip(i as int + 1));
            }
            if crate::ty::args::string_eq(&self.decls[i].name, name) {
                return Some(&self.decls[i]);
            }
            i = i + 1;
        }
        proof {
            assert(ds.skip(ds.len() as int) =~= Seq::<DeclV>::empty());
        }
        None
    }
}

/// A name absent from the store matches no stored declaration.
pub proof fn lemma_find_decl_none_name(ds: Seq<DeclV>, nm: Seq<char>, i: int)
    requires
        find_decl(ds, nm) is None,
        0 <= i < ds.len(),
    ensures
        ds[i].name != nm,
    decreases ds.len(),
{
    if i > 0 {
        lemma_find_decl_none_name(ds.drop_first(), nm, i - 1);
        assert(ds.drop_first()[i - 1] == ds[i]);
    }
}

impl Default for TypeSystem {
    fn default() -> (r: Self)
        ensures
            r.wf(),
            r@.counter == 0,
            r@.decls.len() == 0,
            r@.impls.len() == 0,
            r@.table.len() == 0,
            r@.goal is True,
    {
        Self::new()
    }
}

} // verus!
