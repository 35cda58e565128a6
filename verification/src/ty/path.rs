//! Exhaustive search for derivation chains through the implementation graph.

use vstd::prelude::*;

use crate::model::{spec_paths, spec_paths_scan, ImplV};
use crate::state::TypeSystem;
use crate::ty::args::string_eq;
use crate::ty::impl_::{view_impl_seq, Impl};
use crate::ty::Named;

verus! {

/// View of a list of chains.
pub open spec fn view_paths(s: Seq<Vec<Impl>>) -> Seq<Seq<ImplV>> {
    Seq::new(s.len(), |i: int| view_impl_seq(s[i]@))
}

/// A chain with one edge prepended.
fn prepend_impl(head: &Impl, rest: &Vec<Impl>) -> (r: Vec<Impl>)
    ensures
        view_impl_seq(r@) == seq![head@] + view_impl_seq(rest@),
{
    let mut out: Vec<Impl> = Vec::new();
    out.push(head.clone());
    let mut i: usize = 0;
    while i < rest.len()
        invariant
            out@.len() == i + 1,
            i <= rest.len(),
            out@[0]@ == head@,
            forall|j: int| 0 <= j < i ==> (#[trigger] out@[j + 1])@ == rest@[j]@,
        decreases rest.len() - i,
    {
        let c = rest[i].clone();
        out.push(c);
        i = i + 1;
    }
    proof {
        assert forall|j: int| 0 <= j < out@.len() implies #[trigger] view_impl_seq(out@)[j] == (
        seq![head@] + view_impl_seq(rest@))[j] by {
            if j > 0 {
                assert(out@[(j - 1) + 1]@ == rest@[j - 1]@);
            }
        }
        assert(view_impl_seq(out@) =~= seq![head@] + view_impl_seq(rest@));
    }
    out
}

/// All chains from the name `name` to the name `target` of length below
/// `fuel`, in depth-first order over the edge list.
fn paths_fuel(name: &String, target: &String, ts: &TypeSystem, fuel: usize) -> (r: Vec<Vec<Impl>>)
    ensures
        view_paths(r@) == spec_paths(name@, target@, ts@.impls, fuel as nat),
    decreases fuel,
{
    let ghost iv = ts@.impls;
    if string_eq(name, target) {
        let mut one: Vec<Vec<Impl>> = Vec::new();
        one.push(Vec::new());
        proof {
            assert(view_impl_seq(one@[0]@) =~= Seq::<ImplV>::empty());
            assert(view_paths(one@) =~= seq![Seq::<ImplV>::empty()]);
        }
        return one;
    }
    if fuel == 0 {
        let none: Vec<Vec<Impl>> = Vec::new();
        proof {
            assert(view_paths(none@) =~= Seq::<Seq<ImplV>>::empty());
        }
        return none;
    }
    let mut out: Vec<Vec<Impl>> = Vec::new();
    let mut k: usize = 0;
    proof {
        assert(view_paths(out@) =~= Seq::<Seq<ImplV>>::empty());
    }
    while k < ts.impls.len()
        invariant
            k <= ts.impls.len(),
            iv == ts@.impls,
            iv.len() == ts.impls@.len(),
            fuel >= 1,
            name@ != target@,
            spec_paths_scan(name@, target@, iv, fuel as nat, 0) == view_paths(out@)
                + spec_paths_scan(name@, target@, iv, fuel as nat, k as int),
        decreases ts.impls.len() - k,
    {
        let ghost pre = view_paths(out@);
        let ghost head: Seq<Seq<ImplV>> = if iv[k as int].from.name == name@ {
            spec_paths(iv[k as int].to.name, target@, iv, (fuel - 1) as nat).map_values(
                |p: Seq<ImplV>| seq![iv[k as int]] + p,
            )
        } else {
            Seq::<Seq<ImplV>>::empty()
        };
        proof {
            assert(iv[k as int] == ts.impls@[k as int]@);
            assert(spec_paths_scan(name@, target@, iv, fuel as nat, k as int) == head
                + spec_paths_scan(name@, target@, iv, fuel as nat, k as int + 1));
        }
        if string_eq(&ts.impls[k].from.name, name) {
            let sub = paths_fuel(&ts.impls[k].to.name, target, ts, fuel - 1);
            let ghost subv = view_paths(sub@);
            let mut j: usize = 0;
            while j < sub.len()
                invariant
                    j <= sub.len(),
                    iv == ts@.impls,
                    iv.len() == ts.impls@.len(),
                    k < ts.impls@.len(),
                    subv == view_paths(sub@),
                    subv.len() == sub@.len(),
                    iv[k as int] == ts.impls@[k as int]@,
                    head == subv.map_values(|p: Seq<ImplV>| seq![iv[k as int]] + p),
                    view_paths(out@) == pre + head.take(j as int),
                decreases sub.len() - j,
            {
                let chain = prepend_impl(&ts.impls[k], &sub[j]);
                let ghost outseq_pre = out@;
                out.push(chain);
                proof {
                    assert(subv[j as int] == view_impl_seq(sub@[j as int]@));
                    assert(head[j as int] == seq![iv[k as int]] + subv[j as int]);
                    assert(view_impl_seq(chain@) == head[j as int]);
                    assert(out@ == outseq_pre.push(chain));
                    assert forall|t: int| 0 <= t < out@.len() implies #[trigger] view_paths(out@)[t]
                        == view_paths(outseq_pre).push(head[j as int])[t] by {
                        if t < outseq_pre.len() {
                            assert(out@[t] == outseq_pre[t]);
                            assert(view_paths(outseq_pre)[t] == view_impl_seq(outseq_pre[t]@));
                        } else {
                            assert(out@[t] == chain);
                        }
                    }
                    assert(view_paths(out@) =~= view_paths(outseq_pre).push(head[j as int]));
                    assert(head.take(j as int + 1) =~= head.take(j as int).push(head[j as int]));
                    assert(pre + head.take(j as int + 1) =~= (pre + head.take(j as int)).push(
                        head[j as int],
                    ));
                }
                j = j + 1;
            }
            proof {
                assert(head.take(head.len() as int) =~= head);
            }
        }
        k = k + 1;
    }
    proof {
        assert(spec_paths_scan(name@, target@, iv, fuel as nat, ts.impls@.len() as int) =~= Seq::<
            Seq<ImplV>,
        >::empty());
        assert(view_paths(out@) + Seq::<Seq<ImplV>>::empty() =~= view_paths(out@));
        assert(spec_paths(name@, target@, iv, fuel as nat) == spec_paths_scan(
            name@,
            target@,
            iv,
            fuel as nat,
            0,
        ));
    }
    out
}

impl Named {
    /// Every chain of implementation edges that derives the name of `other`
    /// from the name of this type: the identity derivation when the names
    /// agree, and otherwise every acyclic composition of edges. The search
    /// is depth-bounded by the number of edges, which covers every chain
    /// that repeats no edge; a longer (necessarily cyclic) composition is
    /// cut off rather than searched forever.
    pub fn paths_to_sub_ty(&self, other: &Named, ts: &TypeSystem) -> (r: Vec<Vec<Impl>>)
        requires
            ts@.impls.len() < usize::MAX,
        ensures
            view_paths(r@) == spec_paths(
                self@.name,
                other@.name,
                ts@.impls,
                (ts@.impls.len() + 1) as nat,
            ),
    {
        paths_fuel(&self.name, &other.name, ts, ts.impls.len() + 1)
    }
}

} // verus!
