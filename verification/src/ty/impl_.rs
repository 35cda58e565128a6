//! Implementation edges of the subtyping graph.

use vstd::prelude::*;

use crate::model::{
    lemma_ty_size_seq_index, spec_impl_map, spec_imply, spec_imply_named, spec_imply_seq,
    spec_parameterise, ty_covered, ty_size, BoundV, ImplV, TyV,
};
use crate::ty::args::{clone_strings, string_eq, view_strings, GeneircArgs};
use crate::ty::bound::{view_bound_seq, Bound};
use crate::ty::{
    lemma_view_ty_seq, subst_get, ty_eq, view_named, view_subst, view_ty, view_ty_seq,
    Named, Type,
};

verus! {

/// A directed edge asserting that any concrete instantiation of the `from`
/// pattern may stand in for the corresponding instantiation of the `to`
/// pattern, under the extra constraints in `bounds`. The generic names in
/// `args` are local to the edge.
#[derive(Debug)]
pub struct Impl {
    pub args: GeneircArgs,
    pub from: Named,
    pub to: Named,
    pub bounds: Vec<Bound>,
}

pub open spec fn view_impl(im: Impl) -> ImplV {
    ImplV {
        args: view_strings(im.args@),
        from: im.from@,
        to: im.to@,
        bounds: view_bound_seq(im.bounds@),
    }
}

pub open spec fn view_impl_seq(s: Seq<Impl>) -> Seq<ImplV> {
    Seq::new(s.len(), |i: int| view_impl(s[i]))
}

impl View for Impl {
    type V = ImplV;

    open spec fn view(&self) -> ImplV {
        view_impl(*self)
    }
}

pub fn clone_bound_vec(v: &Vec<Bound>) -> (r: Vec<Bound>)
    ensures
        view_bound_seq(r@) == view_bound_seq(v@),
{
    let mut out: Vec<Bound> = Vec::new();
    let mut i: usize = 0;
    while i < v.len()
        invariant
            i <= v.len(),
            out@.len() == i,
            forall|j: int| 0 <= j < i ==> (#[trigger] out@[j])@ == v@[j]@,
        decreases v.len() - i,
    {
        let c = v[i].clone();
        out.push(c);
        i = i + 1;
    }
    assert(view_bound_seq(out@) =~= view_bound_seq(v@));
    out
}

impl Clone for Impl {
    fn clone(&self) -> (res: Self)
        ensures
            res@ == self@,
    {
        Impl {
            args: clone_strings(&self.args),
            from: self.from.clone(),
            to: self.to.clone(),
            bounds: clone_bound_vec(&self.bounds),
        }
    }
}

/// Whether the substitution map covers every generic of the type.
pub fn ty_covered_exec(t: &Type, params: &Vec<(String, Type)>) -> (r: bool)
    ensures
        r == ty_covered(t@, view_subst(params@)),
    decreases ty_size(t@), 1nat,
{
    match t {
        Type::Named(nm) => named_covered_exec(nm, params),
        Type::Generic(g) => {
            match subst_get(params, g) {
                Some(_) => true,
                None => false,
            }
        },
        Type::Var(_) => true,
        Type::Free => false,
    }
}

pub fn named_covered_exec(nm: &Named, params: &Vec<(String, Type)>) -> (r: bool)
    ensures
        r == ty_covered(TyV::Named(nm@), view_subst(params@)),
    decreases ty_size(TyV::Named(view_named(*nm))), 0nat,
{
    let ghost mv = view_subst(params@);
    let mut i: usize = 0;
    while i < nm.args.len()
        invariant
            i <= nm.args.len(),
            mv == view_subst(params@),
            forall|j: int| 0 <= j < i ==> ty_covered((#[trigger] nm.args@[j])@, mv),
        decreases nm.args.len() - i,
    {
        proof {
            lemma_view_ty_seq(nm.args@);
            assert(view_ty_seq(nm.args@)[i as int] == view_ty(nm.args@[i as int]));
            lemma_ty_size_seq_index(view_ty_seq(nm.args@), i as int);
        }
        if !ty_covered_exec(&nm.args[i], params) {
            proof {
                assert(view_named(*nm).args[i as int] == (nm.args@[i as int])@);
            }
            return false;
        }
        i = i + 1;
    }
    proof {
        lemma_view_ty_seq(nm.args@);
        assert forall|j: int| 0 <= j < view_named(*nm).args.len() implies ty_covered(
            #[trigger] view_named(*nm).args[j],
            mv,
        ) by {
            assert(view_ty_seq(nm.args@)[j] == view_ty(nm.args@[j]));
        }
    }
    true
}

impl Type {
    /// One-directional structural match of this pattern against a target: a
    /// generic binds to the sub-term in its position, consistently across
    /// repeated occurrences; everything else must agree structurally.
    pub fn imply_generic_params(&self, from: &Type, params: &mut Vec<(String, Type)>) -> (r: bool)
        ensures
            r == spec_imply(self@, from@, view_subst(old(params)@)).0,
            view_subst(final(params)@) == spec_imply(self@, from@, view_subst(old(params)@)).1,
        decreases ty_size(self@), 1nat,
    {
        match (self, from) {
            (Type::Named(p), Type::Named(f)) => p.imply_generic_params(f, params),
            (Type::Generic(id), _) => {
                let existing = subst_get(params, id);
                match existing {
                    Some(t) => ty_eq(t, from),
                    None => {
                        let ghost pre = view_subst(params@);
                        params.push((id.clone(), from.clone()));
                        proof {
                            assert(view_subst(params@) =~= pre.push((id@, from@)));
                        }
                        true
                    },
                }
            },
            _ => ty_eq(self, from),
        }
    }
}

impl Named {
    /// Structural match of a named pattern: the names and arities must agree
    /// and every argument pair must match, left to right.
    pub fn imply_generic_params(&self, from: &Named, params: &mut Vec<(String, Type)>) -> (r: bool)
        ensures
            r == spec_imply_named(self@, from@, view_subst(old(params)@)).0,
            view_subst(final(params)@) == spec_imply_named(self@, from@, view_subst(old(params)@)).1,
        decreases ty_size(TyV::Named(view_named(*self))), 0nat,
    {
        proof {
            lemma_view_ty_seq(self.args@);
            lemma_view_ty_seq(from.args@);
        }
        if !string_eq(&self.name, &from.name) {
            return false;
        }
        if self.args.len() != from.args.len() {
            return false;
        }
        let ghost pa = view_named(*self).args;
        let ghost fa = view_named(*from).args;
        let ghost m0 = view_subst(params@);
        let ghost full = spec_imply_seq(pa, fa, m0);
        proof {
            assert(pa.skip(0) =~= pa);
            assert(fa.skip(0) =~= fa);
            assert(m0 == view_subst(old(params)@));
            assert(spec_imply_named(self@, from@, m0) == full);
        }
        let mut i: usize = 0;
        while i < self.args.len()
            invariant
                i <= self.args.len(),
                self.args@.len() == from.args@.len(),
                pa == view_named(*self).args,
                fa == view_named(*from).args,
                pa.len() == self.args@.len(),
                fa.len() == from.args@.len(),
                m0 == view_subst(old(params)@),
                spec_imply_named(self@, from@, m0) == full,
                full == spec_imply_seq(pa.skip(i as int), fa.skip(i as int), view_subst(params@)),
            decreases self.args.len() - i,
        {
            proof {
                lemma_view_ty_seq(self.args@);
                lemma_view_ty_seq(from.args@);
                assert(pa.skip(i as int)[0] == pa[i as int]);
                assert(fa.skip(i as int)[0] == fa[i as int]);
                assert(pa[i as int] == view_ty(self.args@[i as int]));
                assert(fa[i as int] == view_ty(from.args@[i as int]));
                assert(pa.skip(i as int).drop_first() =~= pa.skip(i as int + 1));
                assert(fa.skip(i as int).drop_first() =~= fa.skip(i as int + 1));
                lemma_ty_size_seq_index(view_ty_seq(self.args@), i as int);
            }
            if !self.args[i].imply_generic_params(&from.args[i], params) {
                return false;
            }
            i = i + 1;
        }
        proof {
            assert(pa.skip(pa.len() as int) =~= Seq::<TyV>::empty());
            assert(fa.skip(fa.len() as int) =~= Seq::<TyV>::empty());
        }
        true
    }
}

impl Impl {
    /// What this edge does to a concrete named type: infer the edge's
    /// generic bindings from the `from` pattern; when they cover the `to`
    /// pattern and the edge's constraints, substitute them into both. `None`
    /// when the pattern match fails or leaves a generic unbound.
    pub fn map(&self, ty: &Named) -> (r: Option<(Named, Vec<Bound>)>)
        ensures
            match r {
                None => spec_impl_map(self@, ty@) is None,
                Some(p) => spec_impl_map(self@, ty@) == Some((p.0@, view_bound_seq(p.1@))),
            },
    {
        let mut params: Vec<(String, Type)> = Vec::new();
        proof {
            assert(view_subst(params@) =~= Seq::<(Seq<char>, TyV)>::empty());
        }
        if !self.from.imply_generic_params(ty, &mut params) {
            return None;
        }
        let ghost m = view_subst(params@);
        proof {
            assert(spec_imply_named(self@.from, ty@, Seq::<(Seq<char>, TyV)>::empty()) == (
            true,
            m,
            ));
        }
        if !named_covered_exec(&self.to, &params) {
            return None;
        }
        let ghost bv = view_impl(*self).bounds;
        proof {
            lemma_view_bound_seq_index(self.bounds@);
        }
        let mut i: usize = 0;
        while i < self.bounds.len()
            invariant
                i <= self.bounds.len(),
                m == view_subst(params@),
                spec_imply_named(self@.from, ty@, Seq::<(Seq<char>, TyV)>::empty()) == (true, m),
                ty_covered(TyV::Named(self@.to), m),
                bv == view_bound_seq(self.bounds@),
                bv.len() == self.bounds@.len(),
                forall|j: int|
                    0 <= j < i ==> ty_covered((#[trigger] bv[j]).sub, m) && ty_covered(bv[j].super_, m),
            decreases self.bounds.len() - i,
        {
            proof {
                lemma_view_bound_seq_index(self.bounds@);
                assert(bv[i as int] == self.bounds@[i as int]@);
            }
            if !ty_covered_exec(&self.bounds[i].sub, &params) {
                proof {
                    assert(!ty_covered((view_impl(*self).bounds[i as int]).sub, m));
                }
                return None;
            }
            if !ty_covered_exec(&self.bounds[i].super_, &params) {
                proof {
                    assert(!ty_covered((view_impl(*self).bounds[i as int]).super_, m));
                }
                return None;
            }
            i = i + 1;
        }
        let derived = self.to.parameterise(&params);
        let mut out_bounds: Vec<Bound> = Vec::new();
        let mut k: usize = 0;
        while k < self.bounds.len()
            invariant
                k <= self.bounds.len(),
                m == view_subst(params@),
                spec_imply_named(self@.from, ty@, Seq::<(Seq<char>, TyV)>::empty()) == (true, m),
                ty_covered(TyV::Named(self@.to), m),
                bv == view_bound_seq(self.bounds@),
                bv.len() == self.bounds@.len(),
                out_bounds@.len() == k,
                forall|j: int|
                    0 <= j < bv.len() ==> ty_covered((#[trigger] bv[j]).sub, m) && ty_covered(
                        bv[j].super_,
                        m,
                    ),
                forall|j: int|
                    0 <= j < k ==> (#[trigger] out_bounds@[j])@ == (BoundV {
                        sub: spec_parameterise(bv[j].sub, m),
                        super_: spec_parameterise(bv[j].super_, m),
                    }),
            decreases self.bounds.len() - k,
        {
            proof {
                lemma_view_bound_seq_index(self.bounds@);
                assert(bv[k as int] == self.bounds@[k as int]@);
                assert(ty_covered(self.bounds@[k as int]@.sub, m));
                assert(ty_covered(self.bounds@[k as int]@.super_, m));
            }
            let b = self.bounds[k].parameterise(&params);
            out_bounds.push(b);
            k = k + 1;
        }
        proof {
            assert(view_bound_seq(out_bounds@) =~= Seq::new(
                bv.len(),
                |j: int|
                    BoundV {
                        sub: spec_parameterise(bv[j].sub, m),
                        super_: spec_parameterise(bv[j].super_, m),
                    },
            ));
        }
        Some((derived, out_bounds))
    }
}

/// Index facts for the view of a list of constraints.
pub proof fn lemma_view_bound_seq_index(s: Seq<Bound>)
    ensures
        view_bound_seq(s).len() == s.len(),
        forall|i: int| 0 <= i < s.len() ==> #[trigger] view_bound_seq(s)[i] == s[i]@,
{
}

} // verus!
