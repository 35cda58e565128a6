//! Preservation lemmas about the model: growing the declaration store or the
//! variable table keeps types well formed, substitution and matching keep
//! types well formed, and the engine's spec functions keep the table and the
//! formulas they produce well formed.

use vstd::prelude::*;

use crate::model::{
    all_of_v, bound_ok, decl_ok, decls_extend, drop_true, find_decl, impl_ok,
    lemma_parameterise_seq, logic_ok, logic_size, logic_size_seq, one_of_v, spec_imply,
    spec_imply_named, spec_imply_seq, spec_impl_map, spec_parameterise, spec_parameterise_named, spec_paths,
    spec_paths_scan, subst_lookup, subst_values_ok, ty_covered, ty_ok, ty_scoped, ty_vars_ok, BoundV,
    DeclV,
    ImplV, LogicV, NamedV, StmtV, TyV,
};

verus! {

/// Membership in a list grown at the end.
pub proof fn lemma_contains_push<A>(s: Seq<A>, x: A, y: A)
    ensures
        s.push(x).contains(y) <==> (s.contains(y) || x == y),
{
    if s.push(x).contains(y) {
        let k = choose|k: int| 0 <= k < s.push(x).len() && s.push(x)[k] == y;
        if k < s.len() {
            assert(s[k] == y);
        }
    }
    if s.contains(y) {
        let k = choose|k: int| 0 <= k < s.len() && s[k] == y;
        assert(s.push(x)[k] == y);
    }
    if x == y {
        assert(s.push(x)[s.len() as int] == y);
    }
}

/// Appending a declaration never changes what an already-found name maps to.
pub proof fn lemma_find_decl_push(ds: Seq<DeclV>, d: DeclV, nm: Seq<char>)
    ensures
        find_decl(ds, nm) is Some ==> find_decl(ds.push(d), nm) == find_decl(ds, nm),
        find_decl(ds, nm) is None && nm == d.name ==> find_decl(ds.push(d), nm) == Some(d),
        find_decl(ds, nm) is None && nm != d.name ==> find_decl(ds.push(d), nm) is None,
    decreases ds.len(),
{
    if ds.len() == 0 {
        assert(ds.push(d)[0] == d);
        assert(ds.push(d).drop_first() =~= Seq::<DeclV>::empty());
        if nm != d.name {
            assert(find_decl(ds.push(d), nm) == find_decl(Seq::<DeclV>::empty(), nm));
            assert(find_decl(Seq::<DeclV>::empty(), nm) is None);
        }
    } else {
        assert(ds.push(d)[0] == ds[0]);
        assert(ds.push(d).drop_first() =~= ds.drop_first().push(d));
        lemma_find_decl_push(ds.drop_first(), d, nm);
    }
}

/// A store that appends a fresh name extends the old one.
pub proof fn lemma_decls_extend_push(ds: Seq<DeclV>, d: DeclV)
    ensures
        decls_extend(ds, ds.push(d)),
{
    assert forall|nm: Seq<char>| #[trigger] find_decl(ds, nm) is Some implies find_decl(ds.push(d), nm)
        == find_decl(ds, nm) by {
        lemma_find_decl_push(ds, d, nm);
    }
}

/// Well-formedness of a type survives extending the store and growing the
/// table.
pub proof fn lemma_ty_ok_mono(t: TyV, ds1: Seq<DeclV>, n1: nat, ds2: Seq<DeclV>, n2: nat)
    requires
        ty_ok(t, ds1, n1),
        decls_extend(ds1, ds2),
        n1 <= n2,
    ensures
        ty_ok(t, ds2, n2),
    decreases t,
{
    match t {
        TyV::Named(nm) => {
            assert(find_decl(ds1, nm.name) is Some);
            assert forall|i: int| 0 <= i < nm.args.len() implies ty_ok(#[trigger] nm.args[i], ds2, n2) by {
                lemma_ty_ok_mono(nm.args[i], ds1, n1, ds2, n2);
            }
        },
        _ => {},
    }
}

pub proof fn lemma_bound_ok_mono(b: BoundV, ds1: Seq<DeclV>, n1: nat, ds2: Seq<DeclV>, n2: nat)
    requires
        bound_ok(b, ds1, n1),
        decls_extend(ds1, ds2),
        n1 <= n2,
    ensures
        bound_ok(b, ds2, n2),
{
    lemma_ty_ok_mono(b.sub, ds1, n1, ds2, n2);
    lemma_ty_ok_mono(b.super_, ds1, n1, ds2, n2);
}

pub proof fn lemma_decl_ok_mono(d: DeclV, ds1: Seq<DeclV>, n1: nat, ds2: Seq<DeclV>, n2: nat)
    requires
        decl_ok(d, ds1, n1),
        decls_extend(ds1, ds2),
        n1 <= n2,
    ensures
        decl_ok(d, ds2, n2),
{
    assert forall|i: int| 0 <= i < d.bounds.len() implies bound_ok(#[trigger] d.bounds[i], ds2, n2)
        && ty_scoped(d.bounds[i].sub, d.args) && ty_scoped(d.bounds[i].super_, d.args) by {
        lemma_bound_ok_mono(d.bounds[i], ds1, n1, ds2, n2);
    }
}

pub proof fn lemma_impl_ok_mono(im: ImplV, ds1: Seq<DeclV>, n1: nat, ds2: Seq<DeclV>, n2: nat)
    requires
        impl_ok(im, ds1, n1),
        decls_extend(ds1, ds2),
        n1 <= n2,
    ensures
        impl_ok(im, ds2, n2),
{
    lemma_ty_ok_mono(TyV::Named(im.from), ds1, n1, ds2, n2);
    lemma_ty_ok_mono(TyV::Named(im.to), ds1, n1, ds2, n2);
    assert forall|i: int| 0 <= i < im.bounds.len() implies bound_ok(#[trigger] im.bounds[i], ds2, n2) by {
        lemma_bound_ok_mono(im.bounds[i], ds1, n1, ds2, n2);
    }
}

pub proof fn lemma_logic_ok_mono(l: LogicV, ds1: Seq<DeclV>, n1: nat, ds2: Seq<DeclV>, n2: nat)
    requires
        logic_ok(l, ds1, n1),
        decls_extend(ds1, ds2),
        n1 <= n2,
    ensures
        logic_ok(l, ds2, n2),
    decreases l,
{
    match l {
        LogicV::OneOf(items) => {
            assert forall|i: int| 0 <= i < items.len() implies logic_ok(#[trigger] items[i], ds2, n2) by {
                lemma_logic_ok_mono(items[i], ds1, n1, ds2, n2);
            }
        },
        LogicV::AllOf(items) => {
            assert forall|i: int| 0 <= i < items.len() implies logic_ok(#[trigger] items[i], ds2, n2) by {
                lemma_logic_ok_mono(items[i], ds1, n1, ds2, n2);
            }
        },
        LogicV::Stmt(s) => {
            match s {
                StmtV::Exactly { ty, is } => {
                    lemma_ty_ok_mono(ty, ds1, n1, ds2, n2);
                    lemma_ty_ok_mono(is, ds1, n1, ds2, n2);
                },
                StmtV::Extends { sub, super_ } => {
                    lemma_ty_ok_mono(sub, ds1, n1, ds2, n2);
                    lemma_ty_ok_mono(super_, ds1, n1, ds2, n2);
                },
                StmtV::HasMember { .. } => {},
            }
        },
        _ => {},
    }
}

/// Every member kept by `drop_true` is a member of the original list, and is
/// not the constant `True`.
pub proof fn lemma_drop_true_members(s: Seq<LogicV>)
    ensures
        drop_true(s).len() <= s.len(),
        forall|i: int|
            0 <= i < drop_true(s).len() ==> s.contains(#[trigger] drop_true(s)[i]) && !(drop_true(
                s,
            )[i] is True),
    decreases s.len(),
{
    reveal(Seq::filter);
    if s.len() > 0 {
        lemma_drop_true_members(s.drop_last());
        let out = drop_true(s);
        let sub = drop_true(s.drop_last());
        assert forall|i: int| 0 <= i < out.len() implies s.contains(#[trigger] out[i]) && !(out[i] is True) by {
            if i < sub.len() {
                assert(sub[i] == out[i]);
                assert(s.drop_last().contains(sub[i]));
                let j = choose|j: int| 0 <= j < s.drop_last().len() && s.drop_last()[j] == sub[i];
                assert(s[j] == out[i]);
            } else {
                assert(out[i] == s.last());
                assert(s[s.len() - 1] == out[i]);
            }
        }
    }
}

/// `drop_true` over a list grown at the end.
pub proof fn lemma_drop_true_push(s: Seq<LogicV>, x: LogicV)
    ensures
        !(x is True) ==> drop_true(s.push(x)) == drop_true(s).push(x),
        x is True ==> drop_true(s.push(x)) == drop_true(s),
{
    reveal(Seq::filter);
    assert(s.push(x).drop_last() =~= s);
    assert(s.push(x).last() == x);
}

pub proof fn lemma_drop_true_empty()
    ensures
        drop_true(Seq::<LogicV>::empty()) =~= Seq::<LogicV>::empty(),
{
    reveal(Seq::filter);
}

/// The normalising conjunction of well-formed members is well formed.
pub proof fn lemma_all_of_ok(items: Seq<LogicV>, ds: Seq<DeclV>, n: nat)
    requires
        forall|i: int| 0 <= i < items.len() ==> logic_ok(#[trigger] items[i], ds, n),
    ensures
        logic_ok(all_of_v(items), ds, n),
{
    let kept = drop_true(items);
    lemma_drop_true_members(items);
    assert forall|i: int| 0 <= i < kept.len() implies logic_ok(#[trigger] kept[i], ds, n) by {
        assert(items.contains(kept[i]));
        let j = choose|j: int| 0 <= j < items.len() && items[j] == kept[i];
        assert(logic_ok(items[j], ds, n));
    }
}

/// The disjunction of well-formed alternatives is well formed.
pub proof fn lemma_one_of_ok(items: Seq<LogicV>, ds: Seq<DeclV>, n: nat)
    requires
        forall|i: int| 0 <= i < items.len() ==> logic_ok(#[trigger] items[i], ds, n),
    ensures
        logic_ok(one_of_v(items), ds, n),
{
}

/// A member of a formula list weighs no more than the whole list.
pub proof fn lemma_logic_size_seq_index(s: Seq<LogicV>, i: int)
    requires
        0 <= i < s.len(),
    ensures
        logic_size(s[i]) <= logic_size_seq(s),
    decreases s.len(),
{
    if i > 0 {
        lemma_logic_size_seq_index(s.drop_first(), i - 1);
        assert(s.drop_first()[i - 1] == s[i]);
    }
}

/// A type fit for the engine has its variables in range.
pub proof fn lemma_ty_ok_vars_ok(t: TyV, ds: Seq<DeclV>, n: nat)
    requires
        ty_ok(t, ds, n),
    ensures
        ty_vars_ok(t, n),
    decreases t,
{
    match t {
        TyV::Named(nm) => {
            assert forall|i: int| 0 <= i < nm.args.len() implies ty_vars_ok(#[trigger] nm.args[i], n) by {
                lemma_ty_ok_vars_ok(nm.args[i], ds, n);
            }
        },
        _ => {},
    }
}

/// A found declaration is a member of the store.
pub proof fn lemma_find_decl_member(ds: Seq<DeclV>, nm: Seq<char>)
    requires
        find_decl(ds, nm) is Some,
    ensures
        exists|i: int|
            0 <= i < ds.len() && #[trigger] ds[i] == find_decl(ds, nm)->Some_0 && ds[i].name == nm,
    decreases ds.len(),
{
    if ds[0].name == nm {
        assert(ds[0] == find_decl(ds, nm)->Some_0);
    } else {
        lemma_find_decl_member(ds.drop_first(), nm);
        let i = choose|i: int|
            0 <= i < ds.drop_first().len() && #[trigger] ds.drop_first()[i] == find_decl(
                ds.drop_first(),
                nm,
            )->Some_0 && ds.drop_first()[i].name == nm;
        assert(ds[i + 1] == ds.drop_first()[i]);
    }
}

/// What a lookup finds in a map of well-formed values is well formed.
pub proof fn lemma_subst_lookup_ok(m: Seq<(Seq<char>, TyV)>, g: Seq<char>, ds: Seq<DeclV>, n: nat)
    requires
        subst_values_ok(m, ds, n),
        subst_lookup(m, g) is Some,
    ensures
        ty_ok(subst_lookup(m, g)->Some_0, ds, n),
    decreases m.len(),
{
    if m[0].0 == g {
        assert(ty_ok(m[0].1, ds, n));
    } else {
        assert forall|i: int| 0 <= i < m.drop_first().len() implies ty_ok(
            (#[trigger] m.drop_first()[i]).1,
            ds,
            n,
        ) by {
            assert(m.drop_first()[i] == m[i + 1]);
        }
        lemma_subst_lookup_ok(m.drop_first(), g, ds, n);
    }
}

/// Matching a pattern against a well-formed type extends the bindings only
/// with well-formed values.
pub proof fn lemma_imply_values_ok(
    pat: TyV,
    target: TyV,
    m: Seq<(Seq<char>, TyV)>,
    ds: Seq<DeclV>,
    n: nat,
)
    requires
        ty_ok(target, ds, n),
        subst_values_ok(m, ds, n),
    ensures
        subst_values_ok(spec_imply(pat, target, m).1, ds, n),
    decreases pat, 1nat,
{
    match pat {
        TyV::Named(p) => {
            match target {
                TyV::Named(f) => {
                    lemma_imply_values_ok_named(p, f, m, ds, n);
                },
                _ => {},
            }
        },
        TyV::Generic(g) => {
            match subst_lookup(m, g) {
                Some(_) => {},
                None => {
                    let m2 = m.push((g, target));
                    assert forall|i: int| 0 <= i < m2.len() implies ty_ok((#[trigger] m2[i]).1, ds, n) by {
                        if i < m.len() {
                            assert(m2[i] == m[i]);
                        } else {
                            assert(m2[i] == (g, target));
                        }
                    }
                },
            }
        },
        _ => {},
    }
}

pub proof fn lemma_imply_values_ok_named(
    p: NamedV,
    f: NamedV,
    m: Seq<(Seq<char>, TyV)>,
    ds: Seq<DeclV>,
    n: nat,
)
    requires
        ty_ok(TyV::Named(f), ds, n),
        subst_values_ok(m, ds, n),
    ensures
        subst_values_ok(spec_imply_named(p, f, m).1, ds, n),
    decreases p, 0nat,
{
    if p.name == f.name && p.args.len() == f.args.len() {
        lemma_imply_values_ok_seq(p.args, f.args, m, ds, n);
    }
}

pub proof fn lemma_imply_values_ok_seq(
    ps: Seq<TyV>,
    fs: Seq<TyV>,
    m: Seq<(Seq<char>, TyV)>,
    ds: Seq<DeclV>,
    n: nat,
)
    requires
        forall|i: int| 0 <= i < fs.len() ==> ty_ok(#[trigger] fs[i], ds, n),
        subst_values_ok(m, ds, n),
    ensures
        subst_values_ok(spec_imply_seq(ps, fs, m).1, ds, n),
    decreases ps, 2nat,
{
    if ps.len() != 0 && fs.len() != 0 {
        lemma_imply_values_ok(ps[0], fs[0], m, ds, n);
        let r0 = spec_imply(ps[0], fs[0], m);
        if r0.0 {
            assert forall|i: int| 0 <= i < fs.drop_first().len() implies ty_ok(
                #[trigger] fs.drop_first()[i],
                ds,
                n,
            ) by {
                assert(fs.drop_first()[i] == fs[i + 1]);
            }
            lemma_imply_values_ok_seq(ps.drop_first(), fs.drop_first(), r0.1, ds, n);
        }
    }
}

/// Substitution with well-formed binding values keeps a type well formed.
pub proof fn lemma_parameterise_ok(t: TyV, m: Seq<(Seq<char>, TyV)>, ds: Seq<DeclV>, n: nat)
    requires
        ty_ok(t, ds, n),
        subst_values_ok(m, ds, n),
    ensures
        ty_ok(spec_parameterise(t, m), ds, n),
    decreases t,
{
    match t {
        TyV::Named(nm) => {
            lemma_parameterise_seq(nm.args, m);
            let out = spec_parameterise_named(nm, m);
            assert forall|i: int| 0 <= i < out.args.len() implies ty_ok(#[trigger] out.args[i], ds, n) by {
                assert(out.args[i] == spec_parameterise(nm.args[i], m));
                lemma_parameterise_ok(nm.args[i], m, ds, n);
            }
        },
        TyV::Generic(g) => {
            if subst_lookup(m, g) is Some {
                lemma_subst_lookup_ok(m, g, ds, n);
            }
        },
        _ => {},
    }
}

/// A type scoped to a generic list is covered by any map that binds the whole
/// list.
pub proof fn lemma_scoped_covered(t: TyV, gs: Seq<Seq<char>>, m: Seq<(Seq<char>, TyV)>)
    requires
        ty_scoped(t, gs),
        forall|g: Seq<char>| gs.contains(g) ==> #[trigger] subst_lookup(m, g) is Some,
    ensures
        ty_covered(t, m),
    decreases t,
{
    match t {
        TyV::Named(nm) => {
            assert forall|i: int| 0 <= i < nm.args.len() implies ty_covered(#[trigger] nm.args[i], m) by {
                lemma_scoped_covered(nm.args[i], gs, m);
            }
        },
        _ => {},
    }
}

/// A key that occurs in a substitution map is found by lookup.
pub proof fn lemma_subst_lookup_present(m: Seq<(Seq<char>, TyV)>, g: Seq<char>)
    requires
        exists|i: int| 0 <= i < m.len() && (#[trigger] m[i]).0 == g,
    ensures
        subst_lookup(m, g) is Some,
    decreases m.len(),
{
    let i = choose|i: int| 0 <= i < m.len() && (#[trigger] m[i]).0 == g;
    if m[0].0 != g {
        assert(m.drop_first()[i - 1] == m[i]);
        lemma_subst_lookup_present(m.drop_first(), g);
    }
}

/// Mapping a well-formed type through a well-formed edge yields a
/// well-formed type and well-formed residual constraints.
pub proof fn lemma_impl_map_ok(im: ImplV, ty: NamedV, ds: Seq<DeclV>, n: nat)
    requires
        impl_ok(im, ds, n),
        ty_ok(TyV::Named(ty), ds, n),
    ensures
        match spec_impl_map(im, ty) {
            Some(p) => ty_ok(TyV::Named(p.0), ds, n) && forall|i: int|
                0 <= i < p.1.len() ==> bound_ok(#[trigger] p.1[i], ds, n),
            None => true,
        },
{
    let m0 = Seq::<(Seq<char>, TyV)>::empty();
    assert(subst_values_ok(m0, ds, n));
    lemma_imply_values_ok_named(im.from, ty, m0, ds, n);
    let r = spec_imply_named(im.from, ty, m0);
    if spec_impl_map(im, ty) is Some {
        lemma_parameterise_ok(TyV::Named(im.to), r.1, ds, n);
        let p = spec_impl_map(im, ty)->Some_0;
        assert(TyV::Named(p.0) == spec_parameterise(TyV::Named(im.to), r.1));
        assert forall|i: int| 0 <= i < p.1.len() implies bound_ok(#[trigger] p.1[i], ds, n) by {
            assert(bound_ok(im.bounds[i], ds, n));
            lemma_parameterise_ok(im.bounds[i].sub, r.1, ds, n);
            lemma_parameterise_ok(im.bounds[i].super_, r.1, ds, n);
        }
    }
}

/// Every edge of every chain found by the path search is an edge of the
/// graph.
pub proof fn lemma_paths_elems(from: Seq<char>, to: Seq<char>, impls: Seq<ImplV>, fuel: nat)
    ensures
        forall|ci: int, j: int|
            #![trigger spec_paths(from, to, impls, fuel)[ci][j]]
            0 <= ci < spec_paths(from, to, impls, fuel).len() && 0 <= j < spec_paths(
                from,
                to,
                impls,
                fuel,
            )[ci].len() ==> impls.contains(spec_paths(from, to, impls, fuel)[ci][j]),
    decreases fuel, impls.len() + 1,
{
    if from != to && fuel > 0 {
        lemma_paths_elems_scan(from, to, impls, fuel, 0);
        let whole = spec_paths(from, to, impls, fuel);
        assert(whole == spec_paths_scan(from, to, impls, fuel, 0));
        assert forall|ci: int, j: int|
            0 <= ci < whole.len() && 0 <= j < whole[ci].len() implies impls.contains(
            #[trigger] whole[ci][j],
        ) by {
            assert(whole[ci][j] == spec_paths_scan(from, to, impls, fuel, 0)[ci][j]);
        }
    }
}

pub proof fn lemma_paths_elems_scan(
    from: Seq<char>,
    to: Seq<char>,
    impls: Seq<ImplV>,
    fuel: nat,
    k: int,
)
    ensures
        forall|ci: int, j: int|
            #![trigger spec_paths_scan(from, to, impls, fuel, k)[ci][j]]
            0 <= ci < spec_paths_scan(from, to, impls, fuel, k).len() && 0 <= j < spec_paths_scan(
                from,
                to,
                impls,
                fuel,
                k,
            )[ci].len() ==> impls.contains(spec_paths_scan(from, to, impls, fuel, k)[ci][j]),
    decreases fuel, impls.len() - k,
{
    if !(k < 0 || k >= impls.len() || fuel == 0) {
        lemma_paths_elems(impls[k].to.name, to, impls, (fuel - 1) as nat);
        lemma_paths_elems_scan(from, to, impls, fuel, k + 1);
        let whole = spec_paths_scan(from, to, impls, fuel, k);
        let rec = spec_paths(impls[k].to.name, to, impls, (fuel - 1) as nat);
        let head: Seq<Seq<ImplV>> = if impls[k].from.name == from {
            rec.map_values(|p: Seq<ImplV>| seq![impls[k]] + p)
        } else {
            Seq::empty()
        };
        let rest = spec_paths_scan(from, to, impls, fuel, k + 1);
        assert forall|ci: int, j: int|
            0 <= ci < whole.len() && 0 <= j < whole[ci].len() implies impls.contains(
            #[trigger] whole[ci][j],
        ) by {
            if ci < head.len() {
                assert(whole[ci] == head[ci]);
                assert(head[ci] == seq![impls[k]] + rec[ci]);
                if j == 0 {
                    assert(whole[ci][j] == impls[k]);
                } else {
                    assert(whole[ci][j] == rec[ci][j - 1]);
                }
            } else {
                assert(whole[ci] == rest[ci - head.len()]);
            }
        }
    }
}

} // verus!
