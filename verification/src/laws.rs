//! The engine's laws, stated over the model and proved once and for all:
//! unification is decided structurally on concrete types, exploring without
//! inference never touches the table, an unresolved variable is bound exactly
//! when inference is enabled, subtyping is reflexive, derivations follow the
//! implementation graph, instantiation allocates one variable per missing
//! parameter, and disjunctions collapse onto their only live branch.

use vstd::prelude::*;

use crate::lemmas::{lemma_drop_true_empty};
use crate::model::{
    all_of_v, chase, count_false, drop_true, first_non_false, lemma_resolve_seq,
    lemma_ty_size_seq_index, spec_apply_chain, spec_extends,
    spec_extends_chains, spec_impl_map, spec_imply, spec_imply_named, spec_imply_seq,
    spec_inst_named, spec_parameterise, spec_parameterise_named, spec_parameterise_seq, spec_paths,
    spec_paths_scan, spec_reduce, spec_reduce_seq, spec_unify, spec_unify_args, spec_unify_named,
    spec_resolve, spec_resolve_done, spec_resolve_seq, splice_item, state_wf, subst_lookup,
    table_vars_ok, ty_concrete, ty_covered, ty_ok, ty_resolved, ty_size, ty_size_seq, ty_vars_ok,
    BoundV, DeclV, ImplV, LogicV, NamedV, StateV, StmtV, TyV,
};

verus! {

// ---------------------------------------------------------------------------
// Exploration without inference never mutates the table
// ---------------------------------------------------------------------------

/// Unifying without inference leaves the variable table exactly as it was.
pub proof fn lemma_unify_no_infer(a: TyV, b: TyV, tbl: Seq<TyV>, fuel: nat)
    ensures
        spec_unify(a, b, tbl, false, fuel).1 == tbl,
    decreases fuel, ty_size(a) + ty_size(b), 1nat,
{
    if b is Var {
        let j = b->Var_0;
        if j < tbl.len() && !(tbl[j as int] is Free) && fuel > 0 {
            lemma_unify_no_infer(a, tbl[j as int], tbl, (fuel - 1) as nat);
        }
    } else if a is Var {
        let i = a->Var_0;
        if i < tbl.len() && !(tbl[i as int] is Free) && fuel > 0 {
            lemma_unify_no_infer(tbl[i as int], b, tbl, (fuel - 1) as nat);
        }
    } else {
        match a {
            TyV::Named(an) => match b {
                TyV::Named(bn) => {
                    if an.name == bn.name {
                        lemma_unify_args_no_infer(an.args, bn.args, tbl, fuel);
                    }
                },
                _ => {},
            },
            _ => {},
        }
    }
}

pub proof fn lemma_unify_args_no_infer(aa: Seq<TyV>, bb: Seq<TyV>, tbl: Seq<TyV>, fuel: nat)
    ensures
        spec_unify_args(aa, bb, tbl, false, fuel).1 == tbl,
    decreases fuel, ty_size_seq(aa) + ty_size_seq(bb), aa.len() + 2,
{
    if aa.len() != 0 && bb.len() != 0 {
        lemma_unify_no_infer(aa[0], bb[0], tbl, fuel);
        let r0 = spec_unify(aa[0], bb[0], tbl, false, fuel);
        if !(r0.0 is False) {
            lemma_unify_args_no_infer(aa.drop_first(), bb.drop_first(), r0.1, fuel);
        }
    }
}

pub proof fn lemma_extends_chains_no_infer(
    chains: Seq<Seq<ImplV>>,
    this: NamedV,
    other: NamedV,
    tbl: Seq<TyV>,
    fuel: nat,
)
    ensures
        spec_extends_chains(chains, this, other, tbl, false, fuel).1 == tbl,
    decreases chains,
{
    if chains.len() != 0 {
        match spec_apply_chain(chains[0], this) {
            None => {
                lemma_extends_chains_no_infer(chains.drop_first(), this, other, tbl, fuel);
            },
            Some((derived, bs)) => {
                if derived.name == other.name {
                    lemma_unify_args_no_infer(derived.args, other.args, tbl, fuel);
                }
                let r = spec_unify_named(derived, other, tbl, false, fuel);
                lemma_extends_chains_no_infer(chains.drop_first(), this, other, r.1, fuel);
            },
        }
    }
}

/// Exploring a subtyping query without inference leaves the table unchanged.
pub proof fn lemma_extends_no_infer(sub: TyV, super_: TyV, impls: Seq<ImplV>, tbl: Seq<TyV>, fuel: nat)
    ensures
        spec_extends(sub, super_, impls, tbl, false, fuel).1 == tbl,
{
    let s1 = chase(sub, tbl, fuel);
    let s2 = chase(super_, tbl, fuel);
    match s1 {
        TyV::Named(this) => match s2 {
            TyV::Named(other) => {
                let chains = spec_paths(this.name, other.name, impls, (impls.len() + 1) as nat);
                lemma_extends_chains_no_infer(chains, this, other, tbl, fuel);
            },
            _ => {},
        },
        _ => {},
    }
}

/// Exploring a branch of a disjunction never commits state: reducing any
/// formula without inference leaves the variable table exactly as it was.
pub proof fn lemma_reduce_no_infer(l: LogicV, impls: Seq<ImplV>, tbl: Seq<TyV>, fuel: nat)
    ensures
        spec_reduce(l, impls, tbl, false, fuel).1 == tbl,
    decreases crate::model::logic_size(l), 1nat,
{
    match l {
        LogicV::Stmt(s) => {
            match s {
                StmtV::Exactly { ty, is } => {
                    lemma_unify_no_infer(ty, is, tbl, fuel);
                },
                StmtV::Extends { sub, super_ } => {
                    lemma_extends_no_infer(sub, super_, impls, tbl, fuel);
                },
                StmtV::HasMember { .. } => {},
            }
        },
        LogicV::AllOf(items) => {
            lemma_reduce_seq_no_infer(items, impls, tbl, fuel);
        },
        LogicV::OneOf(items) => {
            lemma_reduce_seq_no_infer(items, impls, tbl, fuel);
        },
        _ => {},
    }
}

pub proof fn lemma_reduce_seq_no_infer(items: Seq<LogicV>, impls: Seq<ImplV>, tbl: Seq<TyV>, fuel: nat)
    ensures
        spec_reduce_seq(items, impls, tbl, false, fuel).1 == tbl,
    decreases crate::model::logic_size_seq(items), items.len() + 2,
{
    if items.len() != 0 {
        crate::lemmas::lemma_logic_size_seq_index(items, 0);
        lemma_reduce_no_infer(items[0], impls, tbl, fuel);
        let r0 = spec_reduce(items[0], impls, tbl, false, fuel);
        lemma_reduce_seq_no_infer(items.drop_first(), impls, r0.1, fuel);
    }
}

// ---------------------------------------------------------------------------
// Unification on concrete types is decided structural equality
// ---------------------------------------------------------------------------

/// A list of sub-results that are all `True` folds to the constant `True`.
pub proof fn lemma_all_of_all_true(items: Seq<LogicV>)
    requires
        forall|i: int| 0 <= i < items.len() ==> #[trigger] items[i] == LogicV::True,
    ensures
        all_of_v(items) == LogicV::True,
    decreases items.len(),
{
    reveal(Seq::filter);
    if items.len() == 0 {
        lemma_drop_true_empty();
    } else {
        assert(items.drop_last() =~= items.take(items.len() - 1));
        assert forall|i: int| 0 <= i < items.drop_last().len() implies #[trigger] items.drop_last()[i]
            == LogicV::True by {
            assert(items.drop_last()[i] == items[i]);
        }
        lemma_all_of_all_true(items.drop_last());
        assert(drop_true(items) == drop_true(items.drop_last()));
    }
}

/// Unifying any concrete type with itself yields `True` and touches nothing,
/// whether or not inference is enabled.
pub proof fn lemma_unify_reflexive(a: TyV, tbl: Seq<TyV>, infer: bool, fuel: nat)
    requires
        ty_concrete(a),
    ensures
        spec_unify(a, a, tbl, infer, fuel) == (LogicV::True, tbl),
    decreases ty_size(a), 0nat,
{
    let an = a->Named_0;
    assert(forall|i: int| 0 <= i < an.args.len() ==> ty_concrete(#[trigger] an.args[i]));
    lemma_unify_args_reflexive(an.args, tbl, infer, fuel);
    let r = spec_unify_args(an.args, an.args, tbl, infer, fuel);
    lemma_all_of_all_true(r.0->Some_0);
}

pub proof fn lemma_unify_args_reflexive(aa: Seq<TyV>, tbl: Seq<TyV>, infer: bool, fuel: nat)
    requires
        forall|i: int| 0 <= i < aa.len() ==> ty_concrete(#[trigger] aa[i]),
    ensures
        spec_unify_args(aa, aa, tbl, infer, fuel).1 == tbl,
        spec_unify_args(aa, aa, tbl, infer, fuel).0 is Some,
        forall|i: int|
            0 <= i < spec_unify_args(aa, aa, tbl, infer, fuel).0->Some_0.len()
                ==> #[trigger] spec_unify_args(aa, aa, tbl, infer, fuel).0->Some_0[i] == LogicV::True,
    decreases ty_size_seq(aa), 1nat,
{
    if aa.len() != 0 {
        lemma_unify_reflexive(aa[0], tbl, infer, fuel);
        assert forall|i: int| 0 <= i < aa.drop_first().len() implies ty_concrete(
            #[trigger] aa.drop_first()[i],
        ) by {
            assert(aa.drop_first()[i] == aa[i + 1]);
        }
        lemma_unify_args_reflexive(aa.drop_first(), tbl, infer, fuel);
        let rest = spec_unify_args(aa.drop_first(), aa.drop_first(), tbl, infer, fuel);
        assert(splice_item(LogicV::True) =~= seq![LogicV::True]);
        assert forall|i: int|
            0 <= i < (seq![LogicV::True] + rest.0->Some_0).len() implies #[trigger] (seq![
            LogicV::True,
        ] + rest.0->Some_0)[i] == LogicV::True by {
            if i > 0 {
                assert((seq![LogicV::True] + rest.0->Some_0)[i] == rest.0->Some_0[i - 1]);
            }
        }
    }
}

/// Two named types with different names never unify, whatever stands in
/// their arguments or in the table.
pub proof fn lemma_unify_distinct_names(a: NamedV, b: NamedV, tbl: Seq<TyV>, infer: bool, fuel: nat)
    requires
        a.name != b.name,
    ensures
        spec_unify(TyV::Named(a), TyV::Named(b), tbl, infer, fuel) == (LogicV::False, tbl),
{
}

/// On concrete, well-formed types, unification is exactly structural
/// equality: `True` when the two types are equal, `False` otherwise, and the
/// table is never touched.
pub proof fn lemma_unify_concrete(
    a: TyV,
    b: TyV,
    tbl: Seq<TyV>,
    infer: bool,
    fuel: nat,
    ds: Seq<DeclV>,
    n: nat,
)
    requires
        ty_concrete(a),
        ty_concrete(b),
        ty_ok(a, ds, n),
        ty_ok(b, ds, n),
    ensures
        spec_unify(a, b, tbl, infer, fuel) == (
            if a == b {
                LogicV::True
            } else {
                LogicV::False
            },
            tbl,
        ),
    decreases ty_size(a) + ty_size(b), 0nat,
{
    if a == b {
        lemma_unify_reflexive(a, tbl, infer, fuel);
    } else {
        let an = a->Named_0;
        let bn = b->Named_0;
        if an.name == bn.name {
            assert(an.args.len() == bn.args.len());
            if an.args =~= bn.args {
                assert(a == b);
            }
            assert(forall|i: int| 0 <= i < an.args.len() ==> ty_concrete(#[trigger] an.args[i]));
            assert(forall|i: int| 0 <= i < bn.args.len() ==> ty_concrete(#[trigger] bn.args[i]));
            lemma_unify_args_concrete(an.args, bn.args, tbl, infer, fuel, ds, n);
        }
    }
}

/// Pairwise unification of distinct concrete argument lists of equal length
/// stops at the first differing pair, refuted, with the table untouched.
pub proof fn lemma_unify_args_concrete(
    aa: Seq<TyV>,
    bb: Seq<TyV>,
    tbl: Seq<TyV>,
    infer: bool,
    fuel: nat,
    ds: Seq<DeclV>,
    n: nat,
)
    requires
        aa.len() == bb.len(),
        aa != bb,
        forall|i: int| 0 <= i < aa.len() ==> ty_concrete(#[trigger] aa[i]) && ty_ok(aa[i], ds, n),
        forall|i: int| 0 <= i < bb.len() ==> ty_concrete(#[trigger] bb[i]) && ty_ok(bb[i], ds, n),
    ensures
        spec_unify_args(aa, bb, tbl, infer, fuel) == (Option::<Seq<LogicV>>::None, tbl),
    decreases ty_size_seq(aa) + ty_size_seq(bb), 1nat,
{
    if aa.len() == 0 {
        assert(aa =~= bb);
    }
    assert(aa.len() != 0);
    lemma_unify_concrete(aa[0], bb[0], tbl, infer, fuel, ds, n);
    if aa[0] == bb[0] {
        assert(splice_item(LogicV::True) =~= seq![LogicV::True]);
        assert forall|i: int| 0 <= i < aa.drop_first().len() implies ty_concrete(
            #[trigger] aa.drop_first()[i],
        ) && ty_ok(aa.drop_first()[i], ds, n) by {
            assert(aa.drop_first()[i] == aa[i + 1]);
        }
        assert forall|i: int| 0 <= i < bb.drop_first().len() implies ty_concrete(
            #[trigger] bb.drop_first()[i],
        ) && ty_ok(bb.drop_first()[i], ds, n) by {
            assert(bb.drop_first()[i] == bb[i + 1]);
        }
        if aa.drop_first() == bb.drop_first() {
            assert forall|i: int| 0 <= i < aa.len() implies aa[i] == bb[i] by {
                if i > 0 {
                    assert(aa.drop_first()[i - 1] == bb.drop_first()[i - 1]);
                }
            }
            assert(aa =~= bb);
        }
        lemma_unify_args_concrete(aa.drop_first(), bb.drop_first(), tbl, infer, fuel, ds, n);
    }
}

// ---------------------------------------------------------------------------
// An unresolved variable binds exactly when inference is enabled
// ---------------------------------------------------------------------------

/// Unification against an unresolved variable on the right: with inference
/// it binds that variable to the other side and succeeds; without inference
/// it defers the obligation and the table is untouched.
pub proof fn lemma_unify_free_var_right(a: TyV, j: nat, tbl: Seq<TyV>, fuel: nat)
    requires
        j < tbl.len(),
        tbl[j as int] is Free,
        a != TyV::Var(j),
    ensures
        spec_unify(a, TyV::Var(j), tbl, true, fuel) == (LogicV::True, tbl.update(j as int, a)),
        spec_unify(a, TyV::Var(j), tbl, false, fuel) == (
            LogicV::Stmt(StmtV::Exactly { ty: a, is: TyV::Var(j) }),
            tbl,
        ),
{
}

/// Unification with an unresolved variable on the left (and no variable on
/// the right): the same, mirrored.
pub proof fn lemma_unify_free_var_left(b: TyV, i: nat, tbl: Seq<TyV>, fuel: nat)
    requires
        i < tbl.len(),
        tbl[i as int] is Free,
        !(b is Var),
    ensures
        spec_unify(TyV::Var(i), b, tbl, true, fuel) == (LogicV::True, tbl.update(i as int, b)),
        spec_unify(TyV::Var(i), b, tbl, false, fuel) == (
            LogicV::Stmt(StmtV::Exactly { ty: TyV::Var(i), is: b }),
            tbl,
        ),
{
}

// ---------------------------------------------------------------------------
// Subtyping: reflexivity, and derivations only along edges
// ---------------------------------------------------------------------------

/// The identity derivation: from a name to itself there is exactly one
/// chain, the empty one.
pub proof fn lemma_paths_reflexive(name: Seq<char>, impls: Seq<ImplV>, fuel: nat)
    ensures
        spec_paths(name, name, impls, fuel) == seq![Seq::<ImplV>::empty()],
{
}

/// Subtyping is reflexive: a concrete type is bound by itself through
/// exactly one derivation, and the query reduces to `True` without touching
/// the table.
pub proof fn lemma_extends_reflexive(a: NamedV, impls: Seq<ImplV>, tbl: Seq<TyV>, infer: bool, fuel: nat)
    requires
        ty_concrete(TyV::Named(a)),
    ensures
        spec_paths(a.name, a.name, impls, (impls.len() + 1) as nat).len() == 1,
        spec_extends(TyV::Named(a), TyV::Named(a), impls, tbl, infer, fuel) == (LogicV::True, tbl),
{
    let chains = spec_paths(a.name, a.name, impls, (impls.len() + 1) as nat);
    lemma_paths_reflexive(a.name, impls, (impls.len() + 1) as nat);
    assert(spec_apply_chain(chains[0], a) == Some((a, Seq::<BoundV>::empty())));
    assert(ty_concrete(TyV::Named(a)));
    assert forall|i: int| 0 <= i < a.args.len() implies ty_concrete(#[trigger] a.args[i]) by {
        assert(TyV::Named(a)->Named_0 == a);
    }
    lemma_unify_args_reflexive(a.args, tbl, infer, fuel);
    let r = spec_unify_args(a.args, a.args, tbl, infer, fuel);
    lemma_all_of_all_true(r.0->Some_0);
    assert(spec_unify_named(a, a, tbl, infer, fuel) == (LogicV::True, tbl));
    assert forall|z: Seq<LogicV>| z.len() == 0 implies z + seq![LogicV::True] =~= seq![
        LogicV::True,
    ] by {
    }
    assert(drop_true(seq![LogicV::True]) =~= Seq::<LogicV>::empty()) by {
        reveal(Seq::filter);
        assert(seq![LogicV::True].drop_last() =~= Seq::<LogicV>::empty());
        lemma_drop_true_empty();
    }
    assert(all_of_v(seq![LogicV::True]) == LogicV::True);
    assert(chains.drop_first() =~= Seq::<Seq<ImplV>>::empty());
    assert(spec_extends_chains(chains.drop_first(), a, a, tbl, infer, fuel) == (
        Seq::<LogicV>::empty(),
        tbl,
    ));
    assert(seq![LogicV::True] + Seq::<LogicV>::empty() =~= seq![LogicV::True]);
    assert(spec_extends_chains(chains, a, a, tbl, infer, fuel) == (seq![LogicV::True], tbl));
}

/// With no implementation edge leaving the queried name, a subtyping query
/// against a differently named target finds no derivation and is refuted.
pub proof fn lemma_extends_no_edge(
    sub: NamedV,
    sup: NamedV,
    impls: Seq<ImplV>,
    tbl: Seq<TyV>,
    infer: bool,
    fuel: nat,
)
    requires
        sub.name != sup.name,
        forall|k: int| 0 <= k < impls.len() ==> (#[trigger] impls[k]).from.name != sub.name,
    ensures
        spec_paths(sub.name, sup.name, impls, (impls.len() + 1) as nat).len() == 0,
        spec_extends(TyV::Named(sub), TyV::Named(sup), impls, tbl, infer, fuel) == (
            LogicV::False,
            tbl,
        ),
{
    lemma_paths_scan_no_edge(sub.name, sup.name, impls, (impls.len() + 1) as nat, 0);
    let chains = spec_paths(sub.name, sup.name, impls, (impls.len() + 1) as nat);
    assert(chains =~= Seq::<Seq<ImplV>>::empty());
    assert(spec_extends_chains(chains, sub, sup, tbl, infer, fuel) == (Seq::<LogicV>::empty(), tbl));
}

pub proof fn lemma_paths_scan_no_edge(
    from: Seq<char>,
    to: Seq<char>,
    impls: Seq<ImplV>,
    fuel: nat,
    k: int,
)
    requires
        forall|t: int| 0 <= t < impls.len() ==> (#[trigger] impls[t]).from.name != from,
    ensures
        spec_paths_scan(from, to, impls, fuel, k).len() == 0,
    decreases fuel, impls.len() - k,
{
    if !(k < 0 || k >= impls.len() || fuel == 0) {
        lemma_paths_scan_no_edge(from, to, impls, fuel, k + 1);
    }
}

/// A conjunction with a refuted member is refuted.
pub proof fn lemma_all_of_single_false()
    ensures
        all_of_v(seq![LogicV::False]) == LogicV::False,
{
    reveal(Seq::filter);
    assert(seq![LogicV::False].drop_last() =~= Seq::<LogicV>::empty());
    lemma_drop_true_empty();
    assert(drop_true(seq![LogicV::False]) =~= seq![LogicV::False]);
    assert(drop_true(seq![LogicV::False])[0] == LogicV::False);
}

/// One implementation edge between two argument-free names gives exactly one
/// derivation in its direction, proving the query, and none in the reverse
/// direction, refuting it.
#[verifier::rlimit(60)]
pub proof fn lemma_extends_single_edge(
    na: Seq<char>,
    nb: Seq<char>,
    impls: Seq<ImplV>,
    tbl: Seq<TyV>,
    infer: bool,
    fuel: nat,
)
    requires
        na != nb,
        impls == seq![
            ImplV {
                args: Seq::<Seq<char>>::empty(),
                from: (NamedV { name: na, args: Seq::empty() }),
                to: (NamedV { name: nb, args: Seq::empty() }),
                bounds: Seq::empty(),
            },
        ],
    ensures
        spec_paths(na, nb, impls, (impls.len() + 1) as nat).len() == 1,
        spec_extends(
            TyV::Named(NamedV { name: na, args: Seq::empty() }),
            TyV::Named(NamedV { name: nb, args: Seq::empty() }),
            impls,
            tbl,
            infer,
            fuel,
        ) == (LogicV::True, tbl),
        spec_extends(
            TyV::Named(NamedV { name: nb, args: Seq::empty() }),
            TyV::Named(NamedV { name: na, args: Seq::empty() }),
            impls,
            tbl,
            infer,
            fuel,
        ) == (LogicV::False, tbl),
{
    let e = impls[0];
    let a = NamedV { name: na, args: Seq::<TyV>::empty() };
    let b = NamedV { name: nb, args: Seq::<TyV>::empty() };
    // Forward: exactly one chain, the single edge.
    let chains = spec_paths(na, nb, impls, 2);
    assert(spec_paths(nb, nb, impls, 1) == seq![Seq::<ImplV>::empty()]);
    assert(spec_paths_scan(na, nb, impls, 2, 1) =~= Seq::<Seq<ImplV>>::empty());
    assert(seq![Seq::<ImplV>::empty()].map_values(|p: Seq<ImplV>| seq![e] + p)[0] =~= seq![e]);
    assert(seq![Seq::<ImplV>::empty()].map_values(|p: Seq<ImplV>| seq![e] + p) =~= seq![seq![e]]);
    assert(seq![seq![e]] + Seq::<Seq<ImplV>>::empty() =~= seq![seq![e]]);
    assert(spec_paths_scan(na, nb, impls, 2, 0) == seq![seq![e]]);
    assert(chains == seq![seq![e]]);
    // Applying the edge maps the source onto the target with no residue.
    assert(spec_imply_seq(e.from.args, a.args, Seq::empty()) == (
        true,
        Seq::<(Seq<char>, TyV)>::empty(),
    ));
    assert(spec_imply_named(e.from, a, Seq::empty()).0);
    assert(spec_parameterise_seq(e.to.args, Seq::empty()) =~= Seq::<TyV>::empty());
    assert(spec_parameterise_named(e.to, Seq::empty()) == b);
    assert(Seq::new(
        0,
        |i: int|
            BoundV {
                sub: spec_parameterise(e.bounds[i].sub, Seq::empty()),
                super_: spec_parameterise(e.bounds[i].super_, Seq::empty()),
            },
    ) =~= Seq::<BoundV>::empty());
    assert(spec_impl_map(e, a) == Some((b, Seq::<BoundV>::empty())));
    assert(seq![e].drop_first() =~= Seq::<ImplV>::empty());
    assert(Seq::<BoundV>::empty() + Seq::<BoundV>::empty() =~= Seq::<BoundV>::empty());
    assert(spec_apply_chain(Seq::<ImplV>::empty(), b) == Some((b, Seq::<BoundV>::empty())));
    assert(spec_apply_chain(seq![e], a) == Some((b, Seq::<BoundV>::empty())));
    // The derived type is exactly the target.
    assert(ty_concrete(TyV::Named(b)));
    assert forall|i: int| 0 <= i < b.args.len() implies ty_concrete(#[trigger] b.args[i]) by {
    }
    lemma_unify_args_reflexive(b.args, tbl, infer, fuel);
    lemma_all_of_all_true(spec_unify_args(b.args, b.args, tbl, infer, fuel).0->Some_0);
    assert(spec_unify_named(b, b, tbl, infer, fuel) == (LogicV::True, tbl));
    assert forall|z: Seq<LogicV>| z.len() == 0 implies z + seq![LogicV::True] =~= seq![
        LogicV::True,
    ] by {
    }
    assert(drop_true(seq![LogicV::True]) =~= Seq::<LogicV>::empty()) by {
        reveal(Seq::filter);
        assert(seq![LogicV::True].drop_last() =~= Seq::<LogicV>::empty());
        lemma_drop_true_empty();
    }
    assert(all_of_v(seq![LogicV::True]) == LogicV::True);
    assert(chains.drop_first() =~= Seq::<Seq<ImplV>>::empty());
    assert(spec_extends_chains(Seq::<Seq<ImplV>>::empty(), a, b, tbl, infer, fuel) == (
        Seq::<LogicV>::empty(),
        tbl,
    ));
    assert(seq![LogicV::True] + Seq::<LogicV>::empty() =~= seq![LogicV::True]);
    assert(spec_extends_chains(chains, a, b, tbl, infer, fuel) == (seq![LogicV::True], tbl));
    // Reverse: no edge leaves the target's name.
    assert(forall|k: int| 0 <= k < impls.len() ==> (#[trigger] impls[k]).from.name != nb);
    lemma_extends_no_edge(b, a, impls, tbl, infer, fuel);
}

/// Generic propagation: one edge `[T] I[T] for C[T]` derives `I[x]` from
/// `C[x]` for any concrete argument `x`, and the query proves.
#[verifier::rlimit(60)]
pub proof fn lemma_extends_generic_propagation(
    c: Seq<char>,
    i_name: Seq<char>,
    g: Seq<char>,
    x: TyV,
    impls: Seq<ImplV>,
    tbl: Seq<TyV>,
    infer: bool,
    fuel: nat,
)
    requires
        c != i_name,
        ty_concrete(x),
        impls == seq![
            ImplV {
                args: seq![g],
                from: (NamedV { name: c, args: seq![TyV::Generic(g)] }),
                to: (NamedV { name: i_name, args: seq![TyV::Generic(g)] }),
                bounds: Seq::empty(),
            },
        ],
    ensures
        spec_extends(
            TyV::Named(NamedV { name: c, args: seq![x] }),
            TyV::Named(NamedV { name: i_name, args: seq![x] }),
            impls,
            tbl,
            infer,
            fuel,
        ) == (LogicV::True, tbl),
{
    let e = impls[0];
    let a = NamedV { name: c, args: seq![x] };
    let b = NamedV { name: i_name, args: seq![x] };
    let chains = spec_paths(c, i_name, impls, 2);
    assert(spec_paths(i_name, i_name, impls, 1) == seq![Seq::<ImplV>::empty()]);
    assert(spec_paths_scan(c, i_name, impls, 2, 1) =~= Seq::<Seq<ImplV>>::empty());
    assert(seq![Seq::<ImplV>::empty()].map_values(|p: Seq<ImplV>| seq![e] + p)[0] =~= seq![e]);
    assert(seq![Seq::<ImplV>::empty()].map_values(|p: Seq<ImplV>| seq![e] + p) =~= seq![seq![e]]);
    assert(seq![seq![e]] + Seq::<Seq<ImplV>>::empty() =~= seq![seq![e]]);
    assert(spec_paths_scan(c, i_name, impls, 2, 0) == seq![seq![e]]);
    assert(chains == seq![seq![e]]);
    // Matching `C[Generic g]` against `C[x]` binds the generic to `x`.
    let m = seq![(g, x)];
    assert(subst_lookup(Seq::<(Seq<char>, TyV)>::empty(), g) is None);
    assert(spec_imply(TyV::Generic(g), x, Seq::empty()) == (
        true,
        Seq::<(Seq<char>, TyV)>::empty().push((g, x)),
    ));
    assert(Seq::<(Seq<char>, TyV)>::empty().push((g, x)) =~= m);
    assert(e.from.args[0] == TyV::Generic(g));
    assert(a.args[0] == x);
    assert(e.from.args.drop_first() =~= Seq::<TyV>::empty());
    assert(a.args.drop_first() =~= Seq::<TyV>::empty());
    assert(spec_imply_seq(e.from.args, a.args, Seq::empty()) == (true, m));
    assert(spec_imply_named(e.from, a, Seq::empty()) == (true, m));
    // The bindings cover the target pattern, and substitute to `I[x]`.
    assert(subst_lookup(m, g) == Some(x));
    assert(ty_covered(TyV::Generic(g), m));
    assert forall|t: int| 0 <= t < e.to.args.len() implies ty_covered(#[trigger] e.to.args[t], m) by {
        assert(e.to.args[t] == TyV::Generic(g));
    }
    assert(ty_covered(TyV::Named(e.to), m));
    assert(spec_parameterise(TyV::Generic(g), m) == x);
    assert(spec_parameterise_seq(e.to.args.drop_first(), m) =~= Seq::<TyV>::empty());
    assert(spec_parameterise_seq(e.to.args, m) =~= seq![x]);
    assert(spec_parameterise_named(e.to, m) == b);
    assert(Seq::new(
        0,
        |t: int|
            BoundV {
                sub: spec_parameterise(e.bounds[t].sub, m),
                super_: spec_parameterise(e.bounds[t].super_, m),
            },
    ) =~= Seq::<BoundV>::empty());
    assert(spec_impl_map(e, a) == Some((b, Seq::<BoundV>::empty())));
    assert(seq![e].drop_first() =~= Seq::<ImplV>::empty());
    assert(Seq::<BoundV>::empty() + Seq::<BoundV>::empty() =~= Seq::<BoundV>::empty());
    assert(spec_apply_chain(Seq::<ImplV>::empty(), b) == Some((b, Seq::<BoundV>::empty())));
    assert(spec_apply_chain(seq![e], a) == Some((b, Seq::<BoundV>::empty())));
    // The derived type is exactly the queried target.
    assert forall|t: int| 0 <= t < b.args.len() implies ty_concrete(#[trigger] b.args[t]) by {
        assert(b.args[t] == x);
    }
    lemma_unify_args_reflexive(b.args, tbl, infer, fuel);
    lemma_all_of_all_true(spec_unify_args(b.args, b.args, tbl, infer, fuel).0->Some_0);
    assert(spec_unify_named(b, b, tbl, infer, fuel) == (LogicV::True, tbl));
    assert forall|z: Seq<LogicV>| z.len() == 0 implies z + seq![LogicV::True] =~= seq![
        LogicV::True,
    ] by {
    }
    assert(drop_true(seq![LogicV::True]) =~= Seq::<LogicV>::empty()) by {
        reveal(Seq::filter);
        assert(seq![LogicV::True].drop_last() =~= Seq::<LogicV>::empty());
        lemma_drop_true_empty();
    }
    assert(all_of_v(seq![LogicV::True]) == LogicV::True);
    assert(chains.drop_first() =~= Seq::<Seq<ImplV>>::empty());
    assert(spec_extends_chains(Seq::<Seq<ImplV>>::empty(), a, b, tbl, infer, fuel) == (
        Seq::<LogicV>::empty(),
        tbl,
    ));
    assert(seq![LogicV::True] + Seq::<LogicV>::empty() =~= seq![LogicV::True]);
    assert(spec_extends_chains(chains, a, b, tbl, infer, fuel) == (seq![LogicV::True], tbl));
}

/// No covariance: two same-named concrete types with different arguments
/// never stand in for one another, whatever edges the graph holds for other
/// names.
pub proof fn lemma_extends_same_name_distinct(
    a: NamedV,
    b: NamedV,
    impls: Seq<ImplV>,
    tbl: Seq<TyV>,
    infer: bool,
    fuel: nat,
    ds: Seq<DeclV>,
    n: nat,
)
    requires
        a.name == b.name,
        a != b,
        ty_concrete(TyV::Named(a)),
        ty_concrete(TyV::Named(b)),
        ty_ok(TyV::Named(a), ds, n),
        ty_ok(TyV::Named(b), ds, n),
    ensures
        spec_extends(TyV::Named(a), TyV::Named(b), impls, tbl, infer, fuel) == (LogicV::False, tbl),
{
    let chains = spec_paths(a.name, b.name, impls, (impls.len() + 1) as nat);
    lemma_paths_reflexive(a.name, impls, (impls.len() + 1) as nat);
    assert(spec_apply_chain(chains[0], a) == Some((a, Seq::<BoundV>::empty())));
    lemma_unify_concrete(TyV::Named(a), TyV::Named(b), tbl, infer, fuel, ds, n);
    assert(spec_unify_named(a, b, tbl, infer, fuel) == (LogicV::False, tbl));
    assert forall|z: Seq<LogicV>| z.len() == 0 implies z + seq![LogicV::False] =~= seq![
        LogicV::False,
    ] by {
    }
    lemma_all_of_single_false();
    assert(chains.drop_first() =~= Seq::<Seq<ImplV>>::empty());
    assert(spec_extends_chains(Seq::<Seq<ImplV>>::empty(), a, b, tbl, infer, fuel) == (
        Seq::<LogicV>::empty(),
        tbl,
    ));
    assert(seq![LogicV::False] + Seq::<LogicV>::empty() =~= seq![LogicV::False]);
    assert(spec_extends_chains(chains, a, b, tbl, infer, fuel) == (seq![LogicV::False], tbl));
}

// ---------------------------------------------------------------------------
// Resolution rewrites to a fixed point
// ---------------------------------------------------------------------------

/// A well-formed context's table can always be resolved through: every bound
/// entry carries only in-range variables.
pub proof fn lemma_wf_table_vars_ok(s: StateV)
    requires
        state_wf(s),
    ensures
        table_vars_ok(s.table),
{
    assert forall|i: int|
        0 <= i < s.table.len() implies (s.table[i] is Free || ty_vars_ok(
        #[trigger] s.table[i],
        s.table.len() as nat,
    )) by {
        if !(s.table[i] is Free) {
            crate::lemmas::lemma_ty_ok_vars_ok(s.table[i], s.decls, s.table.len() as nat);
        }
    }
}

/// A fully resolved type is a fixed point of resolution, under any budget.
pub proof fn lemma_resolve_fixpoint(t: TyV, tbl: Seq<TyV>, fuel: nat)
    requires
        ty_resolved(t, tbl),
    ensures
        spec_resolve(t, tbl, fuel) == t,
    decreases ty_size(t), 0nat,
{
    match t {
        TyV::Named(nm) => {
            assert forall|i: int| 0 <= i < nm.args.len() implies ty_resolved(
                #[trigger] nm.args[i],
                tbl,
            ) by {
            }
            lemma_resolve_fixpoint_seq(nm.args, tbl, fuel);
            assert(spec_resolve(t, tbl, fuel) == TyV::Named(
                NamedV { name: nm.name, args: spec_resolve_seq(nm.args, tbl, fuel) },
            ));
        },
        _ => {},
    }
}

pub proof fn lemma_resolve_fixpoint_seq(s: Seq<TyV>, tbl: Seq<TyV>, fuel: nat)
    requires
        forall|i: int| 0 <= i < s.len() ==> ty_resolved(#[trigger] s[i], tbl),
    ensures
        spec_resolve_seq(s, tbl, fuel) == s,
    decreases ty_size_seq(s), 1nat,
{
    lemma_resolve_seq(s, tbl, fuel);
    assert forall|i: int| 0 <= i < s.len() implies #[trigger] spec_resolve_seq(s, tbl, fuel)[i]
        == s[i] by {
        lemma_ty_size_seq_index(s, i);
        lemma_resolve_fixpoint(s[i], tbl, fuel);
    }
    assert(spec_resolve_seq(s, tbl, fuel) =~= s);
}

/// When the dereference budget suffices (no chase was cut off), the result
/// of resolution holds no bound variable: only unresolved variables remain,
/// as variables.
pub proof fn lemma_resolve_resolved(t: TyV, tbl: Seq<TyV>, fuel: nat)
    requires
        spec_resolve_done(t, tbl, fuel),
    ensures
        ty_resolved(spec_resolve(t, tbl, fuel), tbl),
    decreases fuel, ty_size(t), 0nat,
{
    match t {
        TyV::Named(nm) => {
            lemma_resolve_seq(nm.args, tbl, fuel);
            let out = spec_resolve(t, tbl, fuel)->Named_0;
            assert forall|i: int| 0 <= i < out.args.len() implies ty_resolved(
                #[trigger] out.args[i],
                tbl,
            ) by {
                assert(out.args[i] == spec_resolve(nm.args[i], tbl, fuel));
                assert(spec_resolve_done(nm.args[i], tbl, fuel));
                lemma_ty_size_seq_index(nm.args, i);
                lemma_resolve_resolved(nm.args[i], tbl, fuel);
            }
        },
        TyV::Var(id) => {
            if id < tbl.len() && !(tbl[id as int] is Free) {
                lemma_resolve_resolved(tbl[id as int], tbl, (fuel - 1) as nat);
            }
        },
        _ => {},
    }
}

/// Resolution is idempotent: once the budget sufficed, resolving the result
/// again (under any budget) returns it unchanged.
pub proof fn lemma_resolve_idempotent(t: TyV, tbl: Seq<TyV>, fuel1: nat, fuel2: nat)
    requires
        spec_resolve_done(t, tbl, fuel1),
    ensures
        spec_resolve(spec_resolve(t, tbl, fuel1), tbl, fuel2) == spec_resolve(t, tbl, fuel1),
{
    lemma_resolve_resolved(t, tbl, fuel1);
    lemma_resolve_fixpoint(spec_resolve(t, tbl, fuel1), tbl, fuel2);
}

// ---------------------------------------------------------------------------
// Instantiation allocates exactly the missing parameters
// ---------------------------------------------------------------------------

/// Instantiating a declaration with no explicit arguments allocates exactly
/// one fresh variable per declared parameter, and a declaration without
/// constraints records no obligation.
pub proof fn lemma_inst_fresh(nm: NamedV, d: DeclV, tbl: Seq<TyV>, bs: Seq<BoundV>)
    requires
        nm.args.len() == 0,
        d.bounds.len() == 0,
    ensures
        spec_inst_named(nm, d, tbl, bs).1.len() == tbl.len() + d.args.len(),
        spec_inst_named(nm, d, tbl, bs).2 == bs,
        spec_inst_named(nm, d, tbl, bs).0 == TyV::Named(
            NamedV {
                name: nm.name,
                args: Seq::new(d.args.len(), |k: int| TyV::Var((tbl.len() + k) as nat)),
            },
        ),
{
    let res = spec_inst_named(nm, d, tbl, bs);
    assert(bs + Seq::new(0, |i: int| BoundV { sub: d.bounds[i].sub, super_: d.bounds[i].super_ })
        =~= bs);
    assert(bs + Seq::new(
        d.bounds.len(),
        |i: int|
            BoundV {
                sub: spec_parameterise(
                    d.bounds[i].sub,
                    Seq::new(d.args.len(), |t: int| (d.args[t], res.0->Named_0.args[t])),
                ),
                super_: spec_parameterise(
                    d.bounds[i].sub,
                    Seq::new(d.args.len(), |t: int| (d.args[t], res.0->Named_0.args[t])),
                ),
            },
    ) =~= bs);
    assert(nm.args + Seq::new(d.args.len(), |k: int| TyV::Var((tbl.len() + k) as nat)) =~= Seq::new(
        d.args.len(),
        |k: int| TyV::Var((tbl.len() + k) as nat),
    ));
}

// ---------------------------------------------------------------------------
// Disjunctions collapse onto their only live branch
// ---------------------------------------------------------------------------

/// Reducing a boolean constant returns that same constant and touches
/// nothing.
pub proof fn lemma_reduce_constant(l: LogicV, impls: Seq<ImplV>, tbl: Seq<TyV>, infer: bool, fuel: nat)
    requires
        l is True || l is False,
    ensures
        spec_reduce(l, impls, tbl, infer, fuel) == (l, tbl),
{
}

/// A disjunction whose branches are all refuted is refuted.
pub proof fn lemma_reduce_oneof_all_false(impls: Seq<ImplV>, tbl: Seq<TyV>, infer: bool, fuel: nat)
    ensures
        spec_reduce(LogicV::OneOf(seq![LogicV::False, LogicV::False]), impls, tbl, infer, fuel) == (
            LogicV::False,
            tbl,
        ),
{
    let items = seq![LogicV::False, LogicV::False];
    reveal_with_fuel(spec_reduce_seq, 3);
    assert(items.drop_first() =~= seq![LogicV::False]);
    assert(items.drop_first().drop_first() =~= Seq::<LogicV>::empty());
    let rs = spec_reduce_seq(items, impls, tbl, false, fuel);
    assert(rs.0 =~= seq![LogicV::False, LogicV::False]);
    lemma_count_false_two(rs.0);
}

pub proof fn lemma_count_false_two(s: Seq<LogicV>)
    requires
        s == seq![LogicV::False, LogicV::False],
    ensures
        count_false(s) == 2,
{
    assert(s.drop_last() =~= seq![LogicV::False]);
    assert(s.drop_last().drop_last() =~= Seq::<LogicV>::empty());
    assert(count_false(s.drop_last().drop_last()) == 0);
    assert(count_false(s.drop_last()) == 1);
}

/// A disjunction in which every branch but one is already refuted reduces to
/// that branch's own reduction, explored without inference, and the table is
/// untouched.
pub proof fn lemma_reduce_oneof_forced(
    x: LogicV,
    impls: Seq<ImplV>,
    tbl: Seq<TyV>,
    infer: bool,
    fuel: nat,
)
    ensures
        spec_reduce(LogicV::OneOf(seq![LogicV::False, LogicV::False, x]), impls, tbl, infer, fuel)
            == (spec_reduce(x, impls, tbl, false, fuel).0, tbl),
{
    let items = seq![LogicV::False, LogicV::False, x];
    reveal_with_fuel(spec_reduce_seq, 4);
    assert(items.drop_first() =~= seq![LogicV::False, x]);
    assert(items.drop_first().drop_first() =~= seq![x]);
    assert(items.drop_first().drop_first().drop_first() =~= Seq::<LogicV>::empty());
    lemma_reduce_no_infer(x, impls, tbl, fuel);
    let rx = spec_reduce(x, impls, tbl, false, fuel).0;
    let rs = spec_reduce_seq(items, impls, tbl, false, fuel);
    assert(seq![rx] + Seq::<LogicV>::empty() =~= seq![rx]);
    assert(rs.0 =~= seq![LogicV::False, LogicV::False, rx]);
    assert(rs.1 == tbl);
    lemma_count_false_three(rs.0, rx);
    if rx is False {
        assert(count_false(rs.0) == 3);
        assert(spec_reduce(LogicV::OneOf(items), impls, tbl, infer, fuel).0 == LogicV::False);
    } else {
        assert(count_false(rs.0) == 2);
        assert(first_non_false(rs.0) == rx) by {
            assert(rs.0.drop_first() =~= seq![LogicV::False, rx]);
            assert(seq![LogicV::False, rx].drop_first() =~= seq![rx]);
            assert(first_non_false(seq![rx]) == rx);
            assert(first_non_false(seq![LogicV::False, rx]) == rx);
        }
    }
}

pub proof fn lemma_count_false_three(s: Seq<LogicV>, x: LogicV)
    requires
        s == seq![LogicV::False, LogicV::False, x],
    ensures
        count_false(s) == 2 + (if x is False {
            1nat
        } else {
            0nat
        }),
{
    assert(s.drop_last() =~= seq![LogicV::False, LogicV::False]);
    lemma_count_false_two(s.drop_last());
    assert(s.last() == x);
}

} // verus!
