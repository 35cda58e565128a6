//! Mathematical model of the engine.
//!
//! Every executable type of the crate has a view into the datatypes below
//! (names become `Seq<char>`, vectors become `Seq`), and every executable
//! operation of the engine is specified as equal to one of the spec
//! functions below, which state the algorithm over those views.

use vstd::prelude::*;

verus! {

/// View of a named type: a declared name applied to positional arguments.
pub struct NamedV {
    pub name: Seq<char>,
    pub args: Seq<TyV>,
}

/// View of a type term.
pub enum TyV {
    Named(NamedV),
    Generic(Seq<char>),
    Var(nat),
    Free,
}

/// View of a subtyping assertion `sub : super_`.
pub struct BoundV {
    pub sub: TyV,
    pub super_: TyV,
}

/// View of a declaration: a name, its generic parameters, its constraints.
pub struct DeclV {
    pub name: Seq<char>,
    pub args: Seq<Seq<char>>,
    pub bounds: Seq<BoundV>,
}

/// View of an implementation edge: `from` may stand in for `to`.
pub struct ImplV {
    pub args: Seq<Seq<char>>,
    pub from: NamedV,
    pub to: NamedV,
    pub bounds: Seq<BoundV>,
}

/// View of an atomic proof obligation.
pub enum StmtV {
    Exactly { ty: TyV, is: TyV },
    Extends { sub: TyV, super_: TyV },
    HasMember { ty: TyV, member: Seq<char>, member_ty: TyV },
}

/// View of a logic formula.
pub enum LogicV {
    OneOf(Seq<LogicV>),
    AllOf(Seq<LogicV>),
    Stmt(StmtV),
    True,
    False,
}

/// View of the whole mutable context.
pub struct StateV {
    pub counter: nat,
    pub decls: Seq<DeclV>,
    pub bounds: Seq<BoundV>,
    pub impls: Seq<ImplV>,
    pub table: Seq<TyV>,
    pub generics: Seq<Seq<char>>,
    pub goal: LogicV,
}

// ---------------------------------------------------------------------------
// Sizes (termination measures)
// ---------------------------------------------------------------------------

pub open spec fn ty_size(t: TyV) -> nat
    decreases t,
{
    match t {
        TyV::Named(nm) => 1 + ty_size_seq(nm.args),
        _ => 1,
    }
}

pub open spec fn ty_size_seq(s: Seq<TyV>) -> nat
    decreases s,
{
    if s.len() == 0 {
        0
    } else {
        ty_size(s[0]) + ty_size_seq(s.drop_first())
    }
}

/// A member of a list weighs no more than the whole list.
pub proof fn lemma_ty_size_seq_index(s: Seq<TyV>, i: int)
    requires
        0 <= i < s.len(),
    ensures
        ty_size(s[i]) <= ty_size_seq(s),
    decreases s.len(),
{
    if i > 0 {
        lemma_ty_size_seq_index(s.drop_first(), i - 1);
        assert(s.drop_first()[i - 1] == s[i]);
    }
}

pub open spec fn logic_size(l: LogicV) -> nat
    decreases l,
{
    match l {
        LogicV::OneOf(items) => 1 + logic_size_seq(items),
        LogicV::AllOf(items) => 1 + logic_size_seq(items),
        _ => 1,
    }
}

pub open spec fn logic_size_seq(s: Seq<LogicV>) -> nat
    decreases s,
{
    if s.len() == 0 {
        0
    } else {
        logic_size(s[0]) + logic_size_seq(s.drop_first())
    }
}

// ---------------------------------------------------------------------------
// Well-formedness
// ---------------------------------------------------------------------------

/// The declaration stored under `name`, if any (first match).
pub open spec fn find_decl(ds: Seq<DeclV>, name: Seq<char>) -> Option<DeclV>
    decreases ds,
{
    if ds.len() == 0 {
        None
    } else if ds[0].name == name {
        Some(ds[0])
    } else {
        find_decl(ds.drop_first(), name)
    }
}

/// A type the engine may operate on: every named node is declared with the
/// right arity, every variable index is in range, and the unresolved marker
/// never occurs inside a type.
pub open spec fn ty_ok(t: TyV, ds: Seq<DeclV>, n: nat) -> bool
    decreases t,
{
    match t {
        TyV::Named(nm) => {
            &&& match find_decl(ds, nm.name) {
                Some(d) => nm.args.len() == d.args.len(),
                None => false,
            }
            &&& forall|i: int| 0 <= i < nm.args.len() ==> ty_ok(#[trigger] nm.args[i], ds, n)
        },
        TyV::Generic(_) => true,
        TyV::Var(id) => id < n,
        TyV::Free => false,
    }
}

/// Variable indices in range and no unresolved marker: the precondition of
/// `resolve`, which needs no declarations.
pub open spec fn ty_vars_ok(t: TyV, n: nat) -> bool
    decreases t,
{
    match t {
        TyV::Named(nm) => forall|i: int| 0 <= i < nm.args.len() ==> ty_vars_ok(#[trigger] nm.args[i], n),
        TyV::Generic(_) => true,
        TyV::Var(id) => id < n,
        TyV::Free => false,
    }
}

/// A variable-free, generic-free type.
pub open spec fn ty_concrete(t: TyV) -> bool
    decreases t,
{
    match t {
        TyV::Named(nm) => forall|i: int| 0 <= i < nm.args.len() ==> ty_concrete(#[trigger] nm.args[i]),
        _ => false,
    }
}

/// Every generic name occurring in `t` lies in `gs` (scoping of declaration
/// and implementation constraints).
pub open spec fn ty_scoped(t: TyV, gs: Seq<Seq<char>>) -> bool
    decreases t,
{
    match t {
        TyV::Named(nm) => forall|i: int| 0 <= i < nm.args.len() ==> ty_scoped(#[trigger] nm.args[i], gs),
        TyV::Generic(g) => gs.contains(g),
        TyV::Var(_) => true,
        TyV::Free => false,
    }
}

pub open spec fn bound_ok(b: BoundV, ds: Seq<DeclV>, n: nat) -> bool {
    ty_ok(b.sub, ds, n) && ty_ok(b.super_, ds, n)
}

/// A declaration entry: distinct parameter names, and constraints that are
/// well formed and mention only the declaration's own parameters.
pub open spec fn decl_ok(d: DeclV, ds: Seq<DeclV>, n: nat) -> bool {
    &&& forall|i: int, j: int| 0 <= i < j < d.args.len() ==> d.args[i] != d.args[j]
    &&& forall|i: int|
        0 <= i < d.bounds.len() ==> bound_ok(#[trigger] d.bounds[i], ds, n) && ty_scoped(
            d.bounds[i].sub,
            d.args,
        ) && ty_scoped(d.bounds[i].super_, d.args)
}

/// An implementation edge: both patterns and all constraints are well formed.
pub open spec fn impl_ok(im: ImplV, ds: Seq<DeclV>, n: nat) -> bool {
    &&& ty_ok(TyV::Named(im.from), ds, n)
    &&& ty_ok(TyV::Named(im.to), ds, n)
    &&& forall|i: int| 0 <= i < im.bounds.len() ==> bound_ok(#[trigger] im.bounds[i], ds, n)
}

/// A formula the engine may reduce: all operand types are well formed and the
/// unimplemented member obligation never occurs.
pub open spec fn stmt_ok(s: StmtV, ds: Seq<DeclV>, n: nat) -> bool {
    match s {
        StmtV::Exactly { ty, is } => ty_ok(ty, ds, n) && ty_ok(is, ds, n),
        StmtV::Extends { sub, super_ } => ty_ok(sub, ds, n) && ty_ok(super_, ds, n),
        StmtV::HasMember { .. } => false,
    }
}

pub open spec fn logic_ok(l: LogicV, ds: Seq<DeclV>, n: nat) -> bool
    decreases l,
{
    match l {
        LogicV::OneOf(items) => forall|i: int| 0 <= i < items.len() ==> logic_ok(#[trigger] items[i], ds, n),
        LogicV::AllOf(items) => forall|i: int| 0 <= i < items.len() ==> logic_ok(#[trigger] items[i], ds, n),
        LogicV::Stmt(s) => stmt_ok(s, ds, n),
        LogicV::True => true,
        LogicV::False => true,
    }
}

/// Invariant of the whole context.
pub open spec fn state_wf(s: StateV) -> bool {
    &&& s.counter == s.table.len()
    &&& forall|i: int|
        0 <= i < s.table.len() ==> (s.table[i] is Free || ty_ok(
            #[trigger] s.table[i],
            s.decls,
            s.table.len() as nat,
        ))
    &&& forall|i: int, j: int| 0 <= i < j < s.decls.len() ==> s.decls[i].name != s.decls[j].name
    &&& forall|i: int| 0 <= i < s.decls.len() ==> decl_ok(#[trigger] s.decls[i], s.decls, s.table.len() as nat)
    &&& forall|i: int| 0 <= i < s.impls.len() ==> impl_ok(#[trigger] s.impls[i], s.decls, s.table.len() as nat)
    &&& logic_ok(s.goal, s.decls, s.table.len() as nat)
}

/// Every table entry is either unresolved or a well-formed type.
pub open spec fn table_ok(tbl: Seq<TyV>, ds: Seq<DeclV>) -> bool {
    forall|i: int| 0 <= i < tbl.len() ==> (tbl[i] is Free || ty_ok(#[trigger] tbl[i], ds, tbl.len() as nat))
}

/// `ds2` maps every name that `ds1` maps, to the same declaration.
pub open spec fn decls_extend(ds1: Seq<DeclV>, ds2: Seq<DeclV>) -> bool {
    forall|nm: Seq<char>| #[trigger] find_decl(ds1, nm) is Some ==> find_decl(ds2, nm) == find_decl(ds1, nm)
}

/// Every binding value in a substitution map is a well-formed type.
pub open spec fn subst_values_ok(m: Seq<(Seq<char>, TyV)>, ds: Seq<DeclV>, n: nat) -> bool {
    forall|i: int| 0 <= i < m.len() ==> ty_ok((#[trigger] m[i]).1, ds, n)
}

/// Single assignment: the new table binds what the old one bound, to the same
/// value, and has the same length.
pub open spec fn table_advances(t1: Seq<TyV>, t2: Seq<TyV>) -> bool {
    &&& t2.len() == t1.len()
    &&& forall|i: int| 0 <= i < t1.len() && !(t1[i] is Free) ==> t2[i] == #[trigger] t1[i]
}

/// What parsing a type may change of the context: only fresh, still
/// unresolved variables are allocated.
pub open spec fn state_allocs_only(s1: StateV, s2: StateV) -> bool {
    &&& s2.decls == s1.decls
    &&& s2.bounds == s1.bounds
    &&& s2.impls == s1.impls
    &&& s2.generics == s1.generics
    &&& s2.goal == s1.goal
    &&& s2.counter == s2.table.len()
    &&& s1.table.len() <= s2.table.len()
    &&& forall|i: int| 0 <= i < s1.table.len() ==> s2.table[i] == #[trigger] s1.table[i]
    &&& forall|i: int| s1.table.len() <= i < s2.table.len() ==> #[trigger] s2.table[i] is Free
}

/// What unification and reduction may change of the context: only the
/// variable table, and only by binding unresolved entries.
pub open spec fn frame_table_only(s1: StateV, s2: StateV) -> bool {
    &&& s2.counter == s1.counter
    &&& s2.decls == s1.decls
    &&& s2.bounds == s1.bounds
    &&& s2.impls == s1.impls
    &&& s2.generics == s1.generics
    &&& s2.goal == s1.goal
    &&& table_advances(s1.table, s2.table)
}

// ---------------------------------------------------------------------------
// Substitution (parameterise) and resolution
// ---------------------------------------------------------------------------

/// First binding of `name` in an association list of generic-parameter
/// bindings.
pub open spec fn subst_lookup(m: Seq<(Seq<char>, TyV)>, name: Seq<char>) -> Option<TyV>
    decreases m,
{
    if m.len() == 0 {
        None
    } else if m[0].0 == name {
        Some(m[0].1)
    } else {
        subst_lookup(m.drop_first(), name)
    }
}

/// The substitution map covers every generic of `t`, and `t` carries no
/// unresolved marker: the precondition of `parameterise`.
pub open spec fn ty_covered(t: TyV, m: Seq<(Seq<char>, TyV)>) -> bool
    decreases t,
{
    match t {
        TyV::Named(nm) => forall|i: int| 0 <= i < nm.args.len() ==> ty_covered(#[trigger] nm.args[i], m),
        TyV::Generic(g) => subst_lookup(m, g) is Some,
        TyV::Var(_) => true,
        TyV::Free => false,
    }
}

/// Structural rewrite replacing every generic with its binding.
pub open spec fn spec_parameterise(t: TyV, m: Seq<(Seq<char>, TyV)>) -> TyV
    decreases t,
{
    match t {
        TyV::Named(nm) => TyV::Named(spec_parameterise_named(nm, m)),
        TyV::Generic(g) => match subst_lookup(m, g) {
            Some(v) => v,
            None => TyV::Generic(g),
        },
        TyV::Var(id) => TyV::Var(id),
        TyV::Free => TyV::Free,
    }
}

pub open spec fn spec_parameterise_named(nm: NamedV, m: Seq<(Seq<char>, TyV)>) -> NamedV
    decreases nm,
{
    NamedV { name: nm.name, args: spec_parameterise_seq(nm.args, m) }
}

pub open spec fn spec_parameterise_seq(s: Seq<TyV>, m: Seq<(Seq<char>, TyV)>) -> Seq<TyV>
    decreases s,
{
    if s.len() == 0 {
        Seq::empty()
    } else {
        seq![spec_parameterise(s[0], m)] + spec_parameterise_seq(s.drop_first(), m)
    }
}

pub proof fn lemma_parameterise_seq(s: Seq<TyV>, m: Seq<(Seq<char>, TyV)>)
    ensures
        spec_parameterise_seq(s, m).len() == s.len(),
        forall|i: int|
            0 <= i < s.len() ==> #[trigger] spec_parameterise_seq(s, m)[i] == spec_parameterise(
                s[i],
                m,
            ),
    decreases s.len(),
{
    if s.len() > 0 {
        lemma_parameterise_seq(s.drop_first(), m);
        assert forall|i: int| 0 <= i < s.len() implies #[trigger] spec_parameterise_seq(s, m)[i]
            == spec_parameterise(s[i], m) by {
            if i > 0 {
                assert(s.drop_first()[i - 1] == s[i]);
                assert(spec_parameterise_seq(s.drop_first(), m)[i - 1] == spec_parameterise(
                    s.drop_first()[i - 1],
                    m,
                ));
            }
        }
    }
}

/// Structural rewrite replacing every bound variable with its binding,
/// recursively, until only unresolved variables remain as variables. The
/// budget bounds the variable dereferences taken; an exhausted budget leaves
/// the variable as it stands (it guards against a cyclic chain of bindings,
/// which a table built without an occurs check can hold).
pub open spec fn spec_resolve(t: TyV, tbl: Seq<TyV>, fuel: nat) -> TyV
    decreases fuel, ty_size(t), 0nat,
{
    match t {
        TyV::Named(nm) => TyV::Named(
            NamedV { name: nm.name, args: spec_resolve_seq(nm.args, tbl, fuel) },
        ),
        TyV::Var(id) => if id < tbl.len() && !(tbl[id as int] is Free) && fuel > 0 {
            spec_resolve(tbl[id as int], tbl, (fuel - 1) as nat)
        } else {
            t
        },
        _ => t,
    }
}

pub open spec fn spec_resolve_seq(s: Seq<TyV>, tbl: Seq<TyV>, fuel: nat) -> Seq<TyV>
    decreases fuel, ty_size_seq(s), s.len() + 1,
{
    if s.len() == 0 {
        Seq::empty()
    } else {
        seq![spec_resolve(s[0], tbl, fuel)] + spec_resolve_seq(s.drop_first(), tbl, fuel)
    }
}

/// Whether the budget sufficed: no dereference was cut off anywhere in the
/// rewrite.
pub open spec fn spec_resolve_done(t: TyV, tbl: Seq<TyV>, fuel: nat) -> bool
    decreases fuel, ty_size(t), 0nat,
{
    match t {
        TyV::Named(nm) => spec_resolve_done_seq(nm.args, tbl, fuel),
        TyV::Var(id) => if id < tbl.len() && !(tbl[id as int] is Free) {
            fuel > 0 && spec_resolve_done(tbl[id as int], tbl, (fuel - 1) as nat)
        } else {
            true
        },
        _ => true,
    }
}

pub open spec fn spec_resolve_done_seq(s: Seq<TyV>, tbl: Seq<TyV>, fuel: nat) -> bool
    decreases fuel, ty_size_seq(s), s.len() + 1,
{
    if s.len() == 0 {
        true
    } else {
        spec_resolve_done(s[0], tbl, fuel) && spec_resolve_done_seq(s.drop_first(), tbl, fuel)
    }
}

/// A fully resolved type: no variable in it is bound by the table.
pub open spec fn ty_resolved(t: TyV, tbl: Seq<TyV>) -> bool
    decreases t,
{
    match t {
        TyV::Named(nm) => forall|i: int| 0 <= i < nm.args.len() ==> ty_resolved(#[trigger] nm.args[i], tbl),
        TyV::Var(id) => !(id < tbl.len() && !(tbl[id as int] is Free)),
        _ => true,
    }
}

/// Every table entry is either unresolved or carries only in-range
/// variables: what resolution needs of the table.
pub open spec fn table_vars_ok(tbl: Seq<TyV>) -> bool {
    forall|i: int|
        0 <= i < tbl.len() ==> (tbl[i] is Free || ty_vars_ok(#[trigger] tbl[i], tbl.len() as nat))
}

pub proof fn lemma_resolve_seq(s: Seq<TyV>, tbl: Seq<TyV>, fuel: nat)
    ensures
        spec_resolve_seq(s, tbl, fuel).len() == s.len(),
        forall|i: int|
            0 <= i < s.len() ==> #[trigger] spec_resolve_seq(s, tbl, fuel)[i] == spec_resolve(
                s[i],
                tbl,
                fuel,
            ),
        spec_resolve_done_seq(s, tbl, fuel) <==> (forall|i: int|
            0 <= i < s.len() ==> spec_resolve_done(#[trigger] s[i], tbl, fuel)),
    decreases s.len(),
{
    if s.len() > 0 {
        lemma_resolve_seq(s.drop_first(), tbl, fuel);
        assert forall|i: int| 0 <= i < s.len() implies #[trigger] spec_resolve_seq(s, tbl, fuel)[i]
            == spec_resolve(s[i], tbl, fuel) by {
            if i > 0 {
                assert(s.drop_first()[i - 1] == s[i]);
                assert(spec_resolve_seq(s.drop_first(), tbl, fuel)[i - 1] == spec_resolve(
                    s.drop_first()[i - 1],
                    tbl,
                    fuel,
                ));
            }
        }
        if spec_resolve_done_seq(s, tbl, fuel) {
            assert forall|i: int| 0 <= i < s.len() implies spec_resolve_done(
                #[trigger] s[i],
                tbl,
                fuel,
            ) by {
                if i > 0 {
                    assert(s.drop_first()[i - 1] == s[i]);
                }
            }
        }
        if forall|i: int| 0 <= i < s.len() ==> spec_resolve_done(#[trigger] s[i], tbl, fuel) {
            assert forall|i: int| 0 <= i < s.drop_first().len() implies spec_resolve_done(
                #[trigger] s.drop_first()[i],
                tbl,
                fuel,
            ) by {
                assert(s.drop_first()[i] == s[i + 1]);
            }
        }
    }
}

/// Follow top-level variable indirections through the table, up to `fuel`
/// steps.
pub open spec fn chase(t: TyV, tbl: Seq<TyV>, fuel: nat) -> TyV
    decreases fuel,
{
    match t {
        TyV::Var(id) => if id < tbl.len() && !(tbl[id as int] is Free) && fuel > 0 {
            chase(tbl[id as int], tbl, (fuel - 1) as nat)
        } else {
            t
        },
        _ => t,
    }
}

// ---------------------------------------------------------------------------
// Pattern matching a concrete type against an implementation pattern
// ---------------------------------------------------------------------------

/// One-directional structural match: generics in the pattern bind to the
/// sub-term in that position, consistently across repeated occurrences.
/// Returns the success flag and the (possibly partially extended) bindings.
pub open spec fn spec_imply(pat: TyV, target: TyV, m: Seq<(Seq<char>, TyV)>) -> (bool, Seq<
    (Seq<char>, TyV),
>)
    decreases pat, 1nat,
{
    match pat {
        TyV::Named(p) => match target {
            TyV::Named(f) => spec_imply_named(p, f, m),
            _ => (pat == target, m),
        },
        TyV::Generic(g) => match subst_lookup(m, g) {
            Some(existing) => (existing == target, m),
            None => (true, m.push((g, target))),
        },
        _ => (pat == target, m),
    }
}

pub open spec fn spec_imply_named(p: NamedV, f: NamedV, m: Seq<(Seq<char>, TyV)>) -> (bool, Seq<
    (Seq<char>, TyV),
>)
    decreases p, 0nat,
{
    if p.name != f.name || p.args.len() != f.args.len() {
        (false, m)
    } else {
        spec_imply_seq(p.args, f.args, m)
    }
}

pub open spec fn spec_imply_seq(ps: Seq<TyV>, fs: Seq<TyV>, m: Seq<(Seq<char>, TyV)>) -> (bool, Seq<
    (Seq<char>, TyV),
>)
    decreases ps, 2nat,
{
    if ps.len() == 0 || fs.len() == 0 {
        (true, m)
    } else {
        let r0 = spec_imply(ps[0], fs[0], m);
        if !r0.0 {
            (false, r0.1)
        } else {
            spec_imply_seq(ps.drop_first(), fs.drop_first(), r0.1)
        }
    }
}

/// What one implementation edge does to a concrete named type: infer the
/// edge's generic bindings from the `from` pattern, and, when the bindings
/// cover the `to` pattern and the edge's constraints, substitute them.
pub open spec fn spec_impl_map(im: ImplV, ty: NamedV) -> Option<(NamedV, Seq<BoundV>)> {
    let r = spec_imply_named(im.from, ty, Seq::empty());
    if r.0 && ty_covered(TyV::Named(im.to), r.1) && (forall|i: int|
        0 <= i < im.bounds.len() ==> ty_covered((#[trigger] im.bounds[i]).sub, r.1) && ty_covered(
            im.bounds[i].super_,
            r.1,
        )) {
        Some(
            (
                spec_parameterise_named(im.to, r.1),
                Seq::new(
                    im.bounds.len(),
                    |i: int|
                        BoundV {
                            sub: spec_parameterise(im.bounds[i].sub, r.1),
                            super_: spec_parameterise(im.bounds[i].super_, r.1),
                        },
                ),
            ),
        )
    } else {
        None
    }
}

// ---------------------------------------------------------------------------
// Path search through the implementation graph
// ---------------------------------------------------------------------------

/// Every chain of implementation edges from `from` to `to` whose length is
/// below `fuel`, in depth-first order. The identity derivation is the single
/// empty chain.
pub open spec fn spec_paths(from: Seq<char>, to: Seq<char>, impls: Seq<ImplV>, fuel: nat) -> Seq<
    Seq<ImplV>,
>
    decreases fuel, impls.len() + 1,
{
    if from == to {
        seq![Seq::empty()]
    } else if fuel == 0 {
        Seq::empty()
    } else {
        spec_paths_scan(from, to, impls, fuel, 0)
    }
}

/// Contributions of the edges `impls[k..]` to the path search.
pub open spec fn spec_paths_scan(
    from: Seq<char>,
    to: Seq<char>,
    impls: Seq<ImplV>,
    fuel: nat,
    k: int,
) -> Seq<Seq<ImplV>>
    decreases fuel, impls.len() - k,
{
    if k < 0 || k >= impls.len() || fuel == 0 {
        Seq::empty()
    } else {
        let head: Seq<Seq<ImplV>> = if impls[k].from.name == from {
            spec_paths(impls[k].to.name, to, impls, (fuel - 1) as nat).map_values(
                |p: Seq<ImplV>| seq![impls[k]] + p,
            )
        } else {
            Seq::empty()
        };
        head + spec_paths_scan(from, to, impls, fuel, k + 1)
    }
}

/// Walk a chain hop by hop from a concrete type, collecting the residual
/// constraints of every hop. `None` when some hop's pattern match fails.
pub open spec fn spec_apply_chain(chain: Seq<ImplV>, ty: NamedV) -> Option<(NamedV, Seq<BoundV>)>
    decreases chain,
{
    if chain.len() == 0 {
        Some((ty, Seq::empty()))
    } else {
        match spec_impl_map(chain[0], ty) {
            None => None,
            Some((ty2, bs)) => match spec_apply_chain(chain.drop_first(), ty2) {
                None => None,
                Some((tyf, rest)) => Some((tyf, bs + rest)),
            },
        }
    }
}

// ---------------------------------------------------------------------------
// Normalising constructors for formulas
// ---------------------------------------------------------------------------

/// The members of a list that are not the constant `True`.
pub open spec fn drop_true(items: Seq<LogicV>) -> Seq<LogicV> {
    items.filter(|l: LogicV| !(l is True))
}

/// Conjunction: `True` children are dropped, any `False` child collapses the
/// whole, empty and singleton lists collapse to their identity.
pub open spec fn all_of_v(items: Seq<LogicV>) -> LogicV {
    let kept = drop_true(items);
    if kept.contains(LogicV::False) {
        LogicV::False
    } else if kept.len() == 0 {
        LogicV::True
    } else if kept.len() == 1 {
        kept[0]
    } else {
        LogicV::AllOf(kept)
    }
}

/// Disjunction of derivation alternatives: none means refuted, a single one
/// stands by itself.
pub open spec fn one_of_v(items: Seq<LogicV>) -> LogicV {
    if items.len() == 0 {
        LogicV::False
    } else if items.len() == 1 {
        items[0]
    } else {
        LogicV::OneOf(items)
    }
}

// ---------------------------------------------------------------------------
// Unification
// ---------------------------------------------------------------------------

/// Depth budget for dereferencing variables during unification and
/// reduction; it guards against regress through a table that was built
/// without an occurs check.
pub const DEREF_FUEL: u64 = 4096;

/// Unification of two types against a variable table.
///
/// An unresolved variable on either side is bound to the other side when
/// `infer` is set, and otherwise yields a residual equality obligation and
/// no mutation. Bound variables are dereferenced (spending `fuel`; an
/// exhausted budget defers). Named types match by name and argument list;
/// generics match by name; every other combination is refuted.
pub open spec fn spec_unify(a: TyV, b: TyV, tbl: Seq<TyV>, infer: bool, fuel: nat) -> (
    LogicV,
    Seq<TyV>,
)
    decreases fuel, ty_size(a) + ty_size(b), 1nat,
{
    if b is Var {
        let j = b->Var_0;
        if j < tbl.len() {
            if tbl[j as int] is Free {
                if a == b {
                    (LogicV::True, tbl)
                } else if infer {
                    (LogicV::True, tbl.update(j as int, a))
                } else {
                    (LogicV::Stmt(StmtV::Exactly { ty: a, is: b }), tbl)
                }
            } else if fuel > 0 {
                spec_unify(a, tbl[j as int], tbl, infer, (fuel - 1) as nat)
            } else {
                (LogicV::Stmt(StmtV::Exactly { ty: a, is: b }), tbl)
            }
        } else {
            (LogicV::False, tbl)
        }
    } else if a is Var {
        let i = a->Var_0;
        if i < tbl.len() {
            if tbl[i as int] is Free {
                if infer {
                    (LogicV::True, tbl.update(i as int, b))
                } else {
                    (LogicV::Stmt(StmtV::Exactly { ty: a, is: b }), tbl)
                }
            } else if fuel > 0 {
                spec_unify(tbl[i as int], b, tbl, infer, (fuel - 1) as nat)
            } else {
                (LogicV::Stmt(StmtV::Exactly { ty: a, is: b }), tbl)
            }
        } else {
            (LogicV::False, tbl)
        }
    } else {
        match a {
            TyV::Named(an) => match b {
                TyV::Named(bn) => if an.name != bn.name {
                    (LogicV::False, tbl)
                } else {
                    let r = spec_unify_args(an.args, bn.args, tbl, infer, fuel);
                    (
                        match r.0 {
                            None => LogicV::False,
                            Some(items) => all_of_v(items),
                        },
                        r.1,
                    )
                },
                _ => (LogicV::False, tbl),
            },
            TyV::Generic(g1) => match b {
                TyV::Generic(g2) => if g1 == g2 {
                    (LogicV::True, tbl)
                } else {
                    (LogicV::False, tbl)
                },
                _ => (LogicV::False, tbl),
            },
            _ => (LogicV::False, tbl),
        }
    }
}

/// How one sub-result joins a collected conjunction: a nested conjunction is
/// spliced in, anything else stands as one member.
pub open spec fn splice_item(l: LogicV) -> Seq<LogicV> {
    match l {
        LogicV::AllOf(xs) => xs,
        _ => seq![l],
    }
}

/// Pairwise unification of argument lists, threading the table left to
/// right. `None` reports a refuted pair (the walk stops there, as the
/// engine's does); otherwise the collected sub-results, with conjunctions
/// spliced in and nothing else filtered.
pub open spec fn spec_unify_args(aa: Seq<TyV>, bb: Seq<TyV>, tbl: Seq<TyV>, infer: bool, fuel: nat) -> (
    Option<Seq<LogicV>>,
    Seq<TyV>,
)
    decreases fuel, ty_size_seq(aa) + ty_size_seq(bb), aa.len() + 2,
{
    if aa.len() == 0 || bb.len() == 0 {
        (Some(Seq::empty()), tbl)
    } else {
        let r0 = spec_unify(aa[0], bb[0], tbl, infer, fuel);
        if r0.0 is False {
            (None, r0.1)
        } else {
            let items0: Seq<LogicV> = splice_item(r0.0);
            let rest = spec_unify_args(aa.drop_first(), bb.drop_first(), r0.1, infer, fuel);
            (
                match rest.0 {
                    None => None,
                    Some(items) => Some(items0 + items),
                },
                rest.1,
            )
        }
    }
}

/// Unification of two named types: what `spec_unify` does once both sides
/// are named.
pub open spec fn spec_unify_named(a: NamedV, b: NamedV, tbl: Seq<TyV>, infer: bool, fuel: nat) -> (
    LogicV,
    Seq<TyV>,
) {
    if a.name != b.name {
        (LogicV::False, tbl)
    } else {
        let r = spec_unify_args(a.args, b.args, tbl, infer, fuel);
        (
            match r.0 {
                None => LogicV::False,
                Some(items) => all_of_v(items),
            },
            r.1,
        )
    }
}

// ---------------------------------------------------------------------------
// Subtyping
// ---------------------------------------------------------------------------

/// Per-chain outcomes of a subtyping query: each applicable chain yields the
/// conjunction of its residual constraints and the equality of its derived
/// type with the target; chains whose pattern match fails yield nothing.
/// The table threads left to right.
pub open spec fn spec_extends_chains(
    chains: Seq<Seq<ImplV>>,
    this: NamedV,
    other: NamedV,
    tbl: Seq<TyV>,
    infer: bool,
    fuel: nat,
) -> (Seq<LogicV>, Seq<TyV>)
    decreases chains,
{
    if chains.len() == 0 {
        (Seq::empty(), tbl)
    } else {
        match spec_apply_chain(chains[0], this) {
            None => spec_extends_chains(chains.drop_first(), this, other, tbl, infer, fuel),
            Some((derived, bs)) => {
                let r = spec_unify_named(derived, other, tbl, infer, fuel);
                let item = all_of_v(
                    Seq::new(
                        bs.len(),
                        |i: int| LogicV::Stmt(StmtV::Extends { sub: bs[i].sub, super_: bs[i].super_ }),
                    ) + seq![r.0],
                );
                let rest = spec_extends_chains(chains.drop_first(), this, other, r.1, infer, fuel);
                (seq![item] + rest.0, rest.1)
            },
        }
    }
}

/// A subtyping obligation. Both sides are dereferenced at the top; when both
/// are named, every derivation chain is tried and any one suffices
/// (disjunction); when a side is still unresolved the obligation is
/// deferred unchanged.
pub open spec fn spec_extends(
    sub: TyV,
    super_: TyV,
    impls: Seq<ImplV>,
    tbl: Seq<TyV>,
    infer: bool,
    fuel: nat,
) -> (LogicV, Seq<TyV>) {
    let s1 = chase(sub, tbl, fuel);
    let s2 = chase(super_, tbl, fuel);
    match s1 {
        TyV::Named(this) => match s2 {
            TyV::Named(other) => {
                let chains = spec_paths(this.name, other.name, impls, (impls.len() + 1) as nat);
                let r = spec_extends_chains(chains, this, other, tbl, infer, fuel);
                (one_of_v(r.0), r.1)
            },
            _ => (LogicV::Stmt(StmtV::Extends { sub, super_ }), tbl),
        },
        _ => (LogicV::Stmt(StmtV::Extends { sub, super_ }), tbl),
    }
}

// ---------------------------------------------------------------------------
// Reduction of formulas
// ---------------------------------------------------------------------------

pub open spec fn count_false(s: Seq<LogicV>) -> nat
    decreases s,
{
    if s.len() == 0 {
        0
    } else {
        count_false(s.drop_last()) + (if s.last() is False {
            1nat
        } else {
            0nat
        })
    }
}

pub open spec fn first_non_false(s: Seq<LogicV>) -> LogicV
    decreases s,
{
    if s.len() == 0 {
        LogicV::False
    } else if !(s[0] is False) {
        s[0]
    } else {
        first_non_false(s.drop_first())
    }
}

/// One reduction step of an atomic obligation.
pub open spec fn spec_reduce_stmt(s: StmtV, impls: Seq<ImplV>, tbl: Seq<TyV>, infer: bool, fuel: nat) -> (
    LogicV,
    Seq<TyV>,
) {
    match s {
        StmtV::Exactly { ty, is } => spec_unify(ty, is, tbl, infer, fuel),
        StmtV::Extends { sub, super_ } => spec_extends(sub, super_, impls, tbl, infer, fuel),
        StmtV::HasMember { .. } => (LogicV::Stmt(s), tbl),
    }
}

/// One reduction step of a formula.
///
/// Conjunction members may commit inferences; disjunction branches are
/// always explored without inference, and a disjunction collapses when all
/// or all-but-one of its branches are refuted.
pub open spec fn spec_reduce(l: LogicV, impls: Seq<ImplV>, tbl: Seq<TyV>, infer: bool, fuel: nat) -> (
    LogicV,
    Seq<TyV>,
)
    decreases logic_size(l), 0nat,
{
    match l {
        LogicV::True => (l, tbl),
        LogicV::False => (l, tbl),
        LogicV::Stmt(s) => spec_reduce_stmt(s, impls, tbl, infer, fuel),
        LogicV::AllOf(items) => {
            let r = spec_reduce_seq(items, impls, tbl, infer, fuel);
            (all_of_v(r.0), r.1)
        },
        LogicV::OneOf(items) => {
            let r = spec_reduce_seq(items, impls, tbl, false, fuel);
            let reduced = r.0;
            if count_false(reduced) == reduced.len() {
                (LogicV::False, r.1)
            } else if count_false(reduced) + 1 == reduced.len() {
                (first_non_false(reduced), r.1)
            } else {
                (LogicV::OneOf(reduced), r.1)
            }
        },
    }
}

/// Reduce the members of a list left to right, threading the table.
pub open spec fn spec_reduce_seq(
    items: Seq<LogicV>,
    impls: Seq<ImplV>,
    tbl: Seq<TyV>,
    infer: bool,
    fuel: nat,
) -> (Seq<LogicV>, Seq<TyV>)
    decreases logic_size_seq(items), items.len() + 1,
{
    if items.len() == 0 {
        (Seq::empty(), tbl)
    } else {
        let r0 = spec_reduce(items[0], impls, tbl, infer, fuel);
        let rest = spec_reduce_seq(items.drop_first(), impls, r0.1, infer, fuel);
        (seq![r0.0] + rest.0, rest.1)
    }
}

/// The proof loop: reduce with inference until the formula stops changing,
/// or the iteration budget runs out.
pub open spec fn spec_solve(l: LogicV, impls: Seq<ImplV>, tbl: Seq<TyV>, steps: nat, fuel: nat) -> (
    LogicV,
    Seq<TyV>,
)
    decreases steps,
{
    if l is True || l is False || steps == 0 {
        (l, tbl)
    } else {
        let r = spec_reduce(l, impls, tbl, true, fuel);
        if r.0 == l {
            r
        } else {
            spec_solve(r.0, impls, r.1, (steps - 1) as nat, fuel)
        }
    }
}

// ---------------------------------------------------------------------------
// Instantiation
// ---------------------------------------------------------------------------

/// What `inst` accepts: a named type whose name is declared (with any number
/// of arguments, each well formed), or a bare variable.
pub open spec fn inst_ok(t: TyV, ds: Seq<DeclV>, n: nat) -> bool {
    match t {
        TyV::Named(nm) => find_decl(ds, nm.name) is Some && forall|i: int|
            0 <= i < nm.args.len() ==> ty_ok(#[trigger] nm.args[i], ds, n),
        TyV::Var(id) => id < n,
        _ => false,
    }
}

/// Instantiation of a type: a named type is instantiated against its
/// declaration, a variable instantiates to itself.
pub open spec fn spec_inst(t: TyV, ds: Seq<DeclV>, tbl: Seq<TyV>, bs: Seq<BoundV>) -> (
    TyV,
    Seq<TyV>,
    Seq<BoundV>,
) {
    match t {
        TyV::Named(nm) => spec_inst_named(nm, find_decl(ds, nm.name)->Some_0, tbl, bs),
        _ => (t, tbl, bs),
    }
}

/// How a posed goal joins the accumulated one: the trivial goal is replaced,
/// a conjunction grows by one member, anything else becomes a two-member
/// conjunction.
pub open spec fn spec_add_goal(cur: LogicV, new: LogicV) -> LogicV {
    match cur {
        LogicV::True => new,
        LogicV::AllOf(xs) => LogicV::AllOf(xs.push(new)),
        _ => LogicV::AllOf(seq![cur, new]),
    }
}

/// Instantiating a declared name: supplied arguments fill the declaration's
/// parameters in order (extras are dropped), missing ones become fresh
/// unresolved variables, and the declaration's constraints, substituted
/// accordingly, are appended to the global obligation list.
pub open spec fn spec_inst_named(nm: NamedV, d: DeclV, tbl: Seq<TyV>, bs: Seq<BoundV>) -> (
    TyV,
    Seq<TyV>,
    Seq<BoundV>,
) {
    let supplied = if nm.args.len() > d.args.len() {
        nm.args.take(d.args.len() as int)
    } else {
        nm.args
    };
    let missing = (d.args.len() - supplied.len()) as nat;
    let args2 = supplied + Seq::new(missing, |k: int| TyV::Var((tbl.len() + k) as nat));
    let m = Seq::new(d.args.len(), |i: int| (d.args[i], args2[i]));
    (
        TyV::Named(NamedV { name: nm.name, args: args2 }),
        tbl + Seq::new(missing, |k: int| TyV::Free),
        bs + Seq::new(
            d.bounds.len(),
            |i: int|
                BoundV {
                    sub: spec_parameterise(d.bounds[i].sub, m),
                    super_: spec_parameterise(d.bounds[i].super_, m),
                },
        ),
    )
}

} // verus!
