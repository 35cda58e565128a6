//! Plain-text rendering of types, obligations and formulas.

use vstd::prelude::*;
use vstd::string::StringExecFns;

use crate::chars::string_from_chars;
use crate::logic::stmt::{Stmt};
use crate::logic::{lemma_view_logic_seq, view_logic_seq, Logic};
use crate::model::{logic_size, logic_size_seq, ty_size, LogicV, StmtV, TyV};
use crate::lemmas::lemma_logic_size_seq_index;
use crate::model::lemma_ty_size_seq_index;
use crate::ty::{lemma_view_ty_seq, view_named, view_ty_seq, Named, Type};

verus! {

/// The decimal digit character for one digit value.
pub open spec fn digit(d: nat) -> char {
    if d == 0 {
        '0'
    } else if d == 1 {
        '1'
    } else if d == 2 {
        '2'
    } else if d == 3 {
        '3'
    } else if d == 4 {
        '4'
    } else if d == 5 {
        '5'
    } else if d == 6 {
        '6'
    } else if d == 7 {
        '7'
    } else if d == 8 {
        '8'
    } else {
        '9'
    }
}

/// The decimal rendering of a number, most significant digit first.
pub open spec fn dec_digits(n: nat) -> Seq<char>
    decreases n,
{
    if n < 10 {
        seq![digit(n)]
    } else {
        dec_digits(n / 10).push(digit(n % 10))
    }
}

fn digit_char(d: usize) -> (r: char)
    requires
        d < 10,
    ensures
        r == digit(d as nat),
{
    if d == 0 {
        '0'
    } else if d == 1 {
        '1'
    } else if d == 2 {
        '2'
    } else if d == 3 {
        '3'
    } else if d == 4 {
        '4'
    } else if d == 5 {
        '5'
    } else if d == 6 {
        '6'
    } else if d == 7 {
        '7'
    } else if d == 8 {
        '8'
    } else {
        '9'
    }
}

fn dec_chars(n: usize) -> (r: Vec<char>)
    ensures
        r@ == dec_digits(n as nat),
    decreases n,
{
    if n < 10 {
        let mut v: Vec<char> = Vec::new();
        v.push(digit_char(n));
        proof {
            assert(v@ =~= seq![digit(n as nat)]);
        }
        v
    } else {
        let mut v = dec_chars(n / 10);
        v.push(digit_char(n % 10));
        v
    }
}

/// The decimal rendering of a variable index.
pub fn render_index(n: usize) -> (r: String)
    ensures
        r@ == dec_digits(n as nat),
{
    let v = dec_chars(n);
    string_from_chars(&v)
}

// ---------------------------------------------------------------------------
// Types
// ---------------------------------------------------------------------------

/// The rendering of a type: a named type shows its name and, when present,
/// its bracketed arguments; a generic shows its name; a variable shows a
/// dollar sign and its index.
pub open spec fn render_ty(t: TyV) -> Seq<char>
    decreases t,
{
    match t {
        TyV::Named(nm) => nm.name + render_ty_args(nm.args),
        TyV::Generic(g) => g,
        TyV::Var(id) => seq!['$'] + dec_digits(id),
        TyV::Free => seq!['<', 'F', 'R', 'E', 'E', '>'],
    }
}

pub open spec fn render_ty_args(args: Seq<TyV>) -> Seq<char>
    decreases args, 1nat,
{
    if args.len() == 0 {
        Seq::empty()
    } else {
        seq!['['] + render_ty_list(args) + seq![']']
    }
}

pub open spec fn render_ty_list(args: Seq<TyV>) -> Seq<char>
    decreases args, 0nat,
{
    if args.len() == 0 {
        Seq::empty()
    } else if args.len() == 1 {
        render_ty(args[0])
    } else {
        render_ty_list(args.drop_last()) + seq![',', ' '] + render_ty(args.last())
    }
}

impl Type {
    /// Render this type as text.
    pub fn pretty(&self) -> (r: String)
        ensures
            r@ == render_ty(self@),
        decreases ty_size(self@), 1nat,
    {
        match self {
            Type::Named(nm) => nm.pretty(),
            Type::Generic(g) => g.clone(),
            Type::Var(id) => {
                let mut s = String::new();
                s.append("$");
                let digits = render_index(*id);
                s.append(digits.as_str());
                proof {
                    assert(s@ =~= seq!['$'] + dec_digits(*id as nat)) by {
                        reveal_strlit("$");
                    }
                }
                s
            },
            Type::Free => {
                let s = free_marker();
                s
            },
        }
    }
}

/// The rendering of the unresolved marker.
fn free_marker() -> (r: String)
    ensures
        r@ == seq!['<', 'F', 'R', 'E', 'E', '>'],
{
    let mut v: Vec<char> = Vec::new();
    v.push('<');
    v.push('F');
    v.push('R');
    v.push('E');
    v.push('E');
    v.push('>');
    proof {
        assert(v@ =~= seq!['<', 'F', 'R', 'E', 'E', '>']);
    }
    string_from_chars(&v)
}

impl Named {
    /// Render this named type as text.
    pub fn pretty(&self) -> (r: String)
        ensures
            r@ == render_ty(TyV::Named(self@)),
        decreases ty_size(TyV::Named(view_named(*self))), 0nat,
    {
        let mut s = self.name.clone();
        if self.args.len() == 0 {
            proof {
                lemma_view_ty_seq(self.args@);
                assert(view_named(*self).args =~= Seq::<TyV>::empty());
                assert(s@ =~= self.name@ + render_ty_args(view_named(*self).args));
            }
            return s;
        }
        proof {
            lemma_view_ty_seq(self.args@);
        }
        let ghost av = view_named(*self).args;
        s.append("[");
        let mut i: usize = 0;
        proof {
            reveal_strlit("[");
            assert(av.take(0) =~= Seq::<TyV>::empty());
            assert(s@ =~= self.name@ + seq!['['] + render_ty_list(av.take(0)));
        }
        while i < self.args.len()
            invariant
                1 <= self.args@.len(),
                i <= self.args@.len(),
                av == view_named(*self).args,
                av.len() == self.args@.len(),
                forall|j: int| 0 <= j < self.args@.len() ==> av[j] == (#[trigger] self.args@[j])@,
                s@ == self.name@ + seq!['['] + render_ty_list(av.take(i as int)),
            decreases self.args.len() - i,
        {
            proof {
                lemma_view_ty_seq(self.args@);
                lemma_ty_size_seq_index(view_ty_seq(self.args@), i as int);
                assert(av[i as int] == self.args@[i as int]@);
            }
            if i > 0 {
                s.append(", ");
                proof {
                    reveal_strlit(", ");
                }
            }
            let part = self.args[i].pretty();
            s.append(part.as_str());
            proof {
                assert(av.take(i as int + 1).drop_last() =~= av.take(i as int));
                assert(av.take(i as int + 1).last() == av[i as int]);
                if i == 0 {
                    assert(av.take(1).len() == 1);
                    assert(av.take(1)[0] == av[0]);
                    assert(render_ty_list(av.take(1)) == render_ty(av[0]));
                    assert(s@ =~= self.name@ + seq!['['] + render_ty_list(av.take(1)));
                } else {
                    assert(s@ =~= self.name@ + seq!['['] + (render_ty_list(av.take(i as int))
                        + seq![',', ' '] + render_ty(av[i as int])));
                }
            }
            i = i + 1;
        }
        s.append("]");
        proof {
            reveal_strlit("[");
            reveal_strlit("]");
            assert(av.take(av.len() as int) =~= av);
            assert(s@ =~= self.name@ + (seq!['['] + render_ty_list(av) + seq![']']));
            assert(render_ty_args(av) == seq!['['] + render_ty_list(av) + seq![']']);
        }
        s
    }
}

// ---------------------------------------------------------------------------
// Obligations and formulas
// ---------------------------------------------------------------------------

/// The rendering of an atomic obligation.
pub open spec fn render_stmt(s: StmtV) -> Seq<char> {
    match s {
        StmtV::Exactly { ty, is } => render_ty(ty) + seq![' ', '=', ' '] + render_ty(is),
        StmtV::Extends { sub, super_ } => render_ty(sub) + seq![':', ' '] + render_ty(super_),
        StmtV::HasMember { ty, member, member_ty } => render_ty(ty) + seq![
            ' ',
            'h',
            'a',
            's',
            ' ',
        ] + member + seq![':', ' '] + render_ty(member_ty),
    }
}

/// The rendering of a formula: disjunctions and conjunctions are
/// parenthesised and their members separated by the connective.
pub open spec fn render_logic(l: LogicV) -> Seq<char>
    decreases l, 1nat,
{
    match l {
        LogicV::OneOf(items) => seq!['('] + render_logic_list(items, seq![' ', '|', ' ']) + seq![')'],
        LogicV::AllOf(items) => seq!['('] + render_logic_list(items, seq![' ', '&', ' ']) + seq![')'],
        LogicV::Stmt(s) => render_stmt(s),
        LogicV::True => seq!['t', 'r', 'u', 'e'],
        LogicV::False => seq!['f', 'a', 'l', 's', 'e'],
    }
}

pub open spec fn render_logic_list(items: Seq<LogicV>, sep: Seq<char>) -> Seq<char>
    decreases items, 0nat,
{
    if items.len() == 0 {
        Seq::empty()
    } else if items.len() == 1 {
        render_logic(items[0])
    } else {
        render_logic_list(items.drop_last(), sep) + sep + render_logic(items.last())
    }
}

impl Stmt {
    /// Render this obligation as text.
    pub fn pretty(&self) -> (r: String)
        ensures
            r@ == render_stmt(self@),
    {
        match self {
            Stmt::Exactly { ty, is } => {
                let mut s = ty.pretty();
                s.append(" = ");
                let right = is.pretty();
                s.append(right.as_str());
                proof {
                    reveal_strlit(" = ");
                    assert(s@ =~= render_stmt(self@));
                }
                s
            },
            Stmt::Extends { sub, super_ } => {
                let mut s = sub.pretty();
                s.append(": ");
                let right = super_.pretty();
                s.append(right.as_str());
                proof {
                    reveal_strlit(": ");
                    assert(s@ =~= render_stmt(self@));
                }
                s
            },
            Stmt::HasMember { ty, member, member_ty } => {
                let mut s = ty.pretty();
                s.append(" has ");
                s.append(member.as_str());
                s.append(": ");
                let right = member_ty.pretty();
                s.append(right.as_str());
                proof {
                    reveal_strlit(" has ");
                    reveal_strlit(": ");
                    assert(s@ =~= render_stmt(self@));
                }
                s
            },
        }
    }
}

impl Logic {
    /// Render this formula as text.
    pub fn pretty(&self) -> (r: String)
        ensures
            r@ == render_logic(self@),
        decreases logic_size(self@), 0nat,
    {
        match self {
            Logic::OneOf(items) => {
                let sep = sep_or();
                let body = pretty_list(items, &sep);
                let mut s = String::new();
                s.append("(");
                s.append(body.as_str());
                s.append(")");
                proof {
                    reveal_strlit("(");
                    reveal_strlit(")");
                    assert(s@ =~= render_logic(self@));
                }
                s
            },
            Logic::AllOf(items) => {
                let sep = sep_and();
                let body = pretty_list(items, &sep);
                let mut s = String::new();
                s.append("(");
                s.append(body.as_str());
                s.append(")");
                proof {
                    reveal_strlit("(");
                    reveal_strlit(")");
                    assert(s@ =~= render_logic(self@));
                }
                s
            },
            Logic::Stmt(st) => st.pretty(),
            Logic::True => {
                let mut s = String::new();
                s.append("true");
                proof {
                    reveal_strlit("true");
                    assert(s@ =~= seq!['t', 'r', 'u', 'e']);
                }
                s
            },
            Logic::False => {
                let mut s = String::new();
                s.append("false");
                proof {
                    reveal_strlit("false");
                    assert(s@ =~= seq!['f', 'a', 'l', 's', 'e']);
                }
                s
            },
        }
    }
}

fn sep_or() -> (r: String)
    ensures
        r@ == seq![' ', '|', ' '],
{
    let mut v: Vec<char> = Vec::new();
    v.push(' ');
    v.push('|');
    v.push(' ');
    proof {
        assert(v@ =~= seq![' ', '|', ' ']);
    }
    string_from_chars(&v)
}

fn sep_and() -> (r: String)
    ensures
        r@ == seq![' ', '&', ' '],
{
    let mut v: Vec<char> = Vec::new();
    v.push(' ');
    v.push('&');
    v.push(' ');
    proof {
        assert(v@ =~= seq![' ', '&', ' ']);
    }
    string_from_chars(&v)
}

/// Render the members of a formula list separated by the connective.
fn pretty_list(items: &Vec<Logic>, sep: &String) -> (r: String)
    ensures
        r@ == render_logic_list(view_logic_seq(items@), sep@),
    decreases logic_size_seq(view_logic_seq(items@)), 1nat,
{
    proof {
        lemma_view_logic_seq(items@);
    }
    let ghost iv = view_logic_seq(items@);
    let mut s = String::new();
    let mut i: usize = 0;
    proof {
        assert(iv.take(0) =~= Seq::<LogicV>::empty());
    }
    while i < items.len()
        invariant
            i <= items.len(),
            iv == view_logic_seq(items@),
            iv.len() == items@.len(),
            forall|j: int| 0 <= j < items@.len() ==> iv[j] == (#[trigger] items@[j])@,
            s@ == render_logic_list(iv.take(i as int), sep@),
        decreases items.len() - i,
    {
        proof {
            lemma_view_logic_seq(items@);
            lemma_logic_size_seq_index(iv, i as int);
            assert(iv[i as int] == items@[i as int]@);
        }
        if i > 0 {
            s.append(sep.as_str());
        }
        let part = items[i].pretty();
        s.append(part.as_str());
        proof {
            assert(iv.take(i as int + 1).drop_last() =~= iv.take(i as int));
            assert(iv.take(i as int + 1).last() == iv[i as int]);
            if i == 0 {
                assert(iv.take(1).len() == 1);
                assert(iv.take(1)[0] == iv[0]);
                assert(render_logic_list(iv.take(1), sep@) == render_logic(iv[0]));
                assert(s@ =~= render_logic_list(iv.take(1), sep@));
            } else {
                assert(s@ =~= render_logic_list(iv.take(i as int), sep@) + sep@ + render_logic(
                    iv[i as int],
                ));
            }
        }
        i = i + 1;
    }
    proof {
        assert(iv.take(iv.len() as int) =~= iv);
    }
    s
}

} // verus!
