//! A hand-written recursive-descent parser for the surface syntax of types,
//! declarations and implementation edges.

use vstd::prelude::*;

use crate::chars::{char_is_alphanumeric, char_is_whitespace, str_chars, string_from_chars, whitespace};
use crate::chars::alphanumeric;
use crate::model::{
    find_decl, impl_ok, state_allocs_only, ty_ok, DeclV, ImplV, NamedV, StateV, TyV,
};
use crate::state::TypeSystem;
use crate::ty::args::{contains_string, string_eq, view_strings, GeneircArgs};
use crate::ty::decl::Decl;
use crate::ty::impl_::Impl;
use crate::ty::{lemma_view_ty_seq, view_ty_seq, Named, Type};

verus! {

/// A character that may occur in an identifier.
pub open spec fn ident_char(c: char) -> bool {
    alphanumeric(c) || c == '_'
}

/// The parser's cursor over one line of input, with the generic names in
/// scope.
pub struct ParserState {
    pub generics: GeneircArgs,
    pub text: Vec<char>,
    pub offset: usize,
}

/// Everything that can go wrong while parsing, with the offset it went wrong
/// at.
#[derive(Debug, PartialEq, Eq)]
pub struct ParseError {
    pub message: ErrorDetail,
    pub offset: usize,
}

#[derive(Debug, PartialEq, Eq)]
pub enum ErrorDetail {
    Expected { one_of: Vec<Expected>, found: Option<char> },
    ArgsMismatch { name: String, expected: usize, got: usize },
    DeclNotFound(String),
    GenericNotFound(String),
    GenericAlreadyDefined(String),
    DeclAlreadyDefined(String),
}

#[derive(Debug, PartialEq, Eq)]
pub enum Expected {
    Char(char),
    Ident,
    Keyword(String),
}


// ---------------------------------------------------------------------------
// Views of the errors
// ---------------------------------------------------------------------------

/// View of one expectation.
pub enum ExpectedV {
    Char(char),
    Ident,
    Keyword(Seq<char>),
}

/// View of an error detail.
pub enum ErrV {
    Expected { one_of: Seq<ExpectedV>, found: Option<char> },
    ArgsMismatch { name: Seq<char>, expected: nat, got: nat },
    DeclNotFound(Seq<char>),
    GenericNotFound(Seq<char>),
    GenericAlreadyDefined(Seq<char>),
    DeclAlreadyDefined(Seq<char>),
}

/// View of a parse error.
pub struct ParseErrorV {
    pub message: ErrV,
    pub offset: int,
}

impl View for Expected {
    type V = ExpectedV;

    open spec fn view(&self) -> ExpectedV {
        match self {
            Expected::Char(c) => ExpectedV::Char(*c),
            Expected::Ident => ExpectedV::Ident,
            Expected::Keyword(k) => ExpectedV::Keyword(k@),
        }
    }
}

pub open spec fn view_expected_seq(s: Seq<Expected>) -> Seq<ExpectedV> {
    Seq::new(s.len(), |i: int| s[i]@)
}

impl View for ErrorDetail {
    type V = ErrV;

    open spec fn view(&self) -> ErrV {
        match self {
            ErrorDetail::Expected { one_of, found } => ErrV::Expected {
                one_of: view_expected_seq(one_of@),
                found: *found,
            },
            ErrorDetail::ArgsMismatch { name, expected, got } => ErrV::ArgsMismatch {
                name: name@,
                expected: *expected as nat,
                got: *got as nat,
            },
            ErrorDetail::DeclNotFound(n) => ErrV::DeclNotFound(n@),
            ErrorDetail::GenericNotFound(n) => ErrV::GenericNotFound(n@),
            ErrorDetail::GenericAlreadyDefined(n) => ErrV::GenericAlreadyDefined(n@),
            ErrorDetail::DeclAlreadyDefined(n) => ErrV::DeclAlreadyDefined(n@),
        }
    }
}

impl View for ParseError {
    type V = ParseErrorV;

    open spec fn view(&self) -> ParseErrorV {
        ParseErrorV { message: self.message@, offset: self.offset as int }
    }
}

// ---------------------------------------------------------------------------
// The grammar, as spec functions over the text
// ---------------------------------------------------------------------------

/// The character at an offset, if any.
pub open spec fn cur_char(text: Seq<char>, i: int) -> Option<char> {
    if 0 <= i < text.len() {
        Some(text[i])
    } else {
        None
    }
}

/// The offset after the blanks that start at `i`.
pub open spec fn sp_skip_ws(text: Seq<char>, i: int) -> int
    decreases text.len() - i,
{
    if 0 <= i < text.len() && whitespace(text[i]) {
        sp_skip_ws(text, i + 1)
    } else {
        i
    }
}

/// The end of the identifier-character run that starts at `i`.
pub open spec fn sp_ident_end(text: Seq<char>, i: int) -> int
    decreases text.len() - i,
{
    if 0 <= i < text.len() && ident_char(text[i]) {
        sp_ident_end(text, i + 1)
    } else {
        i
    }
}

/// An identifier: the longest nonempty identifier-character run under the
/// cursor, or the expectation error at the unmoved cursor.
pub open spec fn sp_ident(text: Seq<char>, i: int) -> (Result<Seq<char>, ParseErrorV>, int) {
    let e = sp_ident_end(text, i);
    if e == i {
        (
            Err(
                ParseErrorV {
                    message: ErrV::Expected { one_of: seq![ExpectedV::Ident], found: cur_char(text, i) },
                    offset: i,
                },
            ),
            i,
        )
    } else {
        (Ok(text.subrange(i, e)), e)
    }
}

/// A generic placeholder: an identifier that is in scope; otherwise the
/// cursor is restored.
pub open spec fn sp_generic_ty(text: Seq<char>, i: int, gens: Seq<Seq<char>>) -> (
    Result<TyV, ParseErrorV>,
    int,
) {
    let idr = sp_ident(text, i);
    match idr.0 {
        Err(e) => (Err(e), i),
        Ok(name) => if gens.contains(name) {
            (Ok(TyV::Generic(name)), idr.1)
        } else {
            (Err(ParseErrorV { message: ErrV::GenericNotFound(name), offset: i }), i)
        },
    }
}

/// An offset clipped into the window between `lo` and the end of the text;
/// the identity on every offset the parser actually produces.
pub open spec fn clamp_to(text: Seq<char>, lo: int, j: int) -> int {
    if j < lo {
        lo
    } else if j > text.len() {
        text.len() as int
    } else {
        j
    }
}

/// A type at `i`: a wildcard allocates the next fresh variable, an in-scope
/// identifier is a generic placeholder, anything else must parse as a named
/// type. Returns the outcome, the new offset, and how many variables were
/// allocated (also on the error paths, whose partial work stands).
pub open spec fn sp_type(
    text: Seq<char>,
    i: int,
    gens: Seq<Seq<char>>,
    ds: Seq<DeclV>,
    n0: nat,
    check: bool,
) -> (Result<TyV, ParseErrorV>, int, nat)
    decreases text.len() - i, 3nat,
{
    if cur_char(text, i) == Some('_') {
        (Ok(TyV::Var(n0)), i + 1, 1)
    } else {
        let g = sp_generic_ty(text, i, gens);
        if g.0 is Ok {
            (Ok(g.0->Ok_0), g.1, 0)
        } else {
            let nm = sp_named(text, i, gens, ds, n0, check);
            (
                match nm.0 {
                    Ok(n) => Ok(TyV::Named(n)),
                    Err(e) => Err(e),
                },
                nm.1,
                nm.2,
            )
        }
    }
}

/// A named type at `i`: an identifier, an optional bracketed argument list,
/// and, when checking, the declaration lookup with its arity.
pub open spec fn sp_named(
    text: Seq<char>,
    i: int,
    gens: Seq<Seq<char>>,
    ds: Seq<DeclV>,
    n0: nat,
    check: bool,
) -> (Result<NamedV, ParseErrorV>, int, nat)
    decreases text.len() - i, 2nat,
{
    let idr = sp_ident(text, i);
    match idr.0 {
        Err(e) => (Err(e), i, 0),
        Ok(name) => {
            let ar = sp_args(text, clamp_to(text, i, idr.1), gens, ds, n0, check);
            match ar.0 {
                Err(er) => (Err(er), ar.1, ar.2),
                Ok(args) => if check {
                    match find_decl(ds, name) {
                        Some(d) => if d.args.len() != args.len() {
                            (
                                Err(
                                    ParseErrorV {
                                        message: ErrV::ArgsMismatch {
                                            name,
                                            expected: d.args.len(),
                                            got: args.len(),
                                        },
                                        offset: ar.1,
                                    },
                                ),
                                ar.1,
                                ar.2,
                            )
                        } else {
                            (Ok(NamedV { name, args }), ar.1, ar.2)
                        },
                        None => (
                            Err(ParseErrorV { message: ErrV::DeclNotFound(name), offset: ar.1 }),
                            ar.1,
                            ar.2,
                        ),
                    }
                } else {
                    (Ok(NamedV { name, args }), ar.1, ar.2)
                },
            }
        },
    }
}

/// An argument list at `i`: nothing without an opening bracket, otherwise the
/// members up to the closing bracket.
pub open spec fn sp_args(
    text: Seq<char>,
    i: int,
    gens: Seq<Seq<char>>,
    ds: Seq<DeclV>,
    n0: nat,
    check: bool,
) -> (Result<Seq<TyV>, ParseErrorV>, int, nat)
    decreases text.len() - i, 1nat,
{
    if cur_char(text, i) != Some('[') {
        (Ok(Seq::empty()), i, 0)
    } else {
        sp_args_items(text, i + 1, gens, ds, n0, check)
    }
}

/// The members of an argument list: each round tries a type (a failed
/// member is skipped, though its allocations stand), then expects a closing
/// bracket or a separating comma.
pub open spec fn sp_args_items(
    text: Seq<char>,
    i: int,
    gens: Seq<Seq<char>>,
    ds: Seq<DeclV>,
    n0: nat,
    check: bool,
) -> (Result<Seq<TyV>, ParseErrorV>, int, nat)
    decreases text.len() - i, 4nat,
{
    let t = sp_type(text, i, gens, ds, n0, check);
    let tys: Seq<TyV> = match t.0 {
        Ok(ty) => seq![ty],
        Err(_) => Seq::empty(),
    };
    let j2 = sp_skip_ws(text, t.1);
    if cur_char(text, j2) == Some(']') {
        (Ok(tys), j2 + 1, t.2)
    } else if cur_char(text, j2) == Some(',') && i <= j2 {
        let rest = sp_args_items(text, j2 + 1, gens, ds, (n0 + t.2) as nat, check);
        (
            match rest.0 {
                Ok(more) => Ok(tys + more),
                Err(e) => Err(e),
            },
            rest.1,
            (t.2 + rest.2) as nat,
        )
    } else {
        (
            Err(
                ParseErrorV {
                    message: ErrV::Expected {
                        one_of: seq![ExpectedV::Char(','), ExpectedV::Char(']')],
                        found: cur_char(text, j2),
                    },
                    offset: j2,
                },
            ),
            j2,
            t.2,
        )
    }
}

/// One fresh generic name at `i`: an identifier not already in scope.
pub open spec fn sp_generic_arg(text: Seq<char>, i: int, gens: Seq<Seq<char>>) -> (
    Result<Seq<char>, ParseErrorV>,
    int,
) {
    let idr = sp_ident(text, i);
    match idr.0 {
        Err(e) => (Err(e), i),
        Ok(name) => if gens.contains(name) {
            (
                Err(ParseErrorV { message: ErrV::GenericAlreadyDefined(name), offset: idr.1 }),
                idr.1,
            )
        } else {
            (Ok(name), idr.1)
        },
    }
}

/// A bracketed list of distinct generic names.
pub open spec fn sp_generics(text: Seq<char>, i: int) -> (Result<Seq<Seq<char>>, ParseErrorV>, int) {
    if cur_char(text, i) != Some('[') {
        (
            Err(
                ParseErrorV {
                    message: ErrV::Expected {
                        one_of: seq![ExpectedV::Char('[')],
                        found: cur_char(text, i),
                    },
                    offset: i,
                },
            ),
            i,
        )
    } else {
        let j = sp_skip_ws(text, i + 1);
        if cur_char(text, j) == Some(']') {
            (Ok(Seq::empty()), j + 1)
        } else {
            sp_generics_items(text, clamp_to(text, i + 1, j), Seq::empty())
        }
    }
}

/// The members of a generic list: each round takes one fresh name, then
/// expects a closing bracket or a separating comma.
pub open spec fn sp_generics_items(text: Seq<char>, i: int, acc: Seq<Seq<char>>) -> (
    Result<Seq<Seq<char>>, ParseErrorV>,
    int,
)
    decreases text.len() - i,
{
    let a = sp_generic_arg(text, i, acc);
    match a.0 {
        Err(e) => (Err(e), a.1),
        Ok(name) => {
            let acc2 = acc.push(name);
            let j2 = sp_skip_ws(text, a.1);
            if cur_char(text, j2) == Some(']') {
                (Ok(acc2), j2 + 1)
            } else if cur_char(text, j2) == Some(',') && i <= j2 {
                let j3 = sp_skip_ws(text, j2 + 1);
                sp_generics_items(text, clamp_to(text, j2 + 1, j3), acc2)
            } else {
                (
                    Err(
                        ParseErrorV {
                            message: ErrV::Expected {
                                one_of: seq![ExpectedV::Char(',')],
                                found: cur_char(text, j2),
                            },
                            offset: j2,
                        },
                    ),
                    j2,
                )
            }
        },
    }
}

/// An implementation edge at `i`: a generic list, the target pattern, the
/// keyword that separates the patterns, and the source pattern.
pub open spec fn sp_impl(text: Seq<char>, i: int, ds: Seq<DeclV>, n0: nat) -> (
    Result<ImplV, ParseErrorV>,
    int,
    nat,
) {
    let g = sp_generics(text, i);
    match g.0 {
        Err(e) => (Err(e), g.1, 0),
        Ok(gens) => {
            let j1 = sp_skip_ws(text, g.1);
            let to = sp_named(text, j1, gens, ds, n0, true);
            match to.0 {
                Err(e) => (Err(e), to.1, to.2),
                Ok(tov) => {
                    let j2 = sp_skip_ws(text, to.1);
                    let f = sp_ident(text, j2);
                    match f.0 {
                        Err(e) => (Err(e), j2, to.2),
                        Ok(word) => if word != seq!['f', 'o', 'r'] {
                            (
                                Err(
                                    ParseErrorV {
                                        message: ErrV::Expected {
                                            one_of: seq![ExpectedV::Keyword(seq!['f', 'o', 'r'])],
                                            found: Some(word[0]),
                                        },
                                        offset: f.1,
                                    },
                                ),
                                f.1,
                                to.2,
                            )
                        } else {
                            let j3 = sp_skip_ws(text, f.1);
                            let fr = sp_named(text, j3, gens, ds, (n0 + to.2) as nat, true);
                            match fr.0 {
                                Err(e) => (Err(e), fr.1, (to.2 + fr.2) as nat),
                                Ok(frv) => (
                                    Ok(
                                        ImplV {
                                            args: gens,
                                            from: frv,
                                            to: tov,
                                            bounds: Seq::empty(),
                                        },
                                    ),
                                    fr.1,
                                    (to.2 + fr.2) as nat,
                                ),
                            }
                        },
                    }
                },
            }
        },
    }
}

/// A declaration: an identifier, fresh among the declared names, and an
/// optional generic list filling the rest of the line.
pub open spec fn sp_decl(text: Seq<char>, ds: Seq<DeclV>) -> Result<DeclV, ParseErrorV> {
    let idr = sp_ident(text, 0);
    match idr.0 {
        Err(e) => Err(e),
        Ok(name) => if find_decl(ds, name) is Some {
            Err(ParseErrorV { message: ErrV::DeclAlreadyDefined(name), offset: idr.1 })
        } else {
            let j = sp_skip_ws(text, idr.1);
            if j >= text.len() {
                Ok(DeclV { name, args: Seq::empty(), bounds: Seq::empty() })
            } else {
                match sp_generics(text, j).0 {
                    Err(e) => Err(e),
                    Ok(gens) => Ok(DeclV { name, args: gens, bounds: Seq::empty() }),
                }
            }
        },
    }
}

impl ParserState {
    /// The cursor never runs past the end of the input.
    pub open spec fn pwf(&self) -> bool {
        self.offset <= self.text@.len() && self.text@.len() <= usize::MAX
    }

    /// A fresh parser over the given text, with no generics in scope.
    pub fn new(text: &str) -> (r: Self)
        ensures
            r.text@ == text@,
            r.offset == 0,
            r.generics@.len() == 0,
            r.pwf(),
    {
        let r = ParserState { generics: Vec::new(), text: str_chars(text), offset: 0 };
        let l = r.text.len();
        proof {
            assert(r.text@.len() == l);
        }
        r
    }

    /// Bring a generic name into scope.
    pub fn add_generic(&mut self, name: String)
        ensures
            final(self).generics@ == old(self).generics@.push(name),
            final(self).text == old(self).text,
            final(self).offset == old(self).offset,
    {
        self.generics.push(name);
    }

    /// A fresh unresolved variable, as a type.
    pub fn new_type_var(&mut self, ts: &mut TypeSystem) -> (r: Type)
        requires
            old(ts).wf(),
        ensures
            final(ts).wf(),
            state_allocs_only(old(ts)@, final(ts)@),
            r@ == TyV::Var(old(ts)@.table.len() as nat),
            final(ts)@.table.len() == old(ts)@.table.len() + 1,
            *final(self) == *old(self),
    {
        let id = ts.new_type_var();
        proof {
            assert(final(ts)@.table =~= old(ts)@.table.push(TyV::Free));
        }
        Type::Var(id)
    }

    /// The character under the cursor.
    pub fn current_char(&self) -> (r: Option<char>)
        ensures
            r == (if self.offset < self.text@.len() {
                Some(self.text@[self.offset as int])
            } else {
                Option::<char>::None
            }),
    {
        if self.offset < self.text.len() {
            Some(self.text[self.offset])
        } else {
            None
        }
    }

    /// Whether the whole input has been consumed.
    pub fn is_eof(&self) -> (r: bool)
        ensures
            r == (self.offset >= self.text@.len()),
    {
        self.offset >= self.text.len()
    }

    /// Consume one expected character.
    pub fn expect(&mut self, c: char) -> (r: Result<(), ParseError>)
        requires
            old(self).pwf(),
        ensures
            final(self).pwf(),
            final(self).text == old(self).text,
            final(self).generics == old(self).generics,
            match r {
                Ok(()) => old(self).offset < old(self).text@.len() && old(self).text@[old(
                    self,
                ).offset as int] == c && final(self).offset == old(self).offset + 1,
                Err(e) => *final(self) == *old(self) && cur_char(
                    old(self).text@,
                    old(self).offset as int,
                ) != Some(c) && e@ == (ParseErrorV {
                    message: ErrV::Expected {
                        one_of: seq![ExpectedV::Char(c)],
                        found: cur_char(old(self).text@, old(self).offset as int),
                    },
                    offset: old(self).offset as int,
                }),
            },
    {
        match self.current_char() {
            Some(d) => {
                if d == c {
                    self.offset = self.offset + 1;
                    return Ok(());
                }
            },
            None => {},
        }
        let mut one_of: Vec<Expected> = Vec::new();
        one_of.push(Expected::Char(c));
        proof {
            assert(view_expected_seq(one_of@) =~= seq![ExpectedV::Char(c)]);
        }
        Err(ParseError { message: ErrorDetail::Expected { one_of, found: self.current_char() }, offset: self.offset })
    }

    /// Skip whitespace; the cursor stops at the first non-blank character or
    /// the end.
    pub fn skip_ws(&mut self)
        requires
            old(self).pwf(),
        ensures
            final(self).pwf(),
            final(self).text == old(self).text,
            final(self).generics == old(self).generics,
            old(self).offset <= final(self).offset,
            final(self).offset == sp_skip_ws(old(self).text@, old(self).offset as int),
            final(self).offset == final(self).text@.len() || !whitespace(
                final(self).text@[final(self).offset as int],
            ),
    {
        while self.offset < self.text.len() && char_is_whitespace(self.text[self.offset])
            invariant
                self.pwf(),
                self.text == old(self).text,
                self.generics == old(self).generics,
                old(self).offset <= self.offset,
                sp_skip_ws(old(self).text@, old(self).offset as int) == sp_skip_ws(
                    self.text@,
                    self.offset as int,
                ),
            decreases self.text@.len() - self.offset,
        {
            self.offset = self.offset + 1;
        }
    }

    /// Parse an identifier: the longest nonempty run of alphanumeric
    /// characters and underscores under the cursor.
    pub fn parse_ident(&mut self) -> (r: Result<String, ParseError>)
        requires
            old(self).pwf(),
        ensures
            final(self).pwf(),
            final(self).text == old(self).text,
            final(self).generics == old(self).generics,
            old(self).offset <= final(self).offset,
            ({
                let sp = sp_ident(old(self).text@, old(self).offset as int);
                &&& final(self).offset == sp.1
                &&& match (r, sp.0) {
                    (Result::Ok(s), Result::Ok(sv)) => s@ == sv,
                    (Result::Err(e), Result::Err(ev)) => e@ == ev,
                    _ => false,
                }
            }),
            match r {
                Ok(s) => {
                    &&& old(self).offset < final(self).offset
                    &&& final(self).offset <= final(self).text@.len()
                    &&& s@ == final(self).text@.subrange(
                        old(self).offset as int,
                        final(self).offset as int,
                    )
                    &&& s@.len() > 0
                    &&& (final(self).offset == final(self).text@.len() || !ident_char(
                        final(self).text@[final(self).offset as int],
                    ))
                },
                Err(_) => *final(self) == *old(self),
            },
    {
        let mut ident: Vec<char> = Vec::new();
        let start = self.offset;
        while self.offset < self.text.len() && (char_is_alphanumeric(self.text[self.offset])
            || self.text[self.offset] == '_')
            invariant
                self.pwf(),
                self.text == old(self).text,
                self.generics == old(self).generics,
                start == old(self).offset,
                start <= self.offset,
                ident@.len() == self.offset - start,
                ident@ == self.text@.subrange(start as int, self.offset as int),
                sp_ident_end(self.text@, start as int) == sp_ident_end(
                    self.text@,
                    self.offset as int,
                ),
            decreases self.text@.len() - self.offset,
        {
            let c = self.text[self.offset];
            proof {
                assert(ident_char(self.text@[self.offset as int]));
            }
            ident.push(c);
            self.offset = self.offset + 1;
            proof {
                assert(ident@ =~= self.text@.subrange(start as int, self.offset as int));
            }
        }
        proof {
            assert(sp_ident_end(self.text@, self.offset as int) == self.offset);
            assert(sp_ident_end(self.text@, start as int) == self.offset);
        }
        if ident.len() == 0 {
            let mut one_of: Vec<Expected> = Vec::new();
            one_of.push(Expected::Ident);
            proof {
                assert(view_expected_seq(one_of@) =~= seq![ExpectedV::Ident]);
            }
            return Err(
                ParseError {
                    message: ErrorDetail::Expected { one_of, found: self.current_char() },
                    offset: self.offset,
                },
            );
        }
        Ok(string_from_chars(&ident))
    }

    /// Parse a generic placeholder: an identifier that is in scope.
    pub fn parse_generic_ty(&mut self) -> (r: Result<Type, ParseError>)
        requires
            old(self).pwf(),
        ensures
            final(self).pwf(),
            final(self).text == old(self).text,
            final(self).generics == old(self).generics,
            old(self).offset <= final(self).offset,
            ({
                let sp = sp_generic_ty(
                    old(self).text@,
                    old(self).offset as int,
                    view_strings(old(self).generics@),
                );
                &&& final(self).offset == sp.1
                &&& match (r, sp.0) {
                    (Result::Ok(t), Result::Ok(tv)) => t@ == tv && old(self).offset < final(self).offset,
                    (Result::Err(e), Result::Err(ev)) => e@ == ev,
                    _ => false,
                }
            }),
            match r {
                Ok(t) => t is Generic,
                Err(_) => final(self).offset == old(self).offset,
            },
    {
        let before = self.offset;
        match self.parse_ident() {
            Ok(ident) => {
                if contains_string(&self.generics, &ident) {
                    Ok(Type::Generic(ident))
                } else {
                    self.offset = before;
                    Err(
                        ParseError {
                            message: ErrorDetail::GenericNotFound(ident),
                            offset: self.offset,
                        },
                    )
                }
            },
            Err(e) => Err(e),
        }
    }

    /// Parse a type: a wildcard allocates a fresh variable, an in-scope
    /// identifier is a generic placeholder, anything else must be a named
    /// type. With `check` set, named types must be declared with the right
    /// arity.
    pub fn parse_type(&mut self, ts: &mut TypeSystem, check: bool) -> (r: Result<Type, ParseError>)
        requires
            old(self).pwf(),
            old(ts).wf(),
        ensures
            final(self).pwf(),
            final(self).text == old(self).text,
            final(self).generics == old(self).generics,
            final(ts).wf(),
            state_allocs_only(old(ts)@, final(ts)@),
            old(self).offset <= final(self).offset,
            ({
                let sp = sp_type(
                    old(self).text@,
                    old(self).offset as int,
                    view_strings(old(self).generics@),
                    old(ts)@.decls,
                    old(ts)@.table.len() as nat,
                    check,
                );
                &&& final(self).offset == sp.1
                &&& final(ts)@.table.len() == old(ts)@.table.len() + sp.2
                &&& match (r, sp.0) {
                    (Result::Ok(t), Result::Ok(tv)) => t@ == tv,
                    (Result::Err(e), Result::Err(ev)) => e@ == ev,
                    _ => false,
                }
            }),
            match r {
                Ok(t) => {
                    &&& old(self).offset < final(self).offset
                    &&& !(t@ is Free)
                    &&& check ==> (t@ is Generic || ty_ok(
                        t@,
                        final(ts)@.decls,
                        final(ts)@.table.len() as nat,
                    ))
                },
                Err(_) => true,
            },
        decreases old(self).text@.len() - old(self).offset, 3nat,
    {
        let is_wildcard = match self.current_char() {
            Some(c) => c == '_',
            None => false,
        };
        proof {
            assert(is_wildcard == (cur_char(self.text@, self.offset as int) == Some('_')));
        }
        if is_wildcard {
            self.offset = self.offset + 1;
            let var = self.new_type_var(ts);
            return Ok(var);
        }
        match self.parse_generic_ty() {
            Ok(generic) => {
                proof {
                    lemma_state_allocs_refl(ts@);
                }
                Ok(generic)
            },
            Err(_) => {
                match self.parse_named_ty(ts, check) {
                    Ok(named) => Ok(Type::Named(named)),
                    Err(e) => Err(e),
                }
            },
        }
    }

    /// Parse a named type: an identifier and an optional bracketed argument
    /// list.
    pub fn parse_named_ty(&mut self, ts: &mut TypeSystem, check: bool) -> (r: Result<
        Named,
        ParseError,
    >)
        requires
            old(self).pwf(),
            old(ts).wf(),
        ensures
            final(self).pwf(),
            final(self).text == old(self).text,
            final(self).generics == old(self).generics,
            final(ts).wf(),
            state_allocs_only(old(ts)@, final(ts)@),
            old(self).offset <= final(self).offset,
            ({
                let sp = sp_named(
                    old(self).text@,
                    old(self).offset as int,
                    view_strings(old(self).generics@),
                    old(ts)@.decls,
                    old(ts)@.table.len() as nat,
                    check,
                );
                &&& final(self).offset == sp.1
                &&& final(ts)@.table.len() == old(ts)@.table.len() + sp.2
                &&& match (r, sp.0) {
                    (Result::Ok(nm), Result::Ok(nv)) => nm@ == nv,
                    (Result::Err(e), Result::Err(ev)) => e@ == ev,
                    _ => false,
                }
            }),
            match r {
                Ok(nm) => old(self).offset < final(self).offset && (check ==> ty_ok(
                    TyV::Named(nm@),
                    final(ts)@.decls,
                    final(ts)@.table.len() as nat,
                )),
                Err(_) => true,
            },
        decreases old(self).text@.len() - old(self).offset, 2nat,
    {
        let ident = match self.parse_ident() {
            Ok(s) => s,
            Err(e) => {
                proof {
                    lemma_state_allocs_refl(ts@);
                }
                return Err(e);
            },
        };
        proof {
            assert(clamp_to(
                old(self).text@,
                old(self).offset as int,
                sp_ident(old(self).text@, old(self).offset as int).1,
            ) == self.offset as int);
        }
        let args = match self.parse_args(ts, check) {
            Ok(v) => v,
            Err(e) => {
                return Err(e);
            },
        };
        proof {
            lemma_view_ty_seq(args@);
        }
        if check {
            match ts.get_decl(&ident) {
                Some(decl) => {
                    proof {
                        assert(find_decl(ts@.decls, ident@) == Some(decl@));
                    }
                    if decl.args.len() != args.len() {
                        let expected = decl.args.len();
                        return Err(
                            ParseError {
                                message: ErrorDetail::ArgsMismatch {
                                    name: ident,
                                    expected,
                                    got: args.len(),
                                },
                                offset: self.offset,
                            },
                        );
                    }
                },
                None => {
                    return Err(
                        ParseError {
                            message: ErrorDetail::DeclNotFound(ident),
                            offset: self.offset,
                        },
                    );
                },
            }
        }
        let nm = Named { name: ident, args };
        proof {
            if check {
                lemma_view_ty_seq(nm.args@);
                assert(find_decl(ts@.decls, nm@.name) is Some);
                assert(nm@.args.len() == find_decl(ts@.decls, nm@.name)->Some_0.args.len());
                assert forall|i: int| 0 <= i < nm@.args.len() implies ty_ok(
                    #[trigger] nm@.args[i],
                    ts@.decls,
                    ts@.table.len() as nat,
                ) by {
                    assert(view_ty_seq(nm.args@)[i] == nm.args@[i]@);
                    if !(nm.args@[i]@ is Generic) {
                        assert(ty_ok(nm.args@[i]@, ts@.decls, ts@.table.len() as nat));
                    }
                }
            }
        }
        Ok(nm)
    }

    /// Parse a bracketed argument list, or nothing. An argument that fails
    /// to parse is skipped; the list must still close properly.
    pub fn parse_args(&mut self, ts: &mut TypeSystem, check: bool) -> (r: Result<
        Vec<Type>,
        ParseError,
    >)
        requires
            old(self).pwf(),
            old(ts).wf(),
        ensures
            final(self).pwf(),
            final(self).text == old(self).text,
            final(self).generics == old(self).generics,
            final(ts).wf(),
            state_allocs_only(old(ts)@, final(ts)@),
            old(self).offset <= final(self).offset,
            ({
                let sp = sp_args(
                    old(self).text@,
                    old(self).offset as int,
                    view_strings(old(self).generics@),
                    old(ts)@.decls,
                    old(ts)@.table.len() as nat,
                    check,
                );
                &&& final(self).offset == sp.1
                &&& final(ts)@.table.len() == old(ts)@.table.len() + sp.2
                &&& match (r, sp.0) {
                    (Result::Ok(v), Result::Ok(tys)) => view_ty_seq(v@) == tys,
                    (Result::Err(e), Result::Err(ev)) => e@ == ev,
                    _ => false,
                }
            }),
            match r {
                Ok(v) => forall|j: int|
                    0 <= j < v@.len() ==> !((#[trigger] v@[j])@ is Free) && (check ==> (v@[j]@
                        is Generic || ty_ok(v@[j]@, final(ts)@.decls, final(ts)@.table.len() as nat))),
                Err(_) => true,
            },
        decreases old(self).text@.len() - old(self).offset, 1nat,
    {
        let ghost text = self.text@;
        let ghost gens = view_strings(self.generics@);
        let ghost ds = old(ts)@.decls;
        let ghost nbase = old(ts)@.table.len() as nat;
        let mut found: Vec<Type> = Vec::new();
        let has_bracket = match self.current_char() {
            Some(c) => c == '[',
            None => false,
        };
        proof {
            assert(has_bracket == (cur_char(text, self.offset as int) == Some('[')));
        }
        if !has_bracket {
            proof {
                lemma_state_allocs_refl(ts@);
                assert(view_ty_seq(found@) =~= Seq::<TyV>::empty());
            }
            return Ok(found);
        }
        let entry = self.offset;
        self.offset = self.offset + 1;
        let ghost full = sp_args_items(text, entry as int + 1, gens, ds, nbase, check);
        proof {
            assert(sp_args(text, entry as int, gens, ds, nbase, check) == (full.0, full.1, full.2));
            assert(view_ty_seq(found@) =~= Seq::<TyV>::empty());
        }
        loop
            invariant
                self.pwf(),
                self.text == old(self).text,
                self.generics == old(self).generics,
                entry < self.offset,
                entry == old(self).offset,
                text == old(self).text@,
                gens == view_strings(old(self).generics@),
                ds == old(ts)@.decls,
                nbase == old(ts)@.table.len() as nat,
                cur_char(text, entry as int) == Some('['),
                ts.wf(),
                state_allocs_only(old(ts)@, ts@),
                full == sp_args_items(text, entry as int + 1, gens, ds, nbase, check),
                full.1 == sp_args_items(
                    text,
                    self.offset as int,
                    gens,
                    ds,
                    ts@.table.len() as nat,
                    check,
                ).1,
                full.2 == (ts@.table.len() - nbase) + sp_args_items(
                    text,
                    self.offset as int,
                    gens,
                    ds,
                    ts@.table.len() as nat,
                    check,
                ).2,
                (match sp_args_items(text, self.offset as int, gens, ds, ts@.table.len() as nat, check).0 {
                    Result::Ok(more) => full.0 is Ok && full.0->Ok_0 == view_ty_seq(found@) + more,
                    Result::Err(ev) => full.0 is Err && full.0->Err_0 == ev,
                }),
                forall|j: int|
                    0 <= j < found@.len() ==> !((#[trigger] found@[j])@ is Free) && (check ==> (
                    found@[j]@ is Generic || ty_ok(found@[j]@, ts@.decls, ts@.table.len() as nat))),
            decreases self.text@.len() - self.offset,
        {
            let ghost mid = ts@;
            let ghost round = self.offset as int;
            let ghost rem = sp_args_items(text, round, gens, ds, mid.table.len() as nat, check);
            let ghost spt = sp_type(text, round, gens, ds, mid.table.len() as nat, check);
            let ghost tys_round: Seq<TyV> = (match spt.0 {
                Result::Ok(tv) => seq![tv],
                Result::Err(_) => Seq::empty(),
            });
            let ghost fpre = found@;
            match self.parse_type(ts, check) {
                Ok(ty) => {
                    found.push(ty);
                    proof {
                        lemma_state_allocs_trans(old(ts)@, mid, ts@);
                        lemma_view_ty_seq(found@);
                        lemma_view_ty_seq(fpre);
                        assert(view_ty_seq(found@) =~= view_ty_seq(fpre) + tys_round);
                        assert forall|j: int| 0 <= j < found@.len() implies !((#[trigger] found@[j])@
                            is Free) && (check ==> (found@[j]@ is Generic || ty_ok(
                            found@[j]@,
                            ts@.decls,
                            ts@.table.len() as nat,
                        ))) by {
                            if j < found@.len() - 1 {
                                assert(found@[j] == fpre[j]);
                                if check && !(found@[j]@ is Generic) {
                                    crate::lemmas::lemma_ty_ok_mono(
                                        found@[j]@,
                                        mid.decls,
                                        mid.table.len() as nat,
                                        ts@.decls,
                                        ts@.table.len() as nat,
                                    );
                                }
                            }
                        }
                    }
                },
                Err(_) => {
                    proof {
                        lemma_state_allocs_trans(old(ts)@, mid, ts@);
                        assert(view_ty_seq(found@) =~= view_ty_seq(fpre) + tys_round);
                        assert forall|j: int| 0 <= j < found@.len() implies !((#[trigger] found@[j])@
                            is Free) && (check ==> (found@[j]@ is Generic || ty_ok(
                            found@[j]@,
                            ts@.decls,
                            ts@.table.len() as nat,
                        ))) by {
                            if check && !(found@[j]@ is Generic) {
                                crate::lemmas::lemma_ty_ok_mono(
                                    found@[j]@,
                                    mid.decls,
                                    mid.table.len() as nat,
                                    ts@.decls,
                                    ts@.table.len() as nat,
                                );
                            }
                        }
                    }
                },
            }
            proof {
                assert(self.offset as int == spt.1);
                assert(ts@.table.len() == mid.table.len() + spt.2);
            }
            self.skip_ws();
            let ghost j2 = self.offset as int;
            proof {
                assert(j2 == sp_skip_ws(text, spt.1));
            }
            let next = self.current_char();
            proof {
                assert(next == cur_char(text, j2));
            }
            let is_close = match next {
                Some(c) => c == ']',
                None => false,
            };
            if is_close {
                self.offset = self.offset + 1;
                proof {
                    assert(rem == (Result::<Seq<TyV>, ParseErrorV>::Ok(tys_round), j2 + 1, spt.2));
                    assert(full.0 is Ok && full.0->Ok_0 == view_ty_seq(fpre) + tys_round);
                    assert(full.0->Ok_0 == view_ty_seq(found@));
                    assert(full.1 == j2 + 1);
                    assert(full.2 == (mid.table.len() - nbase) + spt.2);
                    assert(sp_args(text, entry as int, gens, ds, nbase, check) == full);
                }
                return Ok(found);
            }
            let is_comma = match next {
                Some(c) => c == ',',
                None => false,
            };
            if is_comma {
                self.offset = self.offset + 1;
                proof {
                    assert(round <= j2);
                    let rest = sp_args_items(
                        text,
                        j2 + 1,
                        gens,
                        ds,
                        (mid.table.len() + spt.2) as nat,
                        check,
                    );
                    assert(rem.1 == rest.1);
                    assert(rem.2 == (spt.2 + rest.2) as nat);
                    if rest.0 is Ok {
                        assert(rem.0 is Ok && rem.0->Ok_0 == tys_round + rest.0->Ok_0);
                        assert(view_ty_seq(fpre) + (tys_round + rest.0->Ok_0) =~= view_ty_seq(
                            found@,
                        ) + rest.0->Ok_0);
                    } else {
                        assert(rem.0 is Err && rem.0->Err_0 == rest.0->Err_0);
                    }
                }
            } else {
                let mut one_of: Vec<Expected> = Vec::new();
                one_of.push(Expected::Char(','));
                one_of.push(Expected::Char(']'));
                proof {
                    assert(view_expected_seq(one_of@) =~= seq![
                        ExpectedV::Char(','),
                        ExpectedV::Char(']'),
                    ]);
                    assert(rem.0 is Err);
                    assert(full.0 is Err && full.0->Err_0 == rem.0->Err_0);
                    assert(full.1 == j2);
                    assert(full.2 == (mid.table.len() - nbase) + spt.2);
                    assert(sp_args(text, entry as int, gens, ds, nbase, check) == full);
                }
                return Err(
                    ParseError {
                        message: ErrorDetail::Expected { one_of, found: next },
                        offset: self.offset,
                    },
                );
            }
        }
    }

    /// Record one fresh generic name; a repeated name is an error.
    pub fn parse_generic_arg(&mut self) -> (r: Result<(), ParseError>)
        requires
            old(self).pwf(),
        ensures
            final(self).pwf(),
            final(self).text == old(self).text,
            old(self).offset <= final(self).offset,
            ({
                let sp = sp_generic_arg(
                    old(self).text@,
                    old(self).offset as int,
                    view_strings(old(self).generics@),
                );
                &&& final(self).offset == sp.1
                &&& match (r, sp.0) {
                    (Result::Ok(()), Result::Ok(nv)) => view_strings(final(self).generics@)
                        == view_strings(old(self).generics@).push(nv),
                    (Result::Err(e), Result::Err(ev)) => e@ == ev,
                    _ => false,
                }
            }),
            match r {
                Ok(()) => {
                    &&& old(self).offset < final(self).offset
                    &&& final(self).generics@.len() == old(self).generics@.len() + 1
                    &&& forall|j: int|
                        0 <= j < old(self).generics@.len() ==> final(self).generics@[j] == old(
                            self,
                        ).generics@[j]
                    &&& !view_strings(old(self).generics@).contains(
                        view_strings(final(self).generics@).last(),
                    )
                },
                Err(_) => final(self).generics == old(self).generics,
            },
    {
        let name = match self.parse_ident() {
            Ok(s) => s,
            Err(e) => {
                return Err(e);
            },
        };
        if contains_string(&self.generics, &name) {
            return Err(
                ParseError { message: ErrorDetail::GenericAlreadyDefined(name), offset: self.offset },
            );
        }
        let ghost pre = self.generics@;
        self.generics.push(name);
        proof {
            assert(view_strings(self.generics@).last() == self.generics@.last()@);
            assert(view_strings(self.generics@) =~= view_strings(pre).push(name@));
        }
        Ok(())
    }

    /// Parse a bracketed list of distinct generic names into scope.
    pub fn parse_generics(&mut self) -> (r: Result<(), ParseError>)
        requires
            old(self).pwf(),
            old(self).generics@.len() == 0,
        ensures
            final(self).pwf(),
            final(self).text == old(self).text,
            old(self).offset <= final(self).offset,
            ({
                let sp = sp_generics(old(self).text@, old(self).offset as int);
                &&& final(self).offset == sp.1
                &&& match (r, sp.0) {
                    (Result::Ok(()), Result::Ok(gens)) => view_strings(final(self).generics@)
                        == gens,
                    (Result::Err(e), Result::Err(ev)) => e@ == ev,
                    _ => false,
                }
            }),
            forall|i: int, j: int|
                0 <= i < j < view_strings(final(self).generics@).len() ==> view_strings(
                    final(self).generics@,
                )[i] != view_strings(final(self).generics@)[j],
    {
        let ghost text = self.text@;
        let ghost entry = self.offset as int;
        proof {
            lemma_distinct_empty(self.generics@);
        }
        let has_bracket = match self.current_char() {
            Some(c) => c == '[',
            None => false,
        };
        proof {
            assert(has_bracket == (cur_char(text, entry) == Some('[')));
        }
        if !has_bracket {
            let mut one_of: Vec<Expected> = Vec::new();
            one_of.push(Expected::Char('['));
            proof {
                assert(view_expected_seq(one_of@) =~= seq![ExpectedV::Char('[')]);
            }
            return Err(
                ParseError {
                    message: ErrorDetail::Expected { one_of, found: self.current_char() },
                    offset: self.offset,
                },
            );
        }
        self.offset = self.offset + 1;
        self.skip_ws();
        let ghost j0 = self.offset as int;
        let at_close = match self.current_char() {
            Some(c) => c == ']',
            None => false,
        };
        proof {
            assert(at_close == (cur_char(text, j0) == Some(']')));
        }
        if at_close {
            self.offset = self.offset + 1;
            proof {
                assert(view_strings(self.generics@) =~= Seq::<Seq<char>>::empty());
            }
            return Ok(());
        }
        let ghost full = sp_generics(text, entry);
        proof {
            assert(clamp_to(text, entry + 1, j0) == j0);
            assert(full == sp_generics_items(text, j0, Seq::<Seq<char>>::empty()));
            assert(view_strings(self.generics@) =~= Seq::<Seq<char>>::empty());
        }
        loop
            invariant
                self.pwf(),
                self.text == old(self).text,
                text == old(self).text@,
                old(self).offset <= self.offset,
                full == sp_generics(old(self).text@, old(self).offset as int),
                full == sp_generics_items(text, self.offset as int, view_strings(self.generics@)),
                forall|i: int, j: int|
                    0 <= i < j < view_strings(self.generics@).len() ==> view_strings(
                        self.generics@,
                    )[i] != view_strings(self.generics@)[j],
            decreases self.text@.len() - self.offset,
        {
            let ghost gpre = self.generics@;
            let ghost round = self.offset as int;
            let before = self.offset;
            match self.parse_generic_arg() {
                Ok(()) => {
                    proof {
                        lemma_distinct_push(gpre, self.generics@);
                    }
                },
                Err(e) => {
                    return Err(e);
                },
            }
            self.skip_ws();
            let ghost j2 = self.offset as int;
            let at_close2 = match self.current_char() {
                Some(c) => c == ']',
                None => false,
            };
            proof {
                assert(at_close2 == (cur_char(text, j2) == Some(']')));
            }
            if at_close2 {
                self.offset = self.offset + 1;
                return Ok(());
            }
            match self.expect(',') {
                Ok(()) => {},
                Err(e) => {
                    proof {
                        assert(cur_char(text, j2) != Some(','));
                        assert(full.0 is Err && full.0->Err_0 == e@);
                        assert(full.1 == j2);
                    }
                    return Err(e);
                },
            }
            self.skip_ws();
            proof {
                assert(self.offset > before);
                assert(round <= j2);
                assert(clamp_to(text, j2 + 1, sp_skip_ws(text, j2 + 1)) == self.offset as int);
            }
        }
    }

    /// Parse an implementation edge: its generic list, the `to` pattern, the
    /// keyword `for`, and the `from` pattern. The generic scope is cleared
    /// afterwards.
    pub fn parse_impl(&mut self, ts: &mut TypeSystem) -> (r: Result<Impl, ParseError>)
        requires
            old(self).pwf(),
            old(self).generics@.len() == 0,
            old(ts).wf(),
        ensures
            final(self).pwf(),
            final(ts).wf(),
            state_allocs_only(old(ts)@, final(ts)@),
            ({
                let sp = sp_impl(
                    old(self).text@,
                    old(self).offset as int,
                    old(ts)@.decls,
                    old(ts)@.table.len() as nat,
                );
                &&& final(self).offset == sp.1
                &&& final(ts)@.table.len() == old(ts)@.table.len() + sp.2
                &&& match (r, sp.0) {
                    (Result::Ok(im), Result::Ok(iv)) => im@ == iv,
                    (Result::Err(e), Result::Err(ev)) => e@ == ev,
                    _ => false,
                }
            }),
            match r {
                Ok(im) => impl_ok(im@, final(ts)@.decls, final(ts)@.table.len() as nat)
                    && final(self).generics@.len() == 0,
                Err(_) => true,
            },
    {
        match self.parse_generics() {
            Ok(()) => {},
            Err(e) => {
                proof {
                    lemma_state_allocs_refl(ts@);
                }
                return Err(e);
            },
        }
        self.skip_ws();
        let to = match self.parse_named_ty(ts, true) {
            Ok(nm) => nm,
            Err(e) => {
                return Err(e);
            },
        };
        self.skip_ws();
        let ghost mid1 = ts@;
        let for_ = match self.parse_ident() {
            Ok(s) => s,
            Err(e) => {
                return Err(e);
            },
        };
        let kw = kw_for();
        if !string_eq(&for_, &kw) {
            let found = first_char(&for_);
            let one_of = expected_keyword_for();
            proof {
                lemma_state_allocs_trans(old(ts)@, mid1, ts@);
            }
            return Err(
                ParseError {
                    message: ErrorDetail::Expected { one_of, found },
                    offset: self.offset,
                },
            );
        }
        self.skip_ws();
        let ghost mid2 = ts@;
        let from = match self.parse_named_ty(ts, true) {
            Ok(nm) => nm,
            Err(e) => {
                proof {
                    lemma_state_allocs_trans(old(ts)@, mid2, ts@);
                }
                return Err(e);
            },
        };
        proof {
            lemma_state_allocs_trans(old(ts)@, mid2, ts@);
        }
        let args = crate::ty::args::clone_strings(&self.generics);
        self.generics = Vec::new();
        let im = Impl { from, to, args, bounds: Vec::new() };
        proof {
            crate::lemmas::lemma_ty_ok_mono(
                TyV::Named(im.to@),
                mid2.decls,
                mid2.table.len() as nat,
                ts@.decls,
                ts@.table.len() as nat,
            );
            assert(crate::ty::bound::view_bound_seq(im.bounds@) =~= Seq::<
                crate::model::BoundV,
            >::empty());
        }
        Ok(im)
    }
}

/// The keyword that separates the two patterns of an implementation.
fn kw_for() -> (r: String)
    ensures
        r@ == seq!['f', 'o', 'r'],
{
    let mut v: Vec<char> = Vec::new();
    v.push('f');
    v.push('o');
    v.push('r');
    proof {
        assert(v@ =~= seq!['f', 'o', 'r']);
    }
    string_from_chars(&v)
}

/// The expectation reported when the keyword is missing.
fn expected_keyword_for() -> (r: Vec<Expected>)
    ensures
        view_expected_seq(r@) == seq![ExpectedV::Keyword(seq!['f', 'o', 'r'])],
{
    let mut one_of: Vec<Expected> = Vec::new();
    one_of.push(Expected::Keyword(kw_for()));
    proof {
        assert(view_expected_seq(one_of@) =~= seq![ExpectedV::Keyword(seq!['f', 'o', 'r'])]);
    }
    one_of
}

/// The first character of an identifier, reported as the offending input.
fn first_char(s: &String) -> (r: Option<char>)
    ensures
        r == (if s@.len() > 0 {
            Some(s@[0])
        } else {
            Option::<char>::None
        }),
{
    let v = str_chars(s.as_str());
    if v.len() > 0 {
        Some(v[0])
    } else {
        None
    }
}

/// Allocation-only evolution is reflexive.
pub proof fn lemma_state_allocs_refl(s: StateV)
    requires
        s.counter == s.table.len(),
    ensures
        state_allocs_only(s, s),
{
}

/// Allocation-only evolution composes.
pub proof fn lemma_state_allocs_trans(s1: StateV, s2: StateV, s3: StateV)
    requires
        state_allocs_only(s1, s2),
        state_allocs_only(s2, s3),
    ensures
        state_allocs_only(s1, s3),
{
    assert forall|i: int| 0 <= i < s1.table.len() implies s3.table[i] == #[trigger] s1.table[i] by {
        assert(s2.table[i] == s1.table[i]);
        assert(s3.table[i] == s2.table[i]);
    }
    assert forall|i: int| s1.table.len() <= i < s3.table.len() implies #[trigger] s3.table[i] is Free by {
        if i < s2.table.len() {
            assert(s3.table[i] == s2.table[i]);
        }
    }
}

pub proof fn lemma_distinct_empty(s: Seq<String>)
    requires
        s.len() == 0,
    ensures
        forall|i: int, j: int|
            0 <= i < j < view_strings(s).len() ==> view_strings(s)[i] != view_strings(s)[j],
{
}

/// Pushing a name absent from a duplicate-free list keeps it duplicate-free.
pub proof fn lemma_distinct_push(pre: Seq<String>, post: Seq<String>)
    requires
        forall|i: int, j: int|
            0 <= i < j < view_strings(pre).len() ==> view_strings(pre)[i] != view_strings(pre)[j],
        post.len() == pre.len() + 1,
        forall|j: int| 0 <= j < pre.len() ==> post[j] == pre[j],
        !view_strings(pre).contains(view_strings(post).last()),
    ensures
        forall|i: int, j: int|
            0 <= i < j < view_strings(post).len() ==> view_strings(post)[i] != view_strings(post)[j],
{
    assert forall|i: int, j: int|
        0 <= i < j < view_strings(post).len() implies view_strings(post)[i] != view_strings(
        post,
    )[j] by {
        if j < pre.len() {
            assert(view_strings(post)[i] == view_strings(pre)[i]);
            assert(view_strings(post)[j] == view_strings(pre)[j]);
        } else {
            assert(view_strings(post)[j] == view_strings(post).last());
            assert(view_strings(post)[i] == view_strings(pre)[i]);
            if view_strings(post)[i] == view_strings(post)[j] {
                assert(view_strings(pre).contains(view_strings(post).last()));
            }
        }
    }
}

impl TypeSystem {
    /// Parse and record a declaration: an identifier, optionally followed by
    /// a bracketed list of distinct generic names. Re-declaring an existing
    /// name is an error.
    pub fn parse_decl(&mut self, text: &str) -> (r: Result<(), ParseError>)
        requires
            old(self).wf(),
        ensures
            final(self).wf(),
            match (r, sp_decl(text@, old(self)@.decls)) {
                (Result::Ok(()), Result::Ok(dv)) => final(self)@ == (StateV {
                    decls: old(self)@.decls.push(dv),
                    ..old(self)@
                }),
                (Result::Err(e), Result::Err(ev)) => e@ == ev && final(self)@ == old(self)@,
                _ => false,
            },
    {
        let mut state = ParserState::new(text);
        let ghost tv = text@;
        let name = match state.parse_ident() {
            Ok(s) => s,
            Err(e) => {
                return Err(e);
            },
        };
        match self.get_decl(&name) {
            Some(_) => {
                proof {
                    assert(find_decl(self@.decls, name@) is Some);
                }
                return Err(
                    ParseError {
                        message: ErrorDetail::DeclAlreadyDefined(name),
                        offset: state.offset,
                    },
                );
            },
            None => {},
        }
        state.skip_ws();
        let ghost j = state.offset as int;
        let done = state.is_eof();
        proof {
            assert(done == (j >= tv.len()));
        }
        if !done {
            match state.parse_generics() {
                Ok(()) => {},
                Err(e) => {
                    return Err(e);
                },
            }
        }
        let generics = crate::ty::args::clone_strings(&state.generics);
        let ghost gview = view_strings(state.generics@);
        proof {
            assert(view_strings(generics@) == gview);
            if done {
                assert(gview =~= Seq::<Seq<char>>::empty());
            }
        }
        let decl = Decl { name, args: generics, bounds: Vec::new() };
        proof {
            assert(crate::ty::bound::view_bound_seq(decl.bounds@) =~= Seq::<
                crate::model::BoundV,
            >::empty());
            assert(sp_decl(tv, self@.decls) == Result::<DeclV, ParseErrorV>::Ok(decl@));
        }
        self.add_decl(decl);
        Ok(())
    }

    /// Parse and record an implementation edge.
    pub fn parse_impl(&mut self, text: &str) -> (r: Result<(), ParseError>)
        requires
            old(self).wf(),
        ensures
            final(self).wf(),
            ({
                let sp = sp_impl(text@, 0, old(self)@.decls, old(self)@.table.len() as nat);
                match (r, sp.0) {
                    (Result::Ok(()), Result::Ok(iv)) => final(self)@ == (StateV {
                        counter: (old(self)@.table.len() + sp.2) as nat,
                        table: old(self)@.table + Seq::new(sp.2, |t: int| TyV::Free),
                        impls: old(self)@.impls.push(iv),
                        ..old(self)@
                    }),
                    (Result::Err(e), Result::Err(ev)) => e@ == ev && state_allocs_only(
                        old(self)@,
                        final(self)@,
                    ) && final(self)@.table.len() == old(self)@.table.len() + sp.2,
                    _ => false,
                }
            }),
    {
        let mut state = ParserState::new(text);
        let impl_ = match state.parse_impl(self) {
            Ok(im) => im,
            Err(e) => {
                return Err(e);
            },
        };
        let ghost iv = impl_@;
        let ghost mid = self@;
        proof {
            assert(impl_ok(iv, self@.decls, self@.table.len() as nat));
        }
        self.add_impl(impl_);
        proof {
            let ghost sp = sp_impl(text@, 0, old(self)@.decls, old(self)@.table.len() as nat);
            assert(mid.table == old(self)@.table + Seq::new(sp.2, |t: int| TyV::Free)) by {
                assert forall|t: int|
                    0 <= t < mid.table.len() implies #[trigger] mid.table[t] == (old(self)@.table
                    + Seq::new(sp.2, |u: int| TyV::Free))[t] by {
                    if t < old(self)@.table.len() {
                        assert(mid.table[t] == old(self)@.table[t]);
                    } else {
                        assert(mid.table[t] is Free);
                    }
                }
                assert(mid.table =~= old(self)@.table + Seq::new(sp.2, |u: int| TyV::Free));
            }
        }
        Ok(())
    }

    /// Parse a type against the current declarations, allocating fresh
    /// variables for wildcards.
    pub fn parse_type(&mut self, text: &str) -> (r: Result<Type, ParseError>)
        requires
            old(self).wf(),
        ensures
            final(self).wf(),
            state_allocs_only(old(self)@, final(self)@),
            ({
                let sp = sp_type(
                    text@,
                    0,
                    Seq::empty(),
                    old(self)@.decls,
                    old(self)@.table.len() as nat,
                    true,
                );
                &&& final(self)@.table.len() == old(self)@.table.len() + sp.2
                &&& match (r, sp.0) {
                    (Result::Ok(t), Result::Ok(tv)) => t@ == tv,
                    (Result::Err(e), Result::Err(ev)) => e@ == ev,
                    _ => false,
                }
            }),
            match r {
                Ok(t) => t@ is Generic || ty_ok(t@, final(self)@.decls, final(self)@.table.len() as nat),
                Err(_) => true,
            },
    {
        let mut state = ParserState::new(text);
        proof {
            assert(view_strings(state.generics@) =~= Seq::<Seq<char>>::empty());
        }
        state.parse_type(self, true)
    }
}

} // verus!
