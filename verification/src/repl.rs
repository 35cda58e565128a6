//! The interactive command vocabulary: what a read line means to the engine.

use vstd::prelude::*;

use crate::logic::Logic;
use crate::ty::Type;

verus! {

/// One interactive command: pose a goal, evaluate a formula once, record a
/// declaration or an implementation, list what the context holds, instantiate
/// a type, or resolve one through the variable table.
#[derive(Debug)]
pub enum ReplCommand {
    Goal(Logic),
    Eval(Logic),
    Impl,
    Decl,
    List(ListItem),
    New(Type),
    Resolve(Type),
}

/// What to list: declarations, implementations (optionally of one name), or
/// the variable table.
#[derive(Debug)]
pub enum ListItem {
    Decl,
    Impl(Option<String>),
    Vars,
}

} // verus!
