//! A small declarative type system: named type declarations with generic
//! parameters and constraints, implementation edges that let one named type
//! stand in for another, unification of types containing unresolved
//! variables, and a propositional constraint layer that reduces goals to a
//! normal form while binding variables.

pub mod batch;
pub mod chars;
pub mod laws;
pub mod lemmas;
pub mod logic;
pub mod model;
pub mod repl;
pub mod state;
pub mod ty;
