//! Typed Petri-net building blocks whose token types are nodes of a taxonomy:
//! the taxonomy and its partial order (`clade`), tuples of types under the
//! product order (`signature`), predicates over bindings of keys to types
//! (`guard`, `binding`), and transitions that keep only guards they can bind
//! (`transition`).

pub mod address;
pub mod binding;
pub mod clade;
pub mod function;
pub mod guard;
mod id;
pub mod net;
pub mod place;
pub mod signature;
pub mod symbol;
pub mod token;
pub mod transition;
