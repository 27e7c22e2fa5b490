//! Algebraically parameterized range-query structures.
//!
//! The crate is organized around a tower of algebraic capability traits
//! (`Magma`, `Unital`, `Associative`, `Commutative`, `Invertible`, and the
//! derived `Monoid` / `AbelianMonoid` / `Group` aliases) together with the
//! Fenwick-tree family built on top of them: a one-dimensional
//! `BinaryIndexedTree` and a two-dimensional `BinaryIndexedTree2D`, each
//! gaining extra operations when the underlying operation is invertible.
//!
//! Index bounds are preconditions: every operation states the positions it
//! accepts in its `requires` clause, and verified callers must discharge
//! them, so no verified path performs an out-of-bounds access or panics.

pub mod algebra;
pub mod automaton;
pub mod binary_indexed_tree;
pub mod binary_indexed_tree_2d;
pub mod folds;
pub mod lowbit;
pub mod num;
pub mod ring;
