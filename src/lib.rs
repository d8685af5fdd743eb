//! A small PLONK-style arithmetization engine: columns, polynomial gates,
//! regions, copy constraints and public-input bindings over a prime field,
//! with a checker that reports every violated constraint.
pub mod field;
pub mod circuit;
pub mod layout;
pub mod check;
pub mod tutorial;
pub mod theorems;
pub mod driver;
