//! Class rules for a structural type checker of a TypeScript-like language.
//!
//! The library decides what a class declaration is reported for and what it
//! resolves to, and in which order its members are resolved. It works on
//! plain summaries of the syntax tree ([`syntax`]) and of types ([`types`]);
//! expressions and types themselves stay with the type checker that calls
//! it.
//!
//! - [`shape`]: rules on the raw member list, before any type is known.
//! - [`members`]: rules on single members.
//! - [`class`]: rules on the class as a whole, and the order of resolution.
//! - [`merge`]: merging of getters and setters.
//! - [`inherit`]: rules that hold a class against its super class and the
//!   interfaces that it implements.
//! - [`order`]: the evaluation order of members that depend on each other,
//!   with what holds of it in [`order_laws`].

pub mod class;
pub mod errors;
pub mod inherit;
pub mod members;
pub mod merge;
pub mod order;
pub mod order_laws;
pub mod result_ext;
pub mod seq_facts;
pub mod shape;
pub mod syntax;
pub mod types;
