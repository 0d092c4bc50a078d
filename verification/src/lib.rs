//! A subset checker for function bodies in a simplified mid-level IR.
//!
//! A [`SubsetVisitor`] walks bodies and items. It reports each construct that is outside the subset,
//! leaves an obligation for each one that can fail at run time, and notes each check that it could
//! not make, so that nothing is accepted in silence. What it finds in a construct is a function of
//! the construct and of the settings, given in [`walk`]; the laws of that function are in [`laws`].

pub mod callsite;
pub mod capture;
pub mod clauses;
pub mod config;
pub mod diagnostic;
pub mod findings;
pub mod laws;
pub mod locals;
pub mod messages;
pub mod mir_api;
pub mod paths;
pub mod postcondition;
pub mod predicate;
pub mod rules;
pub mod text;
pub mod types;
pub mod vc;
pub mod visitor;
pub mod walk;

pub use crate::config::SubsetConfig;
pub use crate::diagnostic::SubsetReport;
pub use crate::visitor::SubsetVisitor;
