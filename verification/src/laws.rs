//! What holds of the checker as a whole.

pub mod assumptions;
pub mod bodies;
pub mod calls;
pub mod callsite;
pub mod capture;
pub mod clauses;
pub mod completeness;
pub mod constants;
pub mod constructs;
pub mod integers;
pub mod meaning;
pub mod methods;
pub mod obligations;
pub mod paths;
pub mod postcondition;
pub mod reading;
pub mod recording;
pub mod reports;
pub mod results;
pub mod runs;
pub mod scripts;
pub mod solver;
pub mod soundness;
pub mod specs;
pub mod tables;
pub mod terms;
pub mod types;
pub mod walk;
