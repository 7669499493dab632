//! What holds of every run.

pub mod documents;
pub mod ending;
pub mod growth;
pub mod independence;
pub mod matched;
pub mod modules;
pub mod places;
pub mod replaced;
pub mod reported;
pub mod results;
pub mod returned;
pub mod settled;
pub mod steps;
pub mod terms;
pub mod types;
pub mod views;
