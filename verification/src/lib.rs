//! Logistic regression by batch gradient descent: the shape rules of a
//! training set, the order in which a fit visits rows and parameters, the
//! grammar of a training record, and the command-line argument rule.
//!
//! The library decides; the arithmetic on real numbers and the reading of
//! files are left to the caller, who performs each step that the schedule
//! hands out.

pub mod args;
pub mod record;
pub mod schedule;
pub mod shape;
