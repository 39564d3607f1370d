//! Checks and a harness that detect likely typosquatting in a package registry.
//!
//! A [`Corpus`] of popular packages is consulted by a set of name-mutation checks, each of
//! which reconstructs the names that a suspect name could be imitating and asks the corpus
//! whether each of them is a plausible target.

pub mod checks;
pub mod corpus;
mod error;
mod harness;
mod package;

pub use corpus::Corpus;
pub use error::{Error, Error as HarnessError};
pub use harness::{flagged_entry, AnyCheck, Builder as HarnessBuilder, Harness};
pub use package::{AuthorSet, Package};
