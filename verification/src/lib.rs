//! A parser for legacy fixed-column crystallographic structure files.
//!
//! The crate decodes the line-oriented records of such a file into typed
//! values, folds them into a hierarchical model (structure, models, chains,
//! residues, atoms) with find-or-create insertion, and reconciles the model
//! against a declared checksum record, grading every deviation by severity.

pub mod atom;
pub mod builder;
pub mod chain;
pub mod diag;
pub mod laws;
pub mod model;
pub mod num;
pub mod parser;
pub mod pdb;
pub mod record;
pub mod tables;
pub mod transform;
pub mod validate;
