//! Continuum: a reader for comics stored as `.cbz` archives, read as one
//! continuous stream across the chapters of a series.
use vstd::prelude::*;

pub mod archive;
pub mod cache;
pub mod cli;
pub mod engine;
pub mod keys;
pub mod names;
pub mod ranking;
pub mod reading;
pub mod requests;
pub mod stream;
pub mod text;
pub mod url;

verus! {
} // verus!
