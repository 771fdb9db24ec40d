//! Batch subtraction of one query sketch's hash content from many target
//! signatures.
//!
//! The library models signatures as containers of sketch variants, selects
//! the hash-set sketch matching a parameter template, removes a mask of hash
//! values from it by exact set difference, and computes the deterministic
//! output layout. Reading and writing signature files, and the parallel
//! scheduling of targets, live outside the library; every decision they
//! depend on is a verified function here.

pub mod lines;
pub mod outpath;
pub mod pipeline;
pub mod scaled;
pub mod select;
pub mod sketch;
pub mod subtract;
