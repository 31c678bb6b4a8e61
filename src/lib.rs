//! A flare tree: a hierarchy of directories and files mirroring a scanned
//! directory tree, where each file carries the values that a set of metric
//! calculators computed for it.
pub mod flare;
pub mod walker;
pub mod calculators;
