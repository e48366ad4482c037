//! Finds the images under a directory that pass a set of filters.
//!
//! The candidates are the paths that a traversal yields and that end in a
//! supported image extension. They are narrowed by ranges on width and
//! height, and by filters on a score that a metadata file gives for each
//! image. What is left is listed in the order of the traversal.
//!
//! The library reads no file and prints nothing. It decides what is to be
//! found out next, and what follows from each answer: see [`pipeline`]. What
//! a whole run comes to is stated, and proved of the steps, in [`outcome`].

pub mod candidates;
pub mod dimensions;
pub mod error;
pub mod extension;
pub mod metadata;
pub mod outcome;
pub mod pipeline;
pub mod score;
pub mod settings;
pub mod store;
