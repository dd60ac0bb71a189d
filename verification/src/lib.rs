//! Near-duplicate clustering and storage-outlier detection over file records.
//!
//! The library works on plain values: a record of each file (path, size,
//! fuzzy hash), the outcome of comparing fuzzy hashes pair by pair, and the
//! paths that a directory walk listed. It reads no file and compares no
//! hash itself.
//!
//! * [`distance`] turns similarity scores into a symmetric distance matrix,
//!   held in [`matrix`].
//! * [`dbscan`] labels the files of a matrix by density; [`cluster`] turns
//!   the labels into clusters with their statistics; [`clustering`] is the
//!   entry point that puts the three together.
//! * [`lsh`], [`batch`] and [`merge`] cluster bucket by bucket where there
//!   are too many files to compare each with each.
//! * [`outliers`], [`consumers`] and [`patterns`] find large files, known
//!   space-wasting directories and series of numbered or dated files;
//!   [`report`] composes them.
//! * [`duplicates`] and [`search`] group files by checksum or similarity and
//!   select paths by a pattern; [`mcp`] routes the requests of the tool
//!   server.
//! * [`laws`] and [`unique`] state what holds of every clustering.
//! * [`outside`] holds the calls into other crates and into `std` whose
//!   contracts are taken on trust.

pub mod batch;
pub mod cluster;
pub mod clustering;
pub mod consumers;
pub mod dbscan;
pub mod distance;
pub mod duplicates;
pub mod group;
pub mod laws;
pub mod lsh;
pub mod matrix;
pub mod mcp;
pub mod merge;
pub mod model;
pub mod outliers;
pub mod outside;
pub mod patterns;
pub mod rank;
pub mod report;
pub mod search;
pub mod text;
pub mod totals;
pub mod unique;
