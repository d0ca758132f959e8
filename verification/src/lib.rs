//! Path-list de-duplication.
//!
//! A path-list variable such as `PATH` holds directory names joined by a
//! platform separator (`:` or `;`).  This crate splits such a value into its
//! entries, drops every entry that repeats an earlier one (first occurrence
//! wins), optionally drops entries that a caller-supplied existence flag
//! rules out, and joins the survivors back into a single value.
//!
//! All of the list manipulation is verified: the executable functions in
//! [`listops`] and [`dedup`] carry contracts over the specification functions
//! of [`model`], and [`laws`] proves the global properties of the pipeline
//! (no duplicates, order preservation, idempotence, the count invariant).

pub mod dedup;
pub mod laws;
pub mod listops;
pub mod model;

pub use dedup::dedup_list;
pub use dedup::dedupe_value;
pub use dedup::process;
pub use dedup::Outcome;
pub use dedup::Verdict;
pub use listops::join_list;
pub use listops::split_list;
pub use model::dedup_spec;
pub use model::effective_keep;
pub use model::filter_spec;
pub use model::join_spec;
pub use model::segments_spec;
pub use model::split_spec;
