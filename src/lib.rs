//! A file finder's core: scoping of per-pattern flags, compilation of glob and
//! regex patterns into accept and reject sets, and the filter that decides which
//! walked entries are printed.

pub mod engines;
pub mod patterns;
pub mod pipeline;
pub mod scope;
