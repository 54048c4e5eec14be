//! A host-resident agent core that tracks TCP connections and process
//! metadata sampled from the kernel and classifies them with a set of
//! reverse-shell heuristics.
//!
//! Everything in this crate is pure: the callers read the kernel's text
//! tables, walk the process directories and keep the clock, and hand the
//! results in as plain values.

pub mod plugins;
