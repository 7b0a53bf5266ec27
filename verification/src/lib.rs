//! Build orchestration for a manifest-driven documentation tree.
//!
//! A text manifest lists content files as `(./<path>)` entries.  Before an
//! external renderer runs, each listed file is moved one directory level
//! deeper (under a `src` subdirectory); after a successful render every file
//! is moved back.  This crate holds the verified core of that workflow: the
//! manifest parser, the relocation plan, a model of the file moves with a
//! proof that moving out and back restores the original layout, and the
//! state machine that drives the run.  The filesystem and subprocess work
//! itself stays outside the library.

pub mod bytes;
pub mod driver;
pub mod fsmodel;
pub mod manifest;
pub mod paths;
