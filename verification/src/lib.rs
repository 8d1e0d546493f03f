//! Core engine of a collaborative, versioned modeling service.
//!
//! A document is a set of parametric objects whose data may depend on data
//! of other objects.  Users submit batches of changes; the engine records
//! them in an append-only per-file log with monotonically increasing
//! offsets, keeps a point-in-time object cache, maintains a versioned
//! reverse dependency index, tracks per-user undo/redo history, and caches
//! client representations.
//!
//! The pieces mirror the pipeline: [`msg`] is the data model; [`engine`]
//! holds the log and composes a submit end to end; [`object_cache`],
//! [`dep_cache`], [`undo_cache`] and [`rep_cache`] are the stores that
//! consume committed changes; [`submit`] and [`update`] assemble a batch and
//! run the one-shot dependency propagation; [`invert`] rolls recorded events
//! back; [`objdef`] holds the object catalog's pure wiring decisions;
//! [`gateway`] and [`fanout`] hold the decision steps of the edges.

pub mod dep_cache;
pub mod engine;
pub mod fanout;
pub mod gateway;
pub mod invert;
pub mod msg;
pub mod objdef;
pub mod object_cache;
pub mod rep_cache;
pub mod submit;
pub mod undo_cache;
pub mod update;
