//! Sequence-labeling core of a slot-filling pipeline: tagging schemes
//! (IO, BIO, BILOU) with their boundary predicates, the decode step that
//! turns a per-token tag sequence into typed text spans, the inverse
//! encode step used to build training labels, and the per-token feature
//! vectors consumed by the sequence classifier.

pub mod crf_utils;
pub mod errors;
pub mod features;
pub mod injection;
pub mod slot_utils;
pub mod token;
