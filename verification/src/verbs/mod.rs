//! What is particular to verbs devices.
pub mod verbs_batch;
