//! Verified learner-progress tracking.
//!
//! One persisted record per learner identity holds a completion counter and a
//! level. Every mutation is gated on the caller's identity matching the
//! record's owner, completions at or above the achievement threshold emit a
//! one-shot notification, and creation is rejected for an identity that
//! already has a record.

pub mod identity;
pub mod progress;
pub mod store;
pub mod laws;
