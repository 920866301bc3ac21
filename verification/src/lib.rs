//! Analysis engine for a content-addressed package store: hardlink-aware
//! disk usage, dependency-closure resolution with memoization, discovery
//! and classification of garbage-collection roots, profile generation
//! histories with a retention-marking policy, and the ordered channel that
//! reconciles parallel computation with in-order presentation.
pub mod analyze;
pub mod cache;
pub mod config;
pub mod files;
pub mod fmt;
pub mod gc;
pub mod interaction;
pub mod ordered_channel;
pub mod pathstr;
pub mod profiles;
pub mod roots;
pub mod store;
