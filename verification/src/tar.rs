//! The archive-backed virtual filesystem's index logic.

pub mod read_only;
