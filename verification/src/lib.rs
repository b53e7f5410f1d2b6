//! Buffers of memory that is either writable or executable, never both, for
//! code that is generated at run time, and the bookkeeping that keeps the
//! instruction cache in step with freshly written code.

pub mod buffer;
pub mod cache_line;
pub mod cache_management;
pub mod error;
pub mod line_sweep;
pub mod mapping;
