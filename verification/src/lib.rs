//! Huge-page-backed memory allocation support.
//!
//! The crate resolves the platform's huge-page granularity from a textual
//! configuration report, rounds allocation requests up to that granularity,
//! and offers a single-value owning handle sized for huge-page storage.
//! The operating-system mapping calls themselves live outside this library;
//! everything here is the decision logic those calls are driven by.

pub mod align;
pub mod allocator;
pub mod boxed;
pub mod parse;

pub use align::align_to;
pub use allocator::default_allocator;
pub use allocator::HugePageAllocator;
pub use boxed::Box;
pub use parse::parse_hugepage_size;
