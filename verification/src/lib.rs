//! Booklet page-order calculation.
//!
//! A booklet prints four logical pages on each physical sheet of paper, two
//! per side, so that the sheets can be folded, nested and stapled into a
//! readable A5 booklet.  Given the number of content pages, this crate
//! derives how many sheets are needed, which slots on those sheets stay
//! blank, and the exact order in which the original pages must be emitted.

pub mod calculate;
pub mod error;
pub mod order;

pub use calculate::NonZero;
pub use calculate::PageList;
pub use calculate::PageProps;
pub use error::OrderError;
pub use error::invalid;
pub use error::nonzero_error;
