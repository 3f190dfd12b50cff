//! A streaming histogram sketch of fixed capacity, after Ben-Haim and
//! Tom-Tov: an ordered list of `(value, count)` bins that merges its two
//! closest neighbours whenever it outgrows its size.
//!
//! Values are held as ordered integer keys (module `key`), so every
//! comparison, position and count in this crate is exact integer logic. The
//! arithmetic on the numbers behind the keys (the distance between two
//! neighbours, their weighted mean, the final interpolation of a query) is
//! the caller's: the histogram asks for those results as plain arguments and
//! decides everything else.

pub mod bin;
pub mod closest;
pub mod histogram;
pub mod key;
pub mod order;
pub mod query;

pub use bin::Bin;
pub use histogram::Histogram;
pub use query::{Count, Quantile, Rank};
