//! The template-driven generator: rambles are kept by kind, and random values
//! are drawn from them by the `rr` filter while templates render.

pub mod filter;
pub mod map;
pub mod ramble;

pub use self::filter::random_filter;
pub use self::map::{Ramble, RambleKind, RambleMap};
pub use self::ramble::RandomRamble;
