//! Shortest unambiguous abbreviations of content identifiers.
//!
//! Given every identifier a repository holds and one of them as target,
//! `resolve` returns the shortest prefix of the target, of at least
//! `MIN_PREFIX_LEN` characters, that no other identifier begins with.

pub mod guarantees;
pub mod prefix;
pub mod resolver;
pub mod text;

pub use prefix::{compute_shortest_prefix, locate, prefix_len, MIN_PREFIX_LEN};
pub use resolver::{resolve, resolve_among, resolve_normalized, HashRepository, ResolveError};
pub use text::{common_prefix_len, precedes};
