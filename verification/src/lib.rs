//! A Bloom filter: a compact, probabilistic set of byte-string keys that
//! answers "definitely absent" or "possibly present".
//!
//! A [`BloomFilter`] collects keys and emits a self-describing byte image;
//! any holder of the image can query it for membership.

pub mod buffer;
pub mod codec;
pub mod filter;
pub mod hash;
pub mod image;

pub use filter::BloomFilter;
