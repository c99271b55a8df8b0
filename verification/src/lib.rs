//! A hybrid memory/disk cache for remote API responses and images.
//!
//! The cache is organised in two tiers: a bounded least-recently-used
//! memory tier holding decoded images, and a bucket/key store holding
//! raw byte blobs.  Keys for the image bucket are derived from the
//! source identifier by a deterministic content addresser.

pub mod addr;
pub mod cache;
pub mod data;
pub mod decode;
pub mod disk;
pub mod memory;

pub use addr::hash_uri;
pub use cache::CacheStats;
pub use cache::WebApiCache;
