pub mod bump;
pub mod cache_line;
pub mod pool;

pub use bump::BumpAllocator;
pub use cache_line::{CacheAligned, CachePadded};
pub use pool::ObjectPool;
