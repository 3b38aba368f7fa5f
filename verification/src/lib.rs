//! A thread-sharded relay for events that are aimed at single targets.
//!
//! Producers hand in `(target, event)` pairs; a drain later delivers every pair
//! exactly once, one shard per worker of the thread pool. The store keeps one
//! shard per worker and routes a pair by the target's key, so that all events
//! of one target meet on the same worker and stay in the order they came in.

pub mod entity;
pub mod events;
pub mod fatal;
pub mod forward;
pub mod handler;
pub mod key;
pub mod laws;
pub mod local;
pub mod pinned;
mod pool;

pub use entity::EntityId;
pub use events::TargetedEvents;
pub use fatal::Fatal;
pub use key::ConsistentKey;
pub use local::LocalEvents;
pub use pinned::ThreadPinned;
