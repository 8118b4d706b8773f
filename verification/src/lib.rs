//! A verified core for a parallel-container development helper: it resolves
//! reusable configuration components into a dependency-ordered list, merges
//! their structured fragments into one configuration tree, rewrites compose
//! descriptors for stealth use, and plans the transactional creation and
//! removal of agent worktrees.

pub mod codec;
pub mod embedded;
pub mod names;
pub mod laws;
pub mod lifecycle;
pub mod merge;
pub mod node;
pub mod params;
pub mod presets;
pub mod render;
pub mod resolve;
pub mod stealth;
pub mod store;
pub mod text;
