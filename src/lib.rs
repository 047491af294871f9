//! Octree building blocks: a composable bottom-up fold over tree contents,
//! and cubic regions that turn points into Morton keys and grow, one octant
//! at a time, to take in points that lie outside them.

pub mod folder;
pub mod morton;
pub mod region;

pub use folder::{Folder, KeyCollector, LeafCount, NullFolder};
pub use region::{CenteredLeveledRegion, Cube, LeveledRegion, Point};
