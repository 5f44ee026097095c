//! World generation: the passes that decide on whole numbers.

pub mod pockets;
pub mod params;
pub mod dress;
pub mod caves;
pub mod terrain;
pub mod flora;
pub mod ground;
pub mod fluids_fill;
pub mod hoard;
pub mod kept;
pub mod loot;
pub mod preview;
pub mod runner;
pub mod same;
pub mod scatter;
pub mod structures;
pub mod spawn;
pub mod whole;
