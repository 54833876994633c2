//! The deterministic heart of the game: world rules as pure functions over
//! fixed-capacity stores, with no I/O, no clock and no threads.
pub mod craft;
pub mod deploy;
pub mod depot;
pub mod exposure;
pub mod gather;
pub mod grounditem;
pub mod input;
pub mod inventory;
pub mod light;
pub mod limits;
pub mod lock;
pub mod loot;
pub mod mob;
pub mod movement;
pub mod nav;
pub mod noise;
pub mod occupy;
pub mod roster;
pub mod survival;
pub mod upkeep;
pub mod world;
