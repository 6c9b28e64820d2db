//! Decision engine for a computer-controlled vessel in a naval arena: each tick it
//! turns a snapshot of the world into steering, firing, upgrade, spawn or quit
//! decisions. Positions are whole world units, angles are binary angles (a full
//! turn is 65536) and probabilities are parts per million.

pub mod bot;
pub mod entity;
pub mod steering;
pub mod targeting;
