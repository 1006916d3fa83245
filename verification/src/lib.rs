//! Deterministic simulation core of a tile-based dungeon crawler.
//!
//! All world coordinates are fixed-point integers so that a frame step is a
//! pure function of the game state and the players' input on every machine.

pub mod attacks;
pub mod config;
pub mod enchantments;
pub mod generation;
pub mod init_game;
pub mod input;
pub mod items;
pub mod map;
pub mod math;
pub mod monsters;
pub mod net;
pub mod player;
pub mod replay;
pub mod rng;
pub mod snapshot;
