//! Session and game engine for a four-player tile-matching game: the tile
//! stack, winning-hand detection, the round and session state machines, and
//! the registry of rooms and connections.
use vstd::prelude::*;

pub mod auth;
pub mod cards;
pub mod check_win;
pub mod error;
pub mod game;
pub mod query_data;
pub mod room;
pub mod round;
pub mod stack;
pub mod txmanager;
pub mod ws;
