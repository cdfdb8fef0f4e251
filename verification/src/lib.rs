//! Authoritative core of a multiplayer arena shooter: the seeded maze
//! generator, the spawn allocator, the hitscan resolver and the session
//! state machine, with machine-checked contracts.
//!
//! Lengths are held in thousandths of a world unit, times in milliseconds
//! and headings in thousandths of a degree, so that every rule of the game
//! is a statement about integers.

pub mod allocator;
pub mod cli;
pub mod geometry;
pub mod hitscan;
pub mod maze;
pub mod messages;
pub mod player;
pub mod rng;
pub mod server;

pub use crate::maze::spawn::SpawnPoint;
pub use crate::maze::{
    generate_maze_from_config, generate_maze_with_seed, MazeConfig, MazeData, MazeGrid,
};
pub use crate::messages::{ClientMessage, ServerMessage};
pub use crate::player::Player;

use crate::geometry::Vec3;
use vstd::prelude::*;

verus! {

/// The state of a session. A session only ever moves forward through
/// these.
#[derive(Clone, Copy, Debug, PartialEq, Eq, Structural)]
pub enum GameState {
    WaitingForPlayers,
    GameStarted,
    GameOver,
}

/// The weapon: the health that a hit takes, in thousandths of a point,
/// how far a shot carries, and the shots per thousand seconds.
#[derive(Clone, Copy, Debug, PartialEq, Eq, Structural)]
pub struct WeaponConfig {
    pub damage: u32,
    pub range: i64,
    pub fire_rate: u32,
}

impl WeaponConfig {
    /// The weapon that every player carries.
    pub open spec fn standard() -> WeaponConfig {
        WeaponConfig { damage: 50_000, range: 100_000, fire_rate: 4_000 }
    }
}

impl Default for WeaponConfig {
    fn default() -> (weapon: WeaponConfig)
        ensures
            weapon == WeaponConfig::standard(),
    {
        WeaponConfig { damage: 50_000, range: 100_000, fire_rate: 4_000 }
    }
}

/// What became of a shot.
#[derive(Debug)]
pub struct HitscanResult {
    pub hit: bool,
    pub hit_position: Option<Vec3>,
    pub hit_player_id: Option<String>,
    pub distance: i64,
}

/// The outcome of a shot as a value.
pub struct HitscanResultView {
    pub hit: bool,
    pub hit_position: Option<Vec3>,
    pub hit_player_id: Option<Seq<char>>,
    pub distance: i64,
}

/// The characters of a text that may be missing.
pub open spec fn text_of(text: Option<String>) -> Option<Seq<char>> {
    match text {
        Some(t) => Some(t@),
        None => None,
    }
}

impl View for HitscanResult {
    type V = HitscanResultView;

    open spec fn view(&self) -> HitscanResultView {
        HitscanResultView {
            hit: self.hit,
            hit_position: self.hit_position,
            hit_player_id: text_of(self.hit_player_id),
            distance: self.distance,
        }
    }
}

/// A copy of a text that may be missing.
pub fn duplicate_text(text: &Option<String>) -> (copy: Option<String>)
    ensures
        text_of(copy) == text_of(*text),
{
    match text {
        Some(t) => Some(t.clone()),
        None => None,
    }
}

impl HitscanResult {
    /// A copy of the outcome.
    pub fn duplicate(&self) -> (copy: HitscanResult)
        ensures
            copy@ == self@,
    {
        HitscanResult {
            hit: self.hit,
            hit_position: self.hit_position,
            hit_player_id: duplicate_text(&self.hit_player_id),
            distance: self.distance,
        }
    }
}

} // verus!
