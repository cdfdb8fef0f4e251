//! A player: who it is, where it stands and how it fares.

use crate::geometry::{Rotation, Vec3};
use crate::rng::roll_index;
use vstd::prelude::*;

verus! {

/// The health that a player starts with, in thousandths of a point.
pub const FULL_HEALTH: u32 = 100_000;

/// The darkest value of a colour component that a new player is given,
/// in thousandths.
pub const COLOR_FLOOR: u32 = 300;

/// The value that the colour components of a new player stay below.
pub const COLOR_CEILING: u32 = 1000;

/// A colour: red, green and blue, each in thousandths.
#[derive(Clone, Copy, Debug, PartialEq, Eq, Structural)]
pub struct Color {
    pub red: u32,
    pub green: u32,
    pub blue: u32,
}

impl Color {
    /// Whether the colour is one that a new player may be given.
    pub open spec fn is_bright(self) -> bool {
        &&& COLOR_FLOOR <= self.red < COLOR_CEILING
        &&& COLOR_FLOOR <= self.green < COLOR_CEILING
        &&& COLOR_FLOOR <= self.blue < COLOR_CEILING
    }
}

/// Where a player stands before the server has placed it.
pub open spec fn default_position() -> Vec3 {
    Vec3 { x: 48_000, y: 2_500, z: 48_000 }
}

/// Where a player stands after it has come back to life by itself.
pub open spec fn respawn_position() -> Vec3 {
    Vec3 { x: 96_000, y: 2_500, z: 96_000 }
}

#[derive(Debug)]
pub struct Player {
    pub id: String,
    pub name: String,
    pub position: Vec3,
    pub rotation: Rotation,
    pub health: u32,
    pub max_health: u32,
    pub kills: u32,
    pub deaths: u32,
    pub is_alive: bool,
    pub last_shot_time: u64,
    pub death_time: Option<u64>,
    pub last_damage_time: Option<u64>,
    pub last_damage_by: Option<u32>,
    pub color: Color,
}

/// A player as a value: its texts are sequences of characters.
pub struct PlayerView {
    pub id: Seq<char>,
    pub name: Seq<char>,
    pub position: Vec3,
    pub rotation: Rotation,
    pub health: u32,
    pub max_health: u32,
    pub kills: u32,
    pub deaths: u32,
    pub is_alive: bool,
    pub last_shot_time: u64,
    pub death_time: Option<u64>,
    pub last_damage_time: Option<u64>,
    pub last_damage_by: Option<u32>,
    pub color: Color,
}

impl View for Player {
    type V = PlayerView;

    open spec fn view(&self) -> PlayerView {
        PlayerView {
            id: self.id@,
            name: self.name@,
            position: self.position,
            rotation: self.rotation,
            health: self.health,
            max_health: self.max_health,
            kills: self.kills,
            deaths: self.deaths,
            is_alive: self.is_alive,
            last_shot_time: self.last_shot_time,
            death_time: self.death_time,
            last_damage_time: self.last_damage_time,
            last_damage_by: self.last_damage_by,
            color: self.color,
        }
    }
}

/// `n + 1`, or `n` where that does not fit.
pub open spec fn one_more(n: u32) -> u32 {
    if n < u32::MAX {
        (n + 1) as u32
    } else {
        n
    }
}

impl PlayerView {
    /// A player that has just been made.
    pub open spec fn fresh(id: Seq<char>, name: Seq<char>, color: Color) -> PlayerView {
        PlayerView {
            id,
            name,
            position: default_position(),
            rotation: Rotation::identity(),
            health: FULL_HEALTH,
            max_health: FULL_HEALTH,
            kills: 0,
            deaths: 0,
            is_alive: true,
            last_shot_time: 0,
            death_time: None,
            last_damage_time: None,
            last_damage_by: None,
            color,
        }
    }

    /// Whether `damage` kills the player: it is alive and has no more
    /// health than that.
    pub open spec fn dies_from(self, damage: u32) -> bool {
        self.is_alive && self.health <= damage
    }

    /// The player after it has taken `damage`. A dead player is left as it
    /// is. Health never falls below zero; where it reaches zero the player
    /// dies, which counts as one death.
    pub open spec fn after_damage(self, damage: u32) -> PlayerView {
        if !self.is_alive {
            self
        } else if self.health <= damage {
            PlayerView { health: 0, is_alive: false, deaths: one_more(self.deaths), ..self }
        } else {
            PlayerView { health: (self.health - damage) as u32, ..self }
        }
    }

    /// The player back at full health, with nothing left of its death.
    pub open spec fn revived(self, position: Vec3, rotation: Rotation) -> PlayerView {
        PlayerView {
            health: self.max_health,
            is_alive: true,
            position,
            rotation,
            death_time: None,
            last_damage_time: None,
            last_damage_by: None,
            ..self
        }
    }
}

/// The views of a sequence of players.
pub open spec fn player_views(players: Seq<Player>) -> Seq<PlayerView> {
    players.map_values(|p: Player| p@)
}

fn roll_component() -> (c: u32)
    ensures
        COLOR_FLOOR <= c < COLOR_CEILING,
{
    let roll: usize = roll_index((COLOR_CEILING - COLOR_FLOOR) as usize);
    COLOR_FLOOR + roll as u32
}

impl Player {
    /// A new player of the given colour, alive and at full health, at the
    /// default position.
    pub fn with_color(id: String, name: String, color: Color) -> (player: Player)
        ensures
            player@ == PlayerView::fresh(id@, name@, color),
    {
        Player {
            id,
            name,
            position: Vec3 { x: 48_000, y: 2_500, z: 48_000 },
            rotation: Rotation::new_identity(),
            health: FULL_HEALTH,
            max_health: FULL_HEALTH,
            kills: 0,
            deaths: 0,
            is_alive: true,
            last_shot_time: 0,
            death_time: None,
            last_damage_time: None,
            last_damage_by: None,
            color,
        }
    }

    /// A new player of a colour drawn at random, no component of it too
    /// dark.
    pub fn new(id: String, name: String) -> (player: Player)
        ensures
            player@ == PlayerView::fresh(id@, name@, player.color),
            player.color.is_bright(),
    {
        let red = roll_component();
        let green = roll_component();
        let blue = roll_component();
        Player::with_color(id, name, Color { red, green, blue })
    }

    /// Brings the player back to life at the place where players come
    /// back by themselves.
    pub fn respawn(&mut self)
        ensures
            final(self)@ == old(self)@.revived(respawn_position(), old(self).rotation),
    {
        self.health = self.max_health;
        self.is_alive = true;
        self.position = Vec3 { x: 96_000, y: 2_500, z: 96_000 };
        self.death_time = None;
        self.last_damage_time = None;
        self.last_damage_by = None;
    }

    /// Takes `damage` from the player's health and says whether the
    /// player died of it.
    pub fn take_damage(&mut self, damage: u32) -> (died: bool)
        ensures
            final(self)@ == old(self)@.after_damage(damage),
            died == old(self)@.dies_from(damage),
    {
        if !self.is_alive {
            return false;
        }
        if self.health <= damage {
            self.health = 0;
            self.is_alive = false;
            if self.deaths < u32::MAX {
                self.deaths += 1;
            }
            return true;
        }
        self.health -= damage;
        false
    }

    /// A copy of the player.
    pub fn duplicate(&self) -> (copy: Player)
        ensures
            copy@ == self@,
    {
        Player {
            id: self.id.clone(),
            name: self.name.clone(),
            position: self.position,
            rotation: self.rotation,
            health: self.health,
            max_health: self.max_health,
            kills: self.kills,
            deaths: self.deaths,
            is_alive: self.is_alive,
            last_shot_time: self.last_shot_time,
            death_time: self.death_time,
            last_damage_time: self.last_damage_time,
            last_damage_by: self.last_damage_by,
            color: self.color,
        }
    }
}

/// Damage never raises health and never takes it below zero; the player
/// dies of it exactly when it was alive and its health, above zero, had no
/// more than the damage; and a dead player is left untouched.
pub proof fn lemma_damage_clamps(p: PlayerView, damage: u32)
    ensures
        p.is_alive ==> p.after_damage(damage).health == if p.health >= damage {
            p.health - damage
        } else {
            0
        },
        p.after_damage(damage).health <= p.health,
        p.dies_from(damage) <==> p.is_alive && p.after_damage(damage).health == 0,
        p.is_alive && p.health > 0 ==> (p.dies_from(damage) <==> p.after_damage(damage).health
            == 0),
        p.dies_from(damage) ==> !p.after_damage(damage).is_alive,
        !p.is_alive ==> p.after_damage(damage) == p && !p.dies_from(damage),
{
}

} // verus!
