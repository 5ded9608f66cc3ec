//! The settings that the chunk logic reads, and what they are unless a player
//! says otherwise.

use vstd::prelude::*;

verus! {

/// The settings of the game that are whole numbers.
#[derive(Clone, Copy, Debug, PartialEq, Eq, Structural)]
pub struct Config {
    /// How far a player sees, in chunks.
    pub render_distance: i64,
    /// How often the game ticks, per second.
    pub tick_rate: u64,
}

pub fn default_render_distance() -> (r: i64)
    ensures
        r == 5,
{
    5
}

pub fn default_tick_rate() -> (r: u64)
    ensures
        r == 2500,
{
    2500
}

impl Default for Config {
    fn default() -> (r: Config)
        ensures
            r.render_distance == 5,
            r.tick_rate == 2500,
    {
        Config { render_distance: default_render_distance(), tick_rate: default_tick_rate() }
    }
}

impl Config {
    /// The render distance that a client with these settings asks of the
    /// server: the configured one, and none at all where that is negative.
    pub fn requested_render_distance(&self) -> (r: u64)
        ensures
            r == (if self.render_distance < 0 {
                0
            } else {
                self.render_distance
            }),
    {
        if self.render_distance < 0 {
            0
        } else {
            self.render_distance as u64
        }
    }
}

} // verus!
