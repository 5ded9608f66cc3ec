//! The world that the game simulates: its chunks and its players.

use crate::map::ChunkMap;
use crate::player::{hit_applied, Player, PlayerKey, PlayerSet};
use vstd::prelude::*;

verus! {

/// The entire state of the game world
pub struct World {
    /// The chunks in the world
    pub chunks: ChunkMap,
    /// The players in the world
    pub players: PlayerSet,
    /// The number of ticks that have occured in this world
    pub ticks: u64,
}

/// What the tick of one player makes of the chunk map: a hit at the block the
/// player stands in, where the player is active and holds the `Hit` key, and
/// nothing otherwise.
pub open spec fn tick_step(player: Player, before: ChunkMap, after: ChunkMap) -> bool {
    if player.active && player.keys.has(PlayerKey::Hit) {
        exists|taken: bool| hit_applied(before, after, player.pos, taken)
    } else {
        after@ == before@ && after.hot_spec() == before.hot_spec()
    }
}

/// Whether `worlds` are the chunk maps before and after the tick of each of
/// `players`, in order.
pub open spec fn ticks_made(players: Seq<Player>, worlds: Seq<ChunkMap>) -> bool {
    &&& worlds.len() == players.len() + 1
    &&& forall|i: int|
        0 <= i < players.len() ==> tick_step(players[i], #[trigger] worlds[i], worlds[i + 1])
}

impl World {
    /// Create a new, empty game world
    pub fn new() -> (r: World)
        ensures
            r.chunks.wf(),
            r.chunks@ == Map::<crate::pos::ChunkPos, crate::chunk::ChunkState>::empty(),
            r.chunks.hot_spec() == Set::<crate::pos::ChunkPos>::empty(),
            r.players@ == Seq::<Player>::empty(),
            r.ticks == 0,
    {
        World { chunks: ChunkMap::new(), players: PlayerSet::new(), ticks: 0 }
    }

    /// Tick the game world forward: the tick is counted, and every active
    /// player who holds the `Hit` key breaks the block the player stands in, the
    /// players in the order of their ids. The count of ticks stops at the
    /// largest number it can hold.
    pub fn tick(&mut self)
        requires
            old(self).chunks.wf(),
        ensures
            final(self).chunks.wf(),
            final(self).players == old(self).players,
            final(self).ticks == (if old(self).ticks < u64::MAX {
                (old(self).ticks + 1) as u64
            } else {
                u64::MAX
            }),
            final(self).chunks@.dom() == old(self).chunks@.dom(),
            exists|worlds: Seq<ChunkMap>| #[trigger]
                ticks_made(old(self).players@, worlds) && worlds[0] == old(self).chunks
                    && worlds.last() == final(self).chunks,
    {
        // Stage 0: Bookkeeping
        if self.ticks < u64::MAX {
            self.ticks = self.ticks + 1;
        }
        // Stage 3: Mobs and players make their moves, edit the world.
        let n = self.players.len();
        let ghost mut worlds: Seq<ChunkMap> = seq![self.chunks];
        let mut i: usize = 0;
        while i < n
            invariant
                i <= n,
                n == self.players@.len(),
                self.chunks.wf(),
                self.players == old(self).players,
                self.chunks@.dom() == old(self).chunks@.dom(),
                worlds.len() == i + 1,
                worlds[0] == old(self).chunks,
                worlds[i as int] == self.chunks,
                forall|j: int|
                    0 <= j < i ==> tick_step(self.players@[j], #[trigger] worlds[j], worlds[j + 1]),
                self.ticks == (if old(self).ticks < u64::MAX {
                    (old(self).ticks + 1) as u64
                } else {
                    u64::MAX
                }),
            decreases n - i,
        {
            let mut player = self.players.player_at(i);
            let ghost before = worlds;
            player.tick(&mut self.chunks);
            proof {
                worlds = worlds.push(self.chunks);
                assert forall|j: int| 0 <= j < i + 1 implies tick_step(
                    self.players@[j],
                    #[trigger] worlds[j],
                    worlds[j + 1],
                ) by {
                    if j < i {
                        assert(worlds[j] == before[j]);
                        assert(worlds[j + 1] == before[j + 1]);
                    } else {
                        assert(worlds[j] == before[j]);
                    }
                }
            }
            i = i + 1;
        }
        proof {
            assert(ticks_made(old(self).players@, worlds));
        }
    }
}

} // verus!
