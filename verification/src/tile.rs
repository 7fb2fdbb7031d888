use vstd::prelude::*;

verus! {

/// What a tile does when the player touches it.
#[derive(Debug, Clone, Copy, Eq, PartialEq, Structural)]
pub enum TileType {
    /// Solid: blocks movement and supports the player.
    Wall,
    /// Wraps the player to the opposite horizontal bound of the level.
    Teleporter,
    /// Collectible: scores a point and disappears on a bottom contact.
    Coin,
}

/// Half of a wall tile's bounding box (12.5 world units), in micro-units.
pub const WALL_HALF: i64 = 12_500_000;

/// Half of a coin or teleporter tile's bounding box (5 world units), in
/// micro-units. Coins and teleporters use a smaller hitbox than walls;
/// the size is a per-kind constant, not derived from the grid.
pub const COIN_HALF: i64 = 5_000_000;

/// Largest magnitude a tile coordinate can take, in micro-units.
/// Level geometry loaded from a map never leaves this range.
pub const TILE_POS_LIMIT: i64 = 250_000_000_000_000;

/// Largest half-extent a tile can carry, in micro-units.
pub const HALF_LIMIT: i64 = 1_000_000_000;

/// A level obstacle: an axis-aligned box of a given kind, described by its
/// center and half-extents. Wall and teleporter tiles are immutable for the
/// round; a coin is removed outright when collected.
#[derive(Debug, Clone, Copy, Eq, PartialEq, Structural)]
pub struct Tile {
    pub kind: TileType,
    /// Center, in micro-units.
    pub x: i64,
    pub y: i64,
    /// Half-extents, in micro-units.
    pub half_x: i64,
    pub half_y: i64,
}

/// Mathematical image of a `Tile`: the same record over unbounded integers.
pub ghost struct TileModel {
    pub kind: TileType,
    pub x: int,
    pub y: int,
    pub half_x: int,
    pub half_y: int,
}

impl View for Tile {
    type V = TileModel;

    open spec fn view(&self) -> TileModel {
        TileModel {
            kind: self.kind,
            x: self.x as int,
            y: self.y as int,
            half_x: self.half_x as int,
            half_y: self.half_y as int,
        }
    }
}

/// The bounding-box half-extent that each tile kind is built with.
pub open spec fn half_for(k: TileType) -> int {
    match k {
        TileType::Wall => WALL_HALF as int,
        TileType::Teleporter => COIN_HALF as int,
        TileType::Coin => COIN_HALF as int,
    }
}

/// A tile is well formed when its geometry lies inside the machine range
/// the collision arithmetic is proved overflow-free for.
pub open spec fn tile_wf(t: TileModel) -> bool {
    &&& -TILE_POS_LIMIT <= t.x <= TILE_POS_LIMIT
    &&& -TILE_POS_LIMIT <= t.y <= TILE_POS_LIMIT
    &&& 0 <= t.half_x <= HALF_LIMIT
    &&& 0 <= t.half_y <= HALF_LIMIT
}

/// The tile sequence a `Vec<Tile>` stands for.
pub open spec fn tiles_view(ts: Seq<Tile>) -> Seq<TileModel> {
    ts.map_values(|t: Tile| t@)
}

} // verus!
