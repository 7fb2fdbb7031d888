use vstd::prelude::*;

use crate::player::{Player, PlayerModel, player_wf, PLAYER_HALF, POS_LIMIT};
use crate::tile::{Tile, TileModel, TileType, tile_wf, tiles_view};

verus! {

/// Where the level wraps the player to after walking off its left edge:
/// the positive horizontal bound, in micro-units (460 world units).
pub const BOUND_POS_X: i64 = 460_000_000;

/// Where the level wraps the player to after walking off its right edge:
/// the negative horizontal bound, in micro-units.
pub const BOUND_NEG_X: i64 = -460_000_000;

/// The side of the player's box a tile contacts, judged by the axis with
/// the smaller penetration depth. `Inside` means neither axis shows a
/// one-sided overlap (one box surrounds the other on that axis); it has no
/// side effect.
#[derive(Debug, Clone, Copy, Eq, PartialEq, Structural)]
pub enum Side {
    /// The tile touches the player's left edge (tile is to the left).
    Left,
    /// The tile touches the player's right edge.
    Right,
    /// The tile touches the player's top edge (tile is above).
    Top,
    /// The tile touches the player's bottom edge (tile is below).
    Bottom,
    /// Overlapping with no classified side.
    Inside,
}

/// Classify the contact between tile `t` and the player `p`, or `None` when
/// their boxes do not strictly overlap.
///
/// On each axis the tile penetrates one-sidedly when it sticks out past the
/// player's box on exactly one side; the recorded depth is how far the tile
/// reaches past the player's near edge. When both axes show a one-sided
/// penetration, the axis with the strictly smaller depth names the side
/// (the horizontal side wins ties); when neither does, the contact is
/// `Inside`.
pub open spec fn side_of(t: TileModel, p: PlayerModel) -> Option<Side> {
    let a_min_x = t.x - t.half_x;
    let a_max_x = t.x + t.half_x;
    let a_min_y = t.y - t.half_y;
    let a_max_y = t.y + t.half_y;
    let b_min_x = p.x - PLAYER_HALF;
    let b_max_x = p.x + PLAYER_HALF;
    let b_min_y = p.y - PLAYER_HALF;
    let b_max_y = p.y + PLAYER_HALF;
    if a_min_x < b_max_x && a_max_x > b_min_x && a_min_y < b_max_y && a_max_y > b_min_y {
        let x_pen: Option<(Side, int)> = if a_min_x < b_min_x && a_max_x < b_max_x {
            Some((Side::Left, a_max_x - b_min_x))
        } else if a_min_x > b_min_x && a_max_x > b_max_x {
            Some((Side::Right, b_max_x - a_min_x))
        } else {
            None
        };
        let y_pen: Option<(Side, int)> = if a_min_y < b_min_y && a_max_y < b_max_y {
            Some((Side::Bottom, a_max_y - b_min_y))
        } else if a_min_y > b_min_y && a_max_y > b_max_y {
            Some((Side::Top, b_max_y - a_min_y))
        } else {
            None
        };
        match (x_pen, y_pen) {
            (None, None) => Some(Side::Inside),
            (Some((xs, _)), None) => Some(xs),
            (None, Some((ys, _))) => Some(ys),
            (Some((xs, xd)), Some((ys, yd))) => if yd < xd {
                Some(ys)
            } else {
                Some(xs)
            },
        }
    } else {
        None
    }
}

/// Decide which side of the player the tile contacts this tick.
pub fn collide_side(t: &Tile, p: &Player) -> (r: Option<Side>)
    requires
        tile_wf(t@),
        -POS_LIMIT <= p.x <= POS_LIMIT,
        -POS_LIMIT <= p.y <= POS_LIMIT,
    ensures
        r == side_of(t@, p@),
{
    let a_min_x = t.x - t.half_x;
    let a_max_x = t.x + t.half_x;
    let a_min_y = t.y - t.half_y;
    let a_max_y = t.y + t.half_y;
    let b_min_x = p.x - PLAYER_HALF;
    let b_max_x = p.x + PLAYER_HALF;
    let b_min_y = p.y - PLAYER_HALF;
    let b_max_y = p.y + PLAYER_HALF;
    if !(a_min_x < b_max_x && a_max_x > b_min_x && a_min_y < b_max_y && a_max_y > b_min_y) {
        return None;
    }
    let x_some: bool;
    let x_side: Side;
    let x_depth: i64;
    if a_min_x < b_min_x && a_max_x < b_max_x {
        x_some = true;
        x_side = Side::Left;
        x_depth = a_max_x - b_min_x;
    } else if a_min_x > b_min_x && a_max_x > b_max_x {
        x_some = true;
        x_side = Side::Right;
        x_depth = b_max_x - a_min_x;
    } else {
        x_some = false;
        x_side = Side::Inside;
        x_depth = 0;
    }
    let y_some: bool;
    let y_side: Side;
    let y_depth: i64;
    if a_min_y < b_min_y && a_max_y < b_max_y {
        y_some = true;
        y_side = Side::Bottom;
        y_depth = a_max_y - b_min_y;
    } else if a_min_y > b_min_y && a_max_y > b_max_y {
        y_some = true;
        y_side = Side::Top;
        y_depth = b_max_y - a_min_y;
    } else {
        y_some = false;
        y_side = Side::Inside;
        y_depth = 0;
    }
    if x_some && y_some {
        if y_depth < x_depth {
            Some(y_side)
        } else {
            Some(x_side)
        }
    } else if x_some {
        Some(x_side)
    } else if y_some {
        Some(y_side)
    } else {
        Some(Side::Inside)
    }
}

/// Replace only the grounded flag of a player.
pub open spec fn with_grounded(p: PlayerModel, g: bool) -> PlayerModel {
    PlayerModel { grounded: g, ..p }
}

/// The effect of one tile on the player, by tile kind and contact side.
/// Returns the corrected player, whether the tile supplied a bottom wall
/// contact, and whether it is a coin collected this tick.
///
/// - Wall, left or right: zero the horizontal input component pointing into
///   the wall.
/// - Wall, top: zero vertical velocity and vertical input (head bump).
/// - Wall, bottom: report ground support and snap the player's bottom edge
///   onto the wall's top edge.
/// - Teleporter, left: wrap the player to the positive horizontal bound;
///   teleporter, right: wrap to the negative bound.
/// - Coin, bottom: collect the coin.
/// - Every other combination has no effect.
pub open spec fn step_tile(p: PlayerModel, t: TileModel) -> (PlayerModel, bool, bool) {
    match side_of(t, p) {
        None => (p, false, false),
        Some(Side::Left) => match t.kind {
            TileType::Wall => if p.input_x < 0 {
                (PlayerModel { input_x: 0, ..p }, false, false)
            } else {
                (p, false, false)
            },
            TileType::Teleporter => (PlayerModel { x: BOUND_POS_X as int, ..p }, false, false),
            TileType::Coin => (p, false, false),
        },
        Some(Side::Right) => match t.kind {
            TileType::Wall => if p.input_x > 0 {
                (PlayerModel { input_x: 0, ..p }, false, false)
            } else {
                (p, false, false)
            },
            TileType::Teleporter => (PlayerModel { x: BOUND_NEG_X as int, ..p }, false, false),
            TileType::Coin => (p, false, false),
        },
        Some(Side::Top) => match t.kind {
            TileType::Wall => (PlayerModel { vy: 0, input_y: 0, ..p }, false, false),
            TileType::Teleporter => (p, false, false),
            TileType::Coin => (p, false, false),
        },
        Some(Side::Bottom) => match t.kind {
            TileType::Wall => (
                PlayerModel { y: t.y + t.half_y + PLAYER_HALF, ..p },
                true,
                false,
            ),
            TileType::Teleporter => (p, false, false),
            TileType::Coin => (p, false, true),
        },
        Some(Side::Inside) => (p, false, false),
    }
}

/// Fold `step_tile` over the tiles in order. Returns the corrected player
/// (grounded flag untouched), whether any tile supplied a bottom wall
/// contact, and the indices of the coins collected, in iteration order.
pub open spec fn resolve_rec(p: PlayerModel, tiles: Seq<TileModel>)
    -> (PlayerModel, bool, Seq<int>)
    decreases tiles.len(),
{
    if tiles.len() == 0 {
        (p, false, Seq::empty())
    } else {
        let (q, g, cs) = resolve_rec(p, tiles.drop_last());
        let (q2, g2, coin) = step_tile(q, tiles.last());
        (q2, g || g2, if coin { cs.push(tiles.len() - 1) } else { cs })
    }
}

/// One whole collision pass: fold the tiles over the player, then recompute
/// the grounded flag from scratch as "some tile supplied a bottom wall
/// contact this pass". Returns the resolved player and the collected coin
/// indices.
pub open spec fn resolve_spec(p: PlayerModel, tiles: Seq<TileModel>)
    -> (PlayerModel, Seq<int>)
{
    let (q, g, cs) = resolve_rec(p, tiles);
    (with_grounded(q, g), cs)
}

/// All tiles of a sequence are well formed.
pub open spec fn tiles_wf(ts: Seq<TileModel>) -> bool {
    forall|i: int| 0 <= i < ts.len() ==> tile_wf(#[trigger] ts[i])
}

/// One tile step keeps the player well formed.
proof fn lemma_step_tile_wf(p: PlayerModel, t: TileModel)
    requires
        player_wf(p),
        tile_wf(t),
    ensures
        player_wf(step_tile(p, t).0),
{
}

/// A single tile's effect never reads the incoming grounded flag: the flag
/// rides through unchanged and the outcome is otherwise the same.
proof fn lemma_step_tile_ignores_grounded(p: PlayerModel, b: bool, t: TileModel)
    ensures
        step_tile(with_grounded(p, b), t).0 == with_grounded(step_tile(p, t).0, b),
        step_tile(with_grounded(p, b), t).1 == step_tile(p, t).1,
        step_tile(with_grounded(p, b), t).2 == step_tile(p, t).2,
{
    assert(side_of(t, with_grounded(p, b)) == side_of(t, p));
}

/// Law: grounded is recomputed from scratch every pass. The outcome of a
/// collision pass — resolved player, grounded flag and collected coins —
/// does not depend on the grounded flag the player carried into the tick.
pub proof fn lemma_grounded_fresh(p: PlayerModel, b: bool, tiles: Seq<TileModel>)
    ensures
        resolve_spec(with_grounded(p, b), tiles) == resolve_spec(p, tiles),
    decreases tiles.len(),
{
    if tiles.len() == 0 {
    } else {
        lemma_grounded_fresh(p, b, tiles.drop_last());
        lemma_step_tile_ignores_grounded(
            resolve_rec(p, tiles.drop_last()).0,
            b,
            tiles.last(),
        );
    }
}

/// Law: a teleporter contact wraps the player regardless of current
/// velocity. A left contact sets the x position to the positive horizontal
/// bound, a right contact to the negative bound, and nothing else changes.
pub proof fn lemma_teleport_wrap(p: PlayerModel, t: TileModel)
    requires
        t.kind == TileType::Teleporter,
    ensures
        side_of(t, p) == Some(Side::Left)
            ==> step_tile(p, t).0 == (PlayerModel { x: BOUND_POS_X as int, ..p }),
        side_of(t, p) == Some(Side::Right)
            ==> step_tile(p, t).0 == (PlayerModel { x: BOUND_NEG_X as int, ..p }),
{
}

/// The collected coin indices of a pass are strictly increasing — each tile
/// is examined once, so no coin is counted twice within a tick — and all
/// point into the tile sequence.
pub proof fn lemma_coins_increasing(p: PlayerModel, tiles: Seq<TileModel>)
    ensures
        forall|j1: int, j2: int|
            0 <= j1 < j2 < resolve_rec(p, tiles).2.len()
                ==> resolve_rec(p, tiles).2[j1] < resolve_rec(p, tiles).2[j2],
        forall|j: int| 0 <= j < resolve_rec(p, tiles).2.len()
            ==> 0 <= #[trigger] resolve_rec(p, tiles).2[j] < tiles.len(),
    decreases tiles.len(),
{
    if tiles.len() == 0 {
    } else {
        lemma_coins_increasing(p, tiles.drop_last());
        let (q, g, cs) = resolve_rec(p, tiles.drop_last());
        let cs2 = resolve_rec(p, tiles).2;
        if step_tile(q, tiles.last()).2 {
            assert(cs2 == cs.push(tiles.len() - 1));
            assert(forall|j: int| 0 <= j < cs.len()
                ==> #[trigger] cs2[j] == cs[j]);
            assert(cs2[cs2.len() - 1] == tiles.len() - 1);
        } else {
            assert(cs2 == cs);
        }
    }
}

/// Run the collision pass over every tile, in creation order, correcting
/// the player in place; the returned vector lists the indices of the coins
/// collected this tick, in increasing order.
pub fn resolve(p: &mut Player, tiles: &Vec<Tile>) -> (coins: Vec<usize>)
    requires
        player_wf(old(p)@),
        tiles_wf(tiles_view(tiles@)),
    ensures
        final(p)@ == resolve_spec(old(p)@, tiles_view(tiles@)).0,
        player_wf(final(p)@),
        coins@.map_values(|i: usize| i as int) == resolve_spec(old(p)@, tiles_view(tiles@)).1,
{
    let ghost tms = tiles_view(tiles@);
    let mut coins: Vec<usize> = Vec::new();
    let mut bottom = false;
    let n = tiles.len();
    for i in 0..n
        invariant
            n == tiles.len(),
            tms == tiles_view(tiles@),
            tiles_wf(tms),
            tms.len() == n,
            player_wf((*p)@),
            (*p)@ == resolve_rec(old(p)@, tms.take(i as int)).0,
            bottom == resolve_rec(old(p)@, tms.take(i as int)).1,
            coins@.map_values(|k: usize| k as int)
                == resolve_rec(old(p)@, tms.take(i as int)).2,
            forall|k: int| 0 <= k < coins@.len() ==> coins@[k] < i,
    {
        proof {
            assert(tms.take(i + 1).drop_last() =~= tms.take(i as int));
            assert(tms.take(i + 1).last() == tms[i as int]);
            assert(tms[i as int] == tiles@[i as int]@);
            lemma_step_tile_wf((*p)@, tms[i as int]);
        }
        let t = &tiles[i];
        let side = collide_side(t, p);
        match side {
            None => {}
            Some(Side::Left) => {
                match t.kind {
                    TileType::Wall => {
                        if p.input_x < 0 {
                            p.input_x = 0;
                        }
                    }
                    TileType::Teleporter => {
                        p.x = BOUND_POS_X;
                    }
                    TileType::Coin => {}
                }
            }
            Some(Side::Right) => {
                match t.kind {
                    TileType::Wall => {
                        if p.input_x > 0 {
                            p.input_x = 0;
                        }
                    }
                    TileType::Teleporter => {
                        p.x = BOUND_NEG_X;
                    }
                    TileType::Coin => {}
                }
            }
            Some(Side::Top) => {
                match t.kind {
                    TileType::Wall => {
                        p.vy = 0;
                        p.input_y = 0;
                    }
                    TileType::Teleporter => {}
                    TileType::Coin => {}
                }
            }
            Some(Side::Bottom) => {
                match t.kind {
                    TileType::Wall => {
                        bottom = true;
                        p.y = t.y + t.half_y + PLAYER_HALF;
                    }
                    TileType::Teleporter => {}
                    TileType::Coin => {
                        coins.push(i);
                    }
                }
            }
            Some(Side::Inside) => {}
        }
        proof {
            assert(coins@.map_values(|k: usize| k as int)
                =~= resolve_rec(old(p)@, tms.take(i + 1)).2);
        }
    }
    proof {
        assert(tms.take(n as int) =~= tms);
    }
    p.grounded = bottom;
    coins
}

} // verus!
