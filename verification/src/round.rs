use vstd::prelude::*;

use crate::collide::{lemma_coins_increasing, resolve, resolve_rec, resolve_spec, tiles_wf};
use crate::player::{
    move_player, move_spec, player_wf, Player, PlayerModel, MAX_TICK_MS,
};
use crate::tile::{tiles_view, Tile, TileModel};
use crate::tilemap::{
    load_map, map_tiles, MAP_WIDTH, MAX_MAP_BYTES, TILE_SIZE, X_OFFSET, Y_OFFSET,
};

verus! {

/// Collecting this many coins wins the round.
pub const WIN_SCORE: usize = 40;

/// Falling below this height loses the round (-450 world units),
/// micro-units.
pub const OUT_OF_BOUNDS_Y: i64 = -450_000_000;

/// Where a fresh player spawns (-15, -300 world units), micro-units.
pub const PLAYER_START_X: i64 = -15_000_000;

pub const PLAYER_START_Y: i64 = -300_000_000;

/// The map resource for a round could not be read: fatal for the round
/// start, the round is not entered.
#[derive(Debug, Clone, Copy, Eq, PartialEq, Structural)]
pub struct MapLoadError;

/// The running score of the current round.
#[derive(Debug, Clone, Copy, Eq, PartialEq, Structural)]
pub struct Scoreboard {
    pub score: usize,
}

/// Everything scoped to one round: the single player, the live tiles in
/// creation order, and the scoreboard. Created on round entry, destroyed
/// as a whole on round exit.
#[derive(Debug)]
pub struct Round {
    pub player: Player,
    pub tiles: Vec<Tile>,
    pub scoreboard: Scoreboard,
}

/// Mathematical image of a `Round`.
pub ghost struct RoundModel {
    pub player: PlayerModel,
    pub tiles: Seq<TileModel>,
    pub score: int,
}

impl View for Round {
    type V = RoundModel;

    open spec fn view(&self) -> RoundModel {
        RoundModel {
            player: self.player@,
            tiles: tiles_view(self.tiles@),
            score: self.scoreboard.score as int,
        }
    }
}

/// A round is well formed when its player and tiles are, and the score
/// plus the live tile count never exceeds what one map can supply — so
/// score arithmetic stays in range.
pub open spec fn round_wf(r: RoundModel) -> bool {
    &&& player_wf(r.player)
    &&& tiles_wf(r.tiles)
    &&& 0 <= r.score
    &&& r.score + r.tiles.len() <= MAX_MAP_BYTES
}

/// The player a round starts with: at the spawn point, at rest, airborne.
pub open spec fn start_player() -> PlayerModel {
    PlayerModel {
        x: PLAYER_START_X as int,
        y: PLAYER_START_Y as int,
        vx: 0,
        vy: 0,
        grounded: false,
        jump_held_ms: 0,
        input_x: 0,
        input_y: 0,
    }
}

/// The round a map text starts: score zero, the map's tiles, one fresh
/// player at the spawn point.
pub open spec fn fresh_round(text: Seq<u8>) -> RoundModel {
    RoundModel {
        player: start_player(),
        tiles: map_tiles(text, MAP_WIDTH as int, TILE_SIZE as int, X_OFFSET as int,
            Y_OFFSET as int),
        score: 0,
    }
}

/// Enter a round: load the level from the map text and spawn the player.
/// `None` stands for a map resource that could not be read; that is fatal
/// for the round start and no round is produced.
pub fn start_round(map_text: &Option<Vec<u8>>) -> (r: Result<Round, MapLoadError>)
    requires
        map_text matches Some(t) ==> t@.len() <= MAX_MAP_BYTES,
    ensures
        match map_text {
            Some(t) => r matches Ok(rd) && rd@ == fresh_round(t@) && round_wf(rd@),
            None => r matches Err(e) && e == MapLoadError,
        },
{
    match map_text {
        Some(t) => {
            let tiles = load_map(t, TILE_SIZE, MAP_WIDTH, X_OFFSET, Y_OFFSET);
            let player = Player {
                x: PLAYER_START_X,
                y: PLAYER_START_Y,
                vx: 0,
                vy: 0,
                grounded: false,
                jump_held_ms: 0,
                input_x: 0,
                input_y: 0,
            };
            Ok(Round { player, tiles, scoreboard: Scoreboard { score: 0 } })
        }
        None => Err(MapLoadError),
    }
}

/// `cs` holds `v`.
pub open spec fn seq_has_int(cs: Seq<int>, v: int) -> bool {
    exists|j: int| 0 <= j < cs.len() && cs[j] == v
}

/// `cs` is strictly increasing.
pub open spec fn strictly_increasing(cs: Seq<int>) -> bool {
    forall|j1: int, j2: int| 0 <= j1 < j2 < cs.len() ==> cs[j1] < cs[j2]
}

/// The tiles left after deleting the listed positions, order kept.
pub open spec fn remove_indices(ts: Seq<TileModel>, cs: Seq<int>) -> Seq<TileModel>
    decreases ts.len(),
{
    if ts.len() == 0 {
        Seq::empty()
    } else {
        let pre = remove_indices(ts.drop_last(), cs);
        if seq_has_int(cs, ts.len() - 1) {
            pre
        } else {
            pre.push(ts.last())
        }
    }
}

/// Delete the listed positions from the tile vector, keeping the order of
/// the survivors.
fn remove_tiles(tiles: &mut Vec<Tile>, idxs: &Vec<usize>)
    requires
        strictly_increasing(idxs@.map_values(|k: usize| k as int)),
        forall|j: int| 0 <= j < idxs@.len() ==> (#[trigger] idxs@[j]) < old(tiles)@.len(),
    ensures
        tiles_view(final(tiles)@)
            == remove_indices(tiles_view(old(tiles)@), idxs@.map_values(|k: usize| k as int)),
        final(tiles)@.len() == old(tiles)@.len() - idxs@.len(),
{
    let ghost tms = tiles_view(tiles@);
    let ghost cs = idxs@.map_values(|k: usize| k as int);
    let mut out: Vec<Tile> = Vec::new();
    let mut k: usize = 0;
    let n = tiles.len();
    proof {
        assert(tms.take(0) =~= Seq::<TileModel>::empty());
    }
    for i in 0..n
        invariant
            n == tiles@.len(),
            tms == tiles_view(tiles@),
            cs == idxs@.map_values(|j: usize| j as int),
            cs.len() == idxs@.len(),
            strictly_increasing(cs),
            forall|j: int| 0 <= j < cs.len() ==> 0 <= #[trigger] cs[j] < n,
            k <= idxs@.len(),
            forall|j: int| 0 <= j < k ==> #[trigger] cs[j] < i,
            forall|j: int| k <= j < cs.len() ==> #[trigger] cs[j] >= i,
            tiles_view(out@) == remove_indices(tms.take(i as int), cs),
            out@.len() == i - k,
    {
        proof {
            assert(tms.take(i + 1).drop_last() =~= tms.take(i as int));
            assert(tms.take(i + 1).last() == tms[i as int]);
        }
        if k < idxs.len() && idxs[k] == i {
            proof {
                assert(cs[k as int] == idxs@[k as int] as int);
                assert(cs[k as int] == i as int);
                assert(seq_has_int(cs, i as int));
                assert forall|j: int| k + 1 <= j < cs.len()
                    implies #[trigger] cs[j] >= i + 1 by {
                    assert(cs[k as int] < cs[j]);
                }
            }
            k = k + 1;
        } else {
            proof {
                assert(!seq_has_int(cs, i as int)) by {
                    assert forall|j: int| 0 <= j < cs.len() implies cs[j] != i by {
                        if j < k {
                        } else if k < cs.len() {
                            if j > k {
                                assert(cs[k as int] < cs[j]);
                            }
                        }
                    }
                }
            }
            out.push(tiles[i]);
        }
        proof {
            assert(tiles_view(out@) =~= remove_indices(tms.take(i + 1), cs));
        }
    }
    proof {
        assert(tms.take(n as int) =~= tms);
        if k < idxs@.len() {
            assert(cs[k as int] >= n);
            assert(cs[k as int] < n);
            assert(false);
        }
    }
    *tiles = out;
}

/// One simulation tick over a round, given the sampled input vector and
/// the tick duration:
/// 1. the collision pass corrects the player against every live tile and
///    collects coins;
/// 2. the collected coins are removed and each scores one point;
/// 3. the round is over when the score has reached the win threshold or
///    the corrected player sits below the out-of-bounds height;
/// 4. if the round goes on, the motion step integrates velocity and
///    position.
pub open spec fn tick_spec(r: RoundModel, ix: int, iy: int, dt: int) -> (RoundModel, bool) {
    let p0 = PlayerModel { input_x: ix, input_y: iy, ..r.player };
    let (p1, cs) = resolve_spec(p0, r.tiles);
    let tiles1 = remove_indices(r.tiles, cs);
    let score1 = r.score + cs.len();
    let over = score1 >= WIN_SCORE || p1.y < OUT_OF_BOUNDS_Y;
    let p2 = if over {
        p1
    } else {
        move_spec(p1, dt)
    };
    (RoundModel { player: p2, tiles: tiles1, score: score1 }, over)
}

/// In a strictly increasing sequence the entry at position `j` is at
/// least `j`.
proof fn lemma_increasing_ge(cs: Seq<int>, j: int)
    requires
        strictly_increasing(cs),
        0 <= j < cs.len(),
        forall|i: int| 0 <= i < cs.len() ==> #[trigger] cs[i] >= 0,
    ensures
        cs[j] >= j,
    decreases j,
{
    if j > 0 {
        lemma_increasing_ge(cs, j - 1);
    }
}

/// A strictly increasing sequence of positions inside `[0, n)` has at
/// most `n` entries.
proof fn lemma_increasing_len(cs: Seq<int>, n: int)
    requires
        n >= 0,
        strictly_increasing(cs),
        forall|j: int| 0 <= j < cs.len() ==> 0 <= #[trigger] cs[j] < n,
    ensures
        cs.len() <= n,
{
    if cs.len() > 0 {
        lemma_increasing_ge(cs, cs.len() - 1);
    }
}

/// Deleting positions keeps every surviving tile well formed.
proof fn lemma_remove_wf(ts: Seq<TileModel>, cs: Seq<int>)
    requires
        tiles_wf(ts),
    ensures
        tiles_wf(remove_indices(ts, cs)),
    decreases ts.len(),
{
    if ts.len() > 0 {
        assert(tiles_wf(ts.drop_last())) by {
            assert(forall|i: int| 0 <= i < ts.len() - 1
                ==> ts.drop_last()[i] == #[trigger] ts[i]);
        }
        lemma_remove_wf(ts.drop_last(), cs);
    }
}

impl Round {
    /// Run one simulation tick: collision resolution, coin collection and
    /// scoring, the termination check, then motion. Returns whether the
    /// round is over; the caller tears the round down when it is.
    pub fn tick(&mut self, input_x: i64, input_y: i64, dt_ms: u32) -> (over: bool)
        requires
            round_wf(old(self)@),
            input_x == -1 || input_x == 0 || input_x == 1,
            input_y == 0 || input_y == 1,
            dt_ms <= MAX_TICK_MS,
        ensures
            final(self)@
                == tick_spec(old(self)@, input_x as int, input_y as int, dt_ms as int).0,
            over == tick_spec(old(self)@, input_x as int, input_y as int, dt_ms as int).1,
            round_wf(final(self)@),
    {
        let ghost r0 = self@;
        self.player.input_x = input_x;
        self.player.input_y = input_y;
        let ghost p0 = self.player@;
        let coins = resolve(&mut self.player, &self.tiles);
        let ghost cs = resolve_spec(p0, r0.tiles).1;
        proof {
            lemma_coins_increasing(p0, r0.tiles);
            assert(strictly_increasing(cs));
            assert(coins@.map_values(|k: usize| k as int) == cs);
            assert forall|j: int| 0 <= j < coins@.len()
                implies (#[trigger] coins@[j]) < self.tiles@.len() by {
                assert(coins@.map_values(|k2: usize| k2 as int)[j] == coins@[j] as int);
                assert(0 <= cs[j] < r0.tiles.len());
            }
            lemma_increasing_len(cs, r0.tiles.len() as int);
            lemma_remove_wf(r0.tiles, cs);
        }
        let ncoins = coins.len();
        remove_tiles(&mut self.tiles, &coins);
        self.scoreboard.score = self.scoreboard.score + ncoins;
        let over = self.scoreboard.score >= WIN_SCORE
            || self.player.y < OUT_OF_BOUNDS_Y;
        if !over {
            move_player(&mut self.player, dt_ms);
        }
        over
    }
}

/// Law: coin collection is idempotent across ticks. Within one tick each
/// tile is examined once, so the collected indices are strictly
/// increasing — no coin is counted twice; the tick then removes exactly
/// those tiles, so no later collision pass can see a collected coin
/// again, and the score grows by exactly the number of coins collected.
pub proof fn lemma_coin_collection(r: RoundModel, ix: int, iy: int, dt: int)
    ensures
        ({
            let p0 = PlayerModel { input_x: ix, input_y: iy, ..r.player };
            let cs = resolve_spec(p0, r.tiles).1;
            let (r1, over) = tick_spec(r, ix, iy, dt);
            &&& strictly_increasing(cs)
            &&& forall|j: int| 0 <= j < cs.len() ==> 0 <= #[trigger] cs[j] < r.tiles.len()
            &&& r1.score == r.score + cs.len()
            &&& r1.tiles == remove_indices(r.tiles, cs)
            &&& r1.tiles.len() == r.tiles.len() - cs.len()
        }),
{
    let p0 = PlayerModel { input_x: ix, input_y: iy, ..r.player };
    let cs = resolve_spec(p0, r.tiles).1;
    lemma_coins_increasing(p0, r.tiles);
    lemma_remove_len(r.tiles, cs);
}

/// Two index lists that agree on membership below `ts.len()` delete the
/// same tiles.
proof fn lemma_remove_same(ts: Seq<TileModel>, cs1: Seq<int>, cs2: Seq<int>)
    requires
        forall|v: int| 0 <= v < ts.len()
            ==> (seq_has_int(cs1, v) <==> seq_has_int(cs2, v)),
    ensures
        remove_indices(ts, cs1) == remove_indices(ts, cs2),
    decreases ts.len(),
{
    if ts.len() > 0 {
        lemma_remove_same(ts.drop_last(), cs1, cs2);
    }
}

/// Deleting a strictly increasing list of `k` positions inside the
/// sequence leaves exactly `len - k` tiles.
proof fn lemma_remove_len(ts: Seq<TileModel>, cs: Seq<int>)
    requires
        strictly_increasing(cs),
        forall|j: int| 0 <= j < cs.len() ==> 0 <= #[trigger] cs[j] < ts.len(),
    ensures
        remove_indices(ts, cs).len() == ts.len() - cs.len(),
    decreases ts.len(),
{
    if ts.len() == 0 {
        if cs.len() > 0 {
            assert(0 <= cs[0] && cs[0] < ts.len());
            assert(false);
        }
    } else {
        let last = ts.len() - 1;
        if seq_has_int(cs, last) {
            let j0 = choose|j: int| 0 <= j < cs.len() && cs[j] == last;
            assert(j0 == cs.len() - 1) by {
                if j0 < cs.len() - 1 {
                    assert(cs[j0] < cs[cs.len() - 1]);
                    assert(cs[cs.len() - 1] < ts.len());
                }
            }
            assert(forall|j: int| 0 <= j < cs.len() - 1
                ==> 0 <= #[trigger] cs[j] < last) by {
                assert(forall|j: int| 0 <= j < cs.len() - 1
                    ==> #[trigger] cs[j] < cs[cs.len() - 1]);
            }
            assert(forall|j: int| 0 <= j < cs.drop_last().len()
                ==> 0 <= #[trigger] cs.drop_last()[j] < last);
            assert(strictly_increasing(cs.drop_last()));
            lemma_remove_len(ts.drop_last(), cs.drop_last());
            assert forall|v: int| 0 <= v < ts.drop_last().len()
                implies (seq_has_int(cs, v) <==> seq_has_int(cs.drop_last(), v)) by {
                assert(cs[cs.len() - 1] == last);
                if seq_has_int(cs, v) {
                    let j = choose|j: int| 0 <= j < cs.len() && cs[j] == v;
                    assert(j != cs.len() - 1);
                    assert(cs.drop_last()[j] == v);
                }
                if seq_has_int(cs.drop_last(), v) {
                    let j = choose|j: int|
                        0 <= j < cs.drop_last().len() && cs.drop_last()[j] == v;
                    assert(cs[j] == v);
                }
            }
            lemma_remove_same(ts.drop_last(), cs, cs.drop_last());
            assert(remove_indices(ts, cs).len() == ts.len() - cs.len());
        } else {
            assert(forall|j: int| 0 <= j < cs.len()
                ==> 0 <= #[trigger] cs[j] < last) by {
                assert(forall|j: int| 0 <= j < cs.len() && cs[j] == last
                    ==> seq_has_int(cs, last));
            }
            lemma_remove_len(ts.drop_last(), cs);
        }
    }
}

/// Law: the score threshold ends the round exactly when it is reached.
/// A tick's score is the old score plus the coins collected that tick;
/// while the player stays in bounds, the round is over precisely when
/// that score has reached the win threshold — never before.
pub proof fn lemma_win_threshold(r: RoundModel, ix: int, iy: int, dt: int)
    ensures
        ({
            let p0 = PlayerModel { input_x: ix, input_y: iy, ..r.player };
            let (p1, cs) = resolve_spec(p0, r.tiles);
            let (r1, over) = tick_spec(r, ix, iy, dt);
            &&& r1.score == r.score + cs.len()
            &&& (p1.y >= OUT_OF_BOUNDS_Y ==> (over <==> r1.score >= WIN_SCORE))
            &&& (p1.y >= OUT_OF_BOUNDS_Y && r1.score < WIN_SCORE
                ==> !over && r1.player == move_spec(p1, dt))
        }),
{
}

/// Law: the grounded flag after a whole tick says exactly "some wall gave
/// the player a bottom contact during this tick's collision pass". The
/// motion step never touches the flag, and with no such contact it is
/// false after the tick whatever it was before.
pub proof fn lemma_grounded_after_tick(r: RoundModel, ix: int, iy: int, dt: int)
    ensures
        ({
            let p0 = PlayerModel { input_x: ix, input_y: iy, ..r.player };
            tick_spec(r, ix, iy, dt).0.player.grounded == resolve_rec(p0, r.tiles).1
        }),
{
}

/// Law: a player below the out-of-bounds height after the collision pass
/// — no wall contact corrected it back — ends the round on that very
/// tick, whatever the velocity or score.
pub proof fn lemma_out_of_bounds(r: RoundModel, ix: int, iy: int, dt: int)
    ensures
        ({
            let p0 = PlayerModel { input_x: ix, input_y: iy, ..r.player };
            let p1 = resolve_spec(p0, r.tiles).0;
            p1.y < OUT_OF_BOUNDS_Y ==> tick_spec(r, ix, iy, dt).1
        }),
{
}

} // verus!
