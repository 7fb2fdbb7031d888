use vstd::prelude::*;

use crate::tile::{Tile, TileModel, TileType, half_for, tile_wf, tiles_view};
use crate::tile::{COIN_HALF, WALL_HALF};

verus! {

/// Width of the level grid, in columns.
pub const MAP_WIDTH: i64 = 41;

/// Edge length of one grid cell (25 world units), in micro-units.
pub const TILE_SIZE: i64 = 25_000_000;

/// World position of the grid's first column (-500 world units),
/// micro-units.
pub const X_OFFSET: i64 = -500_000_000;

/// World position of the grid's first row (-362 world units), micro-units.
pub const Y_OFFSET: i64 = -362_000_000;

/// Longest map text a round accepts, in bytes: a machine-range bound that
/// keeps every tile position inside the verified arithmetic range.
pub const MAX_MAP_BYTES: usize = 100_000;

/// Largest accepted cell edge, micro-units (1000 world units).
pub const TILE_SIZE_LIMIT: i64 = 1_000_000_000;

/// Largest accepted grid origin offset magnitude, micro-units.
pub const OFFSET_LIMIT: i64 = 100_000_000_000_000;


/// The byte values the parser recognizes: the comma delimiter, the newline
/// trimmed from token ends, and the digits "1", "2", "3".
pub const COMMA_BYTE: u8 = 44;

pub const NEWLINE_BYTE: u8 = 10;

pub const WALL_BYTE: u8 = 49;

pub const TELEPORTER_BYTE: u8 = 50;

pub const COIN_BYTE: u8 = 51;

/// Split a byte sequence at every comma, keeping empty pieces, exactly as
/// splitting a string on `","` does: the empty text yields one empty token.
pub open spec fn split_commas(s: Seq<u8>) -> Seq<Seq<u8>>
    decreases s.len(),
{
    if s.len() == 0 {
        seq![Seq::empty()]
    } else {
        let rest = split_commas(s.drop_last());
        if s.last() == COMMA_BYTE {
            rest.push(Seq::empty())
        } else {
            rest.update(rest.len() - 1, rest.last().push(s.last()))
        }
    }
}

/// Drop every leading newline byte.
pub open spec fn trim_lead(s: Seq<u8>) -> Seq<u8>
    decreases s.len(),
{
    if s.len() > 0 && s[0] == NEWLINE_BYTE {
        trim_lead(s.drop_first())
    } else {
        s
    }
}

/// Drop every trailing newline byte.
pub open spec fn trim_trail(s: Seq<u8>) -> Seq<u8>
    decreases s.len(),
{
    if s.len() > 0 && s.last() == NEWLINE_BYTE {
        trim_trail(s.drop_last())
    } else {
        s
    }
}

/// A token with the newlines that embedded line breaks leave at its ends
/// removed.
pub open spec fn trim_tok(s: Seq<u8>) -> Seq<u8> {
    trim_trail(trim_lead(s))
}

/// The tile kind a trimmed token names, if any: "1" builds a wall, "2" a
/// teleporter, "3" a coin; every other token builds nothing (sparse-map
/// support, not an error).
pub open spec fn token_kind(s: Seq<u8>) -> Option<TileType> {
    if s.len() == 1 {
        if s[0] == WALL_BYTE {
            Some(TileType::Wall)
        } else if s[0] == TELEPORTER_BYTE {
            Some(TileType::Teleporter)
        } else if s[0] == COIN_BYTE {
            Some(TileType::Coin)
        } else {
            None
        }
    } else {
        None
    }
}

/// The tile a recognized token at grid cell (`col`, `row`) produces: its
/// center sits at the origin offset plus the cell times the cell size, and
/// its half-extent is the per-kind hitbox constant.
pub open spec fn make_tile(k: TileType, col: int, row: int, ts: int, ox: int, oy: int)
    -> TileModel
{
    TileModel {
        kind: k,
        x: ox + col * ts,
        y: oy + row * ts,
        half_x: half_for(k),
        half_y: half_for(k),
    }
}

/// Fold the token list into tiles, walking a column/row cursor through a
/// row-major grid `w` columns wide. Empty tokens are skipped without moving
/// the cursor; every other token advances it, wrapping to the next row
/// after column `w - 1`, and the recognized ones also place a tile.
/// Returns the tiles in creation order and the final cursor.
pub open spec fn build(toks: Seq<Seq<u8>>, w: int, ts: int, ox: int, oy: int)
    -> (Seq<TileModel>, int, int)
    decreases toks.len(),
{
    if toks.len() == 0 {
        (Seq::empty(), 0, 0)
    } else {
        let (tiles, col, row) = build(toks.drop_last(), w, ts, ox, oy);
        let tok = trim_tok(toks.last());
        if tok.len() == 0 {
            (tiles, col, row)
        } else {
            let tiles2 = match token_kind(tok) {
                Some(k) => tiles.push(make_tile(k, col, row, ts, ox, oy)),
                None => tiles,
            };
            if col == w - 1 {
                (tiles2, 0, row + 1)
            } else {
                (tiles2, col + 1, row)
            }
        }
    }
}

/// The tiles a raw map text describes.
pub open spec fn map_tiles(s: Seq<u8>, w: int, ts: int, ox: int, oy: int) -> Seq<TileModel> {
    build(split_commas(s), w, ts, ox, oy).0
}

/// How many tokens are non-empty once trimmed: each advances the cursor.
pub open spec fn count_nonempty(toks: Seq<Seq<u8>>) -> int
    decreases toks.len(),
{
    if toks.len() == 0 {
        0
    } else {
        count_nonempty(toks.drop_last())
            + if trim_tok(toks.last()).len() > 0 { 1int } else { 0int }
    }
}

/// How many tokens name a tile kind: each places one tile.
pub open spec fn count_recognized(toks: Seq<Seq<u8>>) -> int
    decreases toks.len(),
{
    if toks.len() == 0 {
        0
    } else {
        count_recognized(toks.drop_last())
            + if trim_tok(toks.last()).len() > 0 && token_kind(trim_tok(toks.last())) is Some {
                1int
            } else {
                0int
            }
    }
}

/// The token list a `Vec<Vec<u8>>` stands for.
pub open spec fn toks_view(ts: Seq<Vec<u8>>) -> Seq<Seq<u8>> {
    ts.map_values(|v: Vec<u8>| v@)
}

/// Trim the token at both ends and name the tile kind it describes.
/// Returns whether the trimmed token is empty, and its kind.
fn classify_token(t: &Vec<u8>) -> (r: (bool, Option<TileType>))
    ensures
        r.0 == (trim_tok(t@).len() == 0),
        r.1 == token_kind(trim_tok(t@)),
{
    let n = t.len();
    let mut a: usize = 0;
    proof {
        assert(t@.skip(0) =~= t@);
    }
    while a < n && t[a] == NEWLINE_BYTE
        invariant
            n == t@.len(),
            a <= n,
            trim_lead(t@) == trim_lead(t@.skip(a as int)),
        decreases n - a,
    {
        proof {
            assert(t@.skip(a as int)[0] == t@[a as int]);
            assert(t@.skip(a as int).drop_first() =~= t@.skip(a + 1));
        }
        a = a + 1;
    }
    proof {
        if a < n {
            assert(trim_lead(t@.skip(a as int)) == t@.skip(a as int)) by {
                assert(t@.skip(a as int)[0] == t@[a as int]);
            }
        } else {
            assert(t@.skip(a as int) =~= Seq::<u8>::empty());
        }
        assert(trim_lead(t@) == t@.skip(a as int));
    }
    let mut b: usize = n;
    proof {
        assert(t@.subrange(a as int, b as int) =~= t@.skip(a as int));
    }
    while b > a && t[b - 1] == NEWLINE_BYTE
        invariant
            n == t@.len(),
            a <= b <= n,
            trim_tok(t@) == trim_trail(t@.subrange(a as int, b as int)),
        decreases b,
    {
        proof {
            let sub = t@.subrange(a as int, b as int);
            assert(sub.last() == t@[b - 1]);
            assert(sub.drop_last() =~= t@.subrange(a as int, b - 1));
        }
        b = b - 1;
    }
    proof {
        let sub = t@.subrange(a as int, b as int);
        if b > a {
            assert(sub.last() == t@[b - 1]);
            assert(trim_trail(sub) == sub);
        } else {
            assert(sub =~= Seq::<u8>::empty());
        }
        assert(trim_tok(t@) == t@.subrange(a as int, b as int));
    }
    if b == a {
        (true, None)
    } else if b - a == 1 {
        let c = t[a];
        proof {
            assert(trim_tok(t@)[0] == t@[a as int]);
        }
        if c == WALL_BYTE {
            (false, Some(TileType::Wall))
        } else if c == TELEPORTER_BYTE {
            (false, Some(TileType::Teleporter))
        } else if c == COIN_BYTE {
            (false, Some(TileType::Coin))
        } else {
            (false, None)
        }
    } else {
        (false, None)
    }
}

/// Parse a comma-delimited, row-major map text into positioned tiles.
///
/// Tokens are the pieces between commas, with newline bytes trimmed from
/// both ends. An empty token is skipped outright; any other token advances
/// the grid cursor, and the recognized ones ("1" wall, "2" teleporter,
/// "3" coin) place a tile of their kind at the cursor's world position.
pub fn load_map(text: &Vec<u8>, tile_size: i64, grid_width: i64, ox: i64, oy: i64)
    -> (tiles: Vec<Tile>)
    requires
        text@.len() <= MAX_MAP_BYTES,
        1 <= grid_width,
        0 <= tile_size <= TILE_SIZE_LIMIT,
        -OFFSET_LIMIT <= ox <= OFFSET_LIMIT,
        -OFFSET_LIMIT <= oy <= OFFSET_LIMIT,
    ensures
        tiles_view(tiles@)
            == map_tiles(text@, grid_width as int, tile_size as int, ox as int, oy as int),
        forall|i: int| 0 <= i < tiles@.len() ==> tile_wf(#[trigger] tiles_view(tiles@)[i]),
        tiles@.len() <= text@.len(),
{
    let m = text.len();
    let mut toks: Vec<Vec<u8>> = Vec::new();
    let mut cur: Vec<u8> = Vec::new();
    proof {
        assert(text@.take(0) =~= Seq::<u8>::empty());
        assert(toks_view(toks@).push(cur@) =~~= split_commas(text@.take(0)));
    }
    for i in 0..m
        invariant
            m == text@.len(),
            toks_view(toks@).push(cur@) == split_commas(text@.take(i as int)),
            toks@.len() <= i,
    {
        let c = text[i];
        if c == COMMA_BYTE {
            toks.push(cur);
            cur = Vec::new();
        } else {
            cur.push(c);
        }
        proof {
            assert(text@.take(i + 1).drop_last() =~= text@.take(i as int));
            assert(text@.take(i + 1).last() == text@[i as int]);
            assert(toks_view(toks@).push(cur@) =~~= split_commas(text@.take(i + 1)));
        }
    }
    toks.push(cur);
    proof {
        assert(text@.take(m as int) =~= text@);
        assert(toks_view(toks@) =~~= split_commas(text@));
    }
    let ghost tkv = toks_view(toks@);
    let nt = toks.len();
    let mut tiles: Vec<Tile> = Vec::new();
    let mut col: i64 = 0;
    let mut row: i64 = 0;
    for j in 0..nt
        invariant
            nt == toks@.len(),
            nt <= MAX_MAP_BYTES + 1,
            tkv == toks_view(toks@),
            1 <= grid_width,
            0 <= tile_size <= TILE_SIZE_LIMIT,
            -OFFSET_LIMIT <= ox <= OFFSET_LIMIT,
            -OFFSET_LIMIT <= oy <= OFFSET_LIMIT,
            0 <= col <= j,
            0 <= row <= j,
            tiles_view(tiles@)
                == build(tkv.take(j as int), grid_width as int, tile_size as int,
                    ox as int, oy as int).0,
            col as int
                == build(tkv.take(j as int), grid_width as int, tile_size as int,
                    ox as int, oy as int).1,
            row as int
                == build(tkv.take(j as int), grid_width as int, tile_size as int,
                    ox as int, oy as int).2,
            forall|i: int| 0 <= i < tiles@.len() ==> tile_wf(#[trigger] tiles_view(tiles@)[i]),
            tiles@.len() <= j,
    {
        proof {
            assert(tkv.take(j + 1).drop_last() =~= tkv.take(j as int));
            assert(tkv.take(j + 1).last() == tkv[j as int]);
            assert(tkv[j as int] == toks@[j as int]@);
        }
        let (empty_tok, kind) = classify_token(&toks[j]);
        if !empty_tok {
            match kind {
                Some(k) => {
                    let half = match k {
                        TileType::Wall => WALL_HALF,
                        TileType::Teleporter => COIN_HALF,
                        TileType::Coin => COIN_HALF,
                    };
                    proof {
                        assert(0 <= col * tile_size <= 100_001_000_000_000)
                            by (nonlinear_arith)
                            requires
                                0 <= col <= 100_001,
                                0 <= tile_size <= 1_000_000_000,
                        {}
                        assert(0 <= row * tile_size <= 100_001_000_000_000)
                            by (nonlinear_arith)
                            requires
                                0 <= row <= 100_001,
                                0 <= tile_size <= 1_000_000_000,
                        {}
                    }
                    tiles.push(Tile {
                        kind: k,
                        x: ox + col * tile_size,
                        y: oy + row * tile_size,
                        half_x: half,
                        half_y: half,
                    });
                }
                None => {}
            }
            if col == grid_width - 1 {
                col = 0;
                row = row + 1;
            } else {
                col = col + 1;
            }
        }
        proof {
            assert(tiles_view(tiles@)
                =~= build(tkv.take(j + 1), grid_width as int, tile_size as int,
                    ox as int, oy as int).0);
        }
    }
    proof {
        assert(tkv.take(nt as int) =~= tkv);
        lemma_build_count(tkv, grid_width as int, tile_size as int, ox as int, oy as int);
        lemma_count_recognized_le(tkv);
        lemma_split_nonempty_bound(text@);
    }
    tiles
}

/// A map builds exactly one tile per recognized token.
pub proof fn lemma_build_count(toks: Seq<Seq<u8>>, w: int, ts: int, ox: int, oy: int)
    ensures
        build(toks, w, ts, ox, oy).0.len() == count_recognized(toks),
    decreases toks.len(),
{
    if toks.len() == 0 {
    } else {
        lemma_build_count(toks.drop_last(), w, ts, ox, oy);
    }
}

/// Recognized tokens are among the non-empty ones.
pub proof fn lemma_count_recognized_le(toks: Seq<Seq<u8>>)
    ensures
        0 <= count_recognized(toks) <= count_nonempty(toks),
    decreases toks.len(),
{
    if toks.len() == 0 {
    } else {
        lemma_count_recognized_le(toks.drop_last());
    }
}

/// Every non-empty token holds at least one byte of the text, so a text of
/// `n` bytes yields at most `n` tokens that advance the cursor.
pub proof fn lemma_split_nonempty_bound(s: Seq<u8>)
    ensures
        count_nonempty(split_commas(s)) <= s.len(),
    decreases s.len(),
{
    if s.len() == 0 {
        assert(split_commas(s) == seq![Seq::<u8>::empty()]);
        assert(trim_tok(Seq::<u8>::empty()).len() == 0);
        assert(count_nonempty(seq![Seq::<u8>::empty()])
            == count_nonempty(seq![Seq::<u8>::empty()].drop_last()));
        assert(seq![Seq::<u8>::empty()].drop_last() =~= Seq::<Seq<u8>>::empty());
    } else {
        lemma_split_nonempty_bound(s.drop_last());
        lemma_split_len_pos(s.drop_last());
        let rest = split_commas(s.drop_last());
        if s.last() == COMMA_BYTE {
            let w = rest.push(Seq::<u8>::empty());
            assert(w.drop_last() =~= rest);
            assert(trim_tok(Seq::<u8>::empty()).len() == 0);
            assert(count_nonempty(w) == count_nonempty(rest));
        } else {
            let v = rest.last().push(s.last());
            let w = rest.update(rest.len() - 1, v);
            assert(w.drop_last() =~= rest.drop_last());
            assert(w.last() == v);
            assert(count_nonempty(w) <= count_nonempty(rest.drop_last()) + 1);
            assert(count_nonempty(rest.drop_last()) <= count_nonempty(rest)) by {
                lemma_count_nonempty_drop(rest);
            }
        }
    }
}

/// Law: grid alignment is kept whatever the tokens hold. The cursor after
/// any token list depends only on how many tokens were non-empty: it sits
/// at column `n % w` and row `n / w`, where `n` counts the non-empty
/// tokens — so unrecognized tokens advance it exactly like recognized ones.
pub proof fn lemma_cursor(toks: Seq<Seq<u8>>, w: int, ts: int, ox: int, oy: int)
    requires
        w >= 1,
    ensures
        build(toks, w, ts, ox, oy).1 == count_nonempty(toks) % w,
        build(toks, w, ts, ox, oy).2 == count_nonempty(toks) / w,
    decreases toks.len(),
{
    if toks.len() == 0 {
        vstd::arithmetic::div_mod::lemma_fundamental_div_mod_converse(0, w, 0, 0);
    } else {
        lemma_cursor(toks.drop_last(), w, ts, ox, oy);
        let n = count_nonempty(toks.drop_last());
        let col = build(toks.drop_last(), w, ts, ox, oy).1;
        let row = build(toks.drop_last(), w, ts, ox, oy).2;
        if trim_tok(toks.last()).len() > 0 {
            vstd::arithmetic::div_mod::lemma_fundamental_div_mod(n, w);
            vstd::arithmetic::div_mod::lemma_mod_bound(n, w);
            if col == w - 1 {
                assert(n + 1 == (row + 1) * w + 0) by (nonlinear_arith)
                    requires
                        n == w * row + col,
                        col == w - 1,
                {}
                vstd::arithmetic::div_mod::lemma_fundamental_div_mod_converse(
                    n + 1, w, row + 1, 0);
            } else {
                assert(n + 1 == row * w + (col + 1)) by (nonlinear_arith)
                    requires
                        n == w * row + col,
                {}
                vstd::arithmetic::div_mod::lemma_fundamental_div_mod_converse(
                    n + 1, w, row, col + 1);
            }
        }
    }
}

/// The tiles a token list places, described without the walking cursor:
/// the token whose non-empty ordinal is `n` (counting from zero) lands at
/// grid cell `(n % w, n / w)`.
pub open spec fn placed(toks: Seq<Seq<u8>>, w: int, ts: int, ox: int, oy: int)
    -> Seq<TileModel>
    decreases toks.len(),
{
    if toks.len() == 0 {
        Seq::empty()
    } else {
        let pre = placed(toks.drop_last(), w, ts, ox, oy);
        let tok = trim_tok(toks.last());
        if tok.len() > 0 {
            match token_kind(tok) {
                Some(k) => {
                    let n = count_nonempty(toks.drop_last());
                    pre.push(make_tile(k, n % w, n / w, ts, ox, oy))
                },
                None => pre,
            }
        } else {
            pre
        }
    }
}

/// Law: a map builds exactly one tile per recognized token, with the kind
/// the token names and the position the row-major formula gives: the tile
/// of the token with non-empty ordinal `n` is centered at
/// `origin + (n % w, n / w) * tile_size`, with the per-kind half-extent.
pub proof fn lemma_row_major(toks: Seq<Seq<u8>>, w: int, ts: int, ox: int, oy: int)
    requires
        w >= 1,
    ensures
        build(toks, w, ts, ox, oy).0 == placed(toks, w, ts, ox, oy),
    decreases toks.len(),
{
    if toks.len() == 0 {
    } else {
        lemma_row_major(toks.drop_last(), w, ts, ox, oy);
        lemma_cursor(toks.drop_last(), w, ts, ox, oy);
    }
}

/// Splitting always yields at least one token.
proof fn lemma_split_len_pos(s: Seq<u8>)
    ensures
        split_commas(s).len() >= 1,
    decreases s.len(),
{
    if s.len() > 0 {
        lemma_split_len_pos(s.drop_last());
    }
}

/// Dropping the last token cannot raise the non-empty count.
proof fn lemma_count_nonempty_drop(toks: Seq<Seq<u8>>)
    requires
        toks.len() > 0,
    ensures
        count_nonempty(toks.drop_last()) <= count_nonempty(toks),
{
}

} // verus!
