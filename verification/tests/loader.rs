use platman::tile::{Tile, TileType, COIN_HALF, WALL_HALF};
use platman::tilemap::{load_map, MAP_WIDTH, TILE_SIZE, X_OFFSET, Y_OFFSET};

fn load(text: &str) -> Vec<Tile> {
    load_map(&text.as_bytes().to_vec(), TILE_SIZE, MAP_WIDTH, X_OFFSET, Y_OFFSET)
}

#[test]
fn load_map_counts_and_kinds() {
    let tiles = load("1,2,3");
    assert_eq!(tiles.len(), 3);
    assert_eq!(tiles[0].kind, TileType::Wall);
    assert_eq!(tiles[1].kind, TileType::Teleporter);
    assert_eq!(tiles[2].kind, TileType::Coin);
    // Row-major positions: origin + (col, row) * tile size.
    assert_eq!(tiles[0].x, X_OFFSET);
    assert_eq!(tiles[0].y, Y_OFFSET);
    assert_eq!(tiles[1].x, X_OFFSET + TILE_SIZE);
    assert_eq!(tiles[1].y, Y_OFFSET);
    assert_eq!(tiles[2].x, X_OFFSET + 2 * TILE_SIZE);
    assert_eq!(tiles[2].y, Y_OFFSET);
    // Hitbox size is a per-kind constant.
    assert_eq!(tiles[0].half_x, WALL_HALF);
    assert_eq!(tiles[0].half_y, WALL_HALF);
    assert_eq!(tiles[1].half_x, COIN_HALF);
    assert_eq!(tiles[1].half_y, COIN_HALF);
    assert_eq!(tiles[2].half_x, COIN_HALF);
    assert_eq!(tiles[2].half_y, COIN_HALF);
}

#[test]
fn load_map_skips_unknown_tokens_but_advances() {
    // "x" builds nothing, yet the cursor still advances: grid alignment
    // is preserved.
    let tiles = load("1,x,3");
    assert_eq!(tiles.len(), 2);
    assert_eq!(tiles[0].kind, TileType::Wall);
    assert_eq!(tiles[1].kind, TileType::Coin);
    assert_eq!(tiles[1].x, X_OFFSET + 2 * TILE_SIZE);
}

#[test]
fn load_map_skips_empty_tokens_without_advancing() {
    let tiles = load("1,,3");
    assert_eq!(tiles.len(), 2);
    assert_eq!(tiles[1].x, X_OFFSET + TILE_SIZE);
}

#[test]
fn load_map_trims_newlines() {
    let tiles = load("1,\n2,3\n");
    assert_eq!(tiles.len(), 3);
    assert_eq!(tiles[1].kind, TileType::Teleporter);
    assert_eq!(tiles[2].kind, TileType::Coin);
}

#[test]
fn load_map_wraps_rows() {
    let tiles = load_map(&b"1,1,1".to_vec(), TILE_SIZE, 2, X_OFFSET, Y_OFFSET);
    assert_eq!(tiles.len(), 3);
    assert_eq!(tiles[0].x, X_OFFSET);
    assert_eq!(tiles[0].y, Y_OFFSET);
    assert_eq!(tiles[1].x, X_OFFSET + TILE_SIZE);
    assert_eq!(tiles[1].y, Y_OFFSET);
    // Third token wraps to column 0 of the next row.
    assert_eq!(tiles[2].x, X_OFFSET);
    assert_eq!(tiles[2].y, Y_OFFSET + TILE_SIZE);
}

#[test]
fn load_map_empty_text_builds_nothing() {
    let tiles = load("");
    assert_eq!(tiles.len(), 0);
}

#[test]
fn load_map_token_with_spaces_is_unrecognized() {
    // Only newlines are trimmed; "1 " is not the wall token, but it still
    // advances the cursor.
    let tiles = load("1 ,1");
    assert_eq!(tiles.len(), 1);
    assert_eq!(tiles[0].x, X_OFFSET + TILE_SIZE);
}
