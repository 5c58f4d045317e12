use snake::direction::{parse_key, Direction};
use snake::game::Game;
use snake::tile::Tile;

fn idx(g: &Game, x: i32, y: i32) -> usize {
    (x as usize) * (g.height as usize) + (y as usize)
}

fn food_cells(g: &Game) -> Vec<(i32, i32)> {
    let mut found = Vec::new();
    for x in 0..g.width {
        for y in 0..g.height {
            if g.tiles[idx(g, x, y)] == Tile::Food {
                found.push((x, y));
            }
        }
    }
    found
}

fn snake_cell_count(g: &Game) -> usize {
    let mut count = 0;
    for x in 0..g.width {
        for y in 0..g.height {
            if matches!(g.tiles[idx(g, x, y)], Tile::Snake(_)) {
                count += 1;
            }
        }
    }
    count
}

/// Removes every food tile, so a test can place food deterministically.
fn clear_food(g: &mut Game) {
    for i in 0..g.tiles.len() {
        if g.tiles[i] == Tile::Food {
            g.tiles[i] = Tile::Empty;
        }
    }
}

#[test]
fn opposite_is_involutive() {
    for d in [
        Direction::Up,
        Direction::Down,
        Direction::Left,
        Direction::Right,
    ] {
        assert_eq!(d.opposite().opposite(), d);
    }
}

#[test]
fn opposite_pairs() {
    assert_eq!(Direction::Up.opposite(), Direction::Down);
    assert_eq!(Direction::Down.opposite(), Direction::Up);
    assert_eq!(Direction::Left.opposite(), Direction::Right);
    assert_eq!(Direction::Right.opposite(), Direction::Left);
}

#[test]
fn parse_key_recognizes_wasd() {
    assert_eq!(parse_key(b'w'), Some(Direction::Up));
    assert_eq!(parse_key(b's'), Some(Direction::Down));
    assert_eq!(parse_key(b'a'), Some(Direction::Left));
    assert_eq!(parse_key(b'd'), Some(Direction::Right));
}

#[test]
fn parse_key_ignores_other_bytes() {
    assert_eq!(parse_key(b'x'), None);
    assert_eq!(parse_key(b'W'), None);
    assert_eq!(parse_key(0), None);
    assert_eq!(parse_key(255), None);
}

#[test]
fn set_direction_rejects_reverse_and_changes_nothing() {
    let mut game = Game::new(16, 16);
    let tiles_before = game.tiles.clone();
    assert_eq!(game.set_direction(Direction::Down), Err(()));
    assert_eq!(game.direction, Direction::Up);
    assert_eq!(game.tiles, tiles_before);
    assert_eq!(game.length, 3);
    assert!(game.alive());
}

#[test]
fn set_direction_accepts_a_turn() {
    let mut game = Game::new(16, 16);
    assert_eq!(game.set_direction(Direction::Left), Ok(()));
    assert_eq!(game.direction, Direction::Left);
    assert_eq!(game.set_direction(Direction::Down), Ok(()));
    assert_eq!(game.direction, Direction::Down);
    assert_eq!(game.set_direction(Direction::Up), Err(()));
    assert_eq!(game.direction, Direction::Down);
}

#[test]
fn tick_moves_head_one_cell_up() {
    let mut game = Game::new(16, 16);
    assert_eq!((game.head_x, game.head_y), (8, 8));
    // Pin the food somewhere off the snake's path.
    clear_food(&mut game);
    let i = idx(&game, 0, 0);
    game.tiles[i] = Tile::Food;
    game.update();
    assert_eq!((game.head_x, game.head_y), (8, 7));
    assert!(game.alive());
    assert_eq!(game.length, 3);
    assert_eq!(game.tiles[idx(&game, 8, 7)], Tile::Snake(1));
}

#[test]
fn tick_off_the_left_edge_kills() {
    let mut game = Game::new(16, 16);
    game.head_x = 0;
    game.head_y = 8;
    assert_eq!(game.set_direction(Direction::Left), Ok(()));
    let tiles_before = game.tiles.clone();
    game.update();
    assert!(!game.alive());
    assert_eq!(game.head_x, -1);
    assert_eq!(game.tiles, tiles_before);
    assert_eq!(game.length, 3);
}

#[test]
fn tick_off_the_top_edge_mutates_no_tile() {
    let mut game = Game::new(16, 16);
    game.head_y = 0;
    let tiles_before = game.tiles.clone();
    game.update();
    assert!(!game.alive());
    assert_eq!((game.head_x, game.head_y), (8, -1));
    assert_eq!(game.tiles, tiles_before);
}

#[test]
fn tick_onto_a_snake_segment_kills() {
    let mut game = Game::new(16, 16);
    clear_food(&mut game);
    let food = idx(&game, 0, 0);
    game.tiles[food] = Tile::Food;
    let blocked = idx(&game, 8, 7);
    game.tiles[blocked] = Tile::Snake(1);
    let tiles_before = game.tiles.clone();
    game.update();
    assert!(!game.alive());
    assert_eq!(game.tiles, tiles_before);
    assert_eq!(game.length, 3);
}

#[test]
fn tick_onto_food_grows_and_respawns_food() {
    let mut game = Game::new(16, 16);
    clear_food(&mut game);
    let i = idx(&game, 8, 7);
    game.tiles[i] = Tile::Food;
    game.update();
    assert!(game.alive());
    assert_eq!(game.length, 4);
    assert_eq!(game.tiles[idx(&game, 8, 7)], Tile::Snake(1));
    let foods = food_cells(&game);
    assert_eq!(foods.len(), 1);
    assert_ne!(foods[0], (8, 7));
}

#[test]
fn snake_cell_count_grows_one_per_tick_up_to_length() {
    let mut game = Game::new(16, 16);
    clear_food(&mut game);
    let i = idx(&game, 0, 0);
    game.tiles[i] = Tile::Food;
    let expected = [1, 2, 3, 3];
    for count in expected {
        game.update();
        assert!(game.alive());
        assert_eq!(snake_cell_count(&game), count);
        assert_eq!(game.length, 3);
    }
}

#[test]
fn exactly_one_food_while_alive() {
    let mut game = Game::new(16, 16);
    assert_eq!(food_cells(&game).len(), 1);
    clear_food(&mut game);
    let i = idx(&game, 0, 0);
    game.tiles[i] = Tile::Food;
    game.update();
    game.update();
    assert!(game.alive());
    assert_eq!(food_cells(&game).len(), 1);
}

#[test]
fn food_on_a_single_cell_grid_takes_the_only_cell() {
    let game = Game::new(1, 1);
    assert_eq!(game.tiles, vec![Tile::Food]);
    assert_eq!((game.head_x, game.head_y), (0, 0));
    assert!(game.alive());
}

#[test]
fn eating_with_one_empty_cell_puts_food_there() {
    let mut game = Game::new(2, 1);
    game.tiles[0] = Tile::Food;
    game.tiles[1] = Tile::Empty;
    game.head_x = 1;
    game.head_y = 0;
    assert_eq!(game.set_direction(Direction::Left), Ok(()));
    game.update();
    assert!(game.alive());
    assert_eq!(game.length, 4);
    assert_eq!(game.tiles[0], Tile::Snake(1));
    assert_eq!(game.tiles[1], Tile::Food);
}

#[test]
fn eating_the_last_free_cell_leaves_no_food() {
    let mut game = Game::new(2, 1);
    game.tiles[0] = Tile::Food;
    game.tiles[1] = Tile::Snake(1);
    game.head_x = 1;
    game.head_y = 0;
    assert_eq!(game.set_direction(Direction::Left), Ok(()));
    game.update();
    assert!(game.alive());
    assert_eq!(game.length, 4);
    assert_eq!(game.tiles[0], Tile::Snake(1));
    assert_eq!(game.tiles[1], Tile::Snake(2));
    assert_eq!(food_cells(&game).len(), 0);
}

#[test]
fn glyphs_depend_only_on_tile_kind() {
    assert_eq!(Tile::Empty.ascii_rep(), "  ");
    assert_eq!(Tile::Food.ascii_rep(), "><");
    assert_eq!(Tile::Snake(0).ascii_rep(), Tile::Snake(7).ascii_rep());
    assert_eq!(Tile::Snake(0).ascii_rep(), "██");
}

#[test]
fn render_draws_borders_rows_and_glyphs() {
    let mut game = Game::new(2, 2);
    for i in 0..game.tiles.len() {
        game.tiles[i] = Tile::Empty;
    }
    game.tiles[0] = Tile::Food;
    game.tiles[3] = Tile::Snake(2);
    let expected = "  ----\n| ><   |\n|   ██ |\n  ----\n";
    assert_eq!(game.render_ascii(), expected);
}
