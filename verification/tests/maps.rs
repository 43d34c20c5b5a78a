use ecosim::{Board, GridMap, Location, PlantKind};

const EMPTY: char = '⬛';
const ROCK: char = '🪨';

#[test]
fn new_map_is_all_background() {
    let board = Board::new(3);
    let map = GridMap::new(board);
    assert_eq!(map.matrix.len(), 4);
    for row in &map.matrix {
        assert_eq!(row.len(), 4);
        for c in row {
            assert_eq!(*c, EMPTY);
        }
    }
    assert_eq!(map.matrix_scaled, map.matrix);
}

#[test]
fn render_scale_one_reproduces_background() {
    // an all-background board renders to the background glyph everywhere
    let board = Board::new(3);
    let mut map = GridMap::new(board);
    map.render(1);
    assert_eq!(map.matrix_scaled.len(), 4);
    for row in &map.matrix_scaled {
        assert_eq!(row.len(), 4);
        for c in row {
            assert_eq!(*c, EMPTY);
        }
    }
}

#[test]
fn render_puts_origin_at_bottom_left() {
    // the glyph plotted at grid coordinate (0, 0) prints in the last row,
    // first column of the render target
    let board = Board::new(3);
    let mut map = GridMap::new(board);
    let origin = Location { max: 3, x: 0, y: 0 };
    let top_right = Location { max: 3, x: 3, y: 3 };
    map.plot_entity(&origin, PlantKind::Fern.icon());
    map.plot_entity(&top_right, PlantKind::Tree.icon());
    map.render(1);
    assert_eq!(map.matrix_scaled[3][0], '🌿');
    assert_eq!(map.matrix_scaled[0][3], '🌲');
    assert_eq!(map.matrix_scaled[3][3], EMPTY);
}

#[test]
fn plot_later_overwrites_earlier() {
    let board = Board::new(3);
    let mut map = GridMap::new(board);
    let spot = Location { max: 3, x: 1, y: 2 };
    map.plot_entity(&spot, '🌿');
    map.plot_entity(&spot, ROCK);
    assert_eq!(map.matrix[1][2], ROCK);
}

#[test]
fn plot_entities_places_the_whole_batch() {
    let board = Board::new(3);
    let mut map = GridMap::new(board);
    let spots = vec![
        Location { max: 3, x: 0, y: 0 },
        Location { max: 3, x: 2, y: 1 },
        Location { max: 3, x: 3, y: 3 },
    ];
    map.plot_entities(&spots, ROCK);
    assert_eq!(map.matrix[0][0], ROCK);
    assert_eq!(map.matrix[2][1], ROCK);
    assert_eq!(map.matrix[3][3], ROCK);
    assert_eq!(map.matrix[1][1], EMPTY);
}

#[test]
fn render_reduces_blocks_and_rock_wins() {
    // a 4x4 board at scale 2 renders to 2x2 blocks; a rock anywhere in a
    // block takes precedence over any other glyph there
    let board = Board::new(3);
    let mut map = GridMap::new(board);
    map.plot_entity(&Location { max: 3, x: 0, y: 0 }, '🌿');
    map.plot_entity(&Location { max: 3, x: 1, y: 1 }, ROCK);
    map.plot_entity(&Location { max: 3, x: 2, y: 3 }, '🌲');
    map.render(2);
    assert_eq!(map.matrix_scaled.len(), 2);
    assert_eq!(map.matrix_scaled[0].len(), 2);
    // block x in {0,1}, y in {0,1} holds both the fern and the rock:
    // it prints at the bottom left, and the rock wins
    assert_eq!(map.matrix_scaled[1][0], ROCK);
    // block x in {2,3}, y in {2,3} holds only the tree, top right
    assert_eq!(map.matrix_scaled[0][1], '🌲');
    // the other two blocks are background
    assert_eq!(map.matrix_scaled[0][0], EMPTY);
    assert_eq!(map.matrix_scaled[1][1], EMPTY);
}

#[test]
fn render_keeps_full_matrix_intact() {
    let board = Board::new(3);
    let mut map = GridMap::new(board);
    map.plot_entity(&Location { max: 3, x: 2, y: 2 }, '🌿');
    let before = map.matrix.clone();
    map.render(2);
    assert_eq!(map.matrix, before);
}
