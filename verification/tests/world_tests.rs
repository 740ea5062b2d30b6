use gridworld::grid::Grid;
use gridworld::vector::{Vector2, Vector2u};
use gridworld::world::{Render, Tile, World};

#[test]
fn vector2_new_sets_both_components() {
    let v = Vector2u::new(7, 11);
    assert_eq!(v.x, 7);
    assert_eq!(v.y, 11);
    let w: Vector2<u32> = Vector2::new(0, u32::MAX);
    assert_eq!(w.x, 0);
    assert_eq!(w.y, u32::MAX);
}

#[test]
fn tile_renders_one_character() {
    assert_eq!(Tile { is_filled: true }.render_cell(), 'X');
    assert_eq!(Tile { is_filled: false }.render_cell(), '_');
}

#[test]
fn grid_of_tiles_renders_row_major_with_newlines() {
    let grid = Grid {
        size: Vector2u { x: 3, y: 2 },
        map: vec![
            Tile { is_filled: true },
            Tile { is_filled: false },
            Tile { is_filled: true },
            Tile { is_filled: false },
            Tile { is_filled: false },
            Tile { is_filled: true },
        ],
    };
    assert_eq!(grid.render(), "X_X\n__X\n");
}

#[test]
fn empty_grid_renders_empty_string() {
    let grid: Grid<Tile> = Grid { size: Vector2u { x: 0, y: 0 }, map: vec![] };
    assert_eq!(grid.render(), "");
}

#[test]
fn world_new_builds_a_well_formed_grid() {
    let world = World::new(Vector2u::new(5, 3));
    assert_eq!(world.grid.size.x, 5);
    assert_eq!(world.grid.size.y, 3);
    assert_eq!(world.grid.map.len(), 15);
    let rendered = world.grid.render();
    assert_eq!(rendered.len(), 18);
    assert!(rendered.chars().all(|c| c == 'X' || c == '_' || c == '\n'));
}
