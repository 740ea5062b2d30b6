use gridworld::carve::carve_room;
use gridworld::grid::{Grid, GridError};
use gridworld::vector::{Vector2, Vector2u};

fn vec2u(x: u32, y: u32) -> Vector2u {
    Vector2 { x, y }
}

fn create_grid_uint() -> Grid<u32> {
    Grid {
        size: Vector2u { x: 4, y: 4 },
        map: vec![0, 1, 2, 3, 4, 5, 6, 7, 8, 9, 10, 11, 12, 13, 14, 15],
    }
}

#[test]
fn test_carve_grid() {
    let mut grid = create_grid_uint();
    let _ = carve_room(&mut grid, vec2u(1, 1), vec2u(2, 2), |grid: &Grid<u32>, pos| {
        *grid.at(pos).unwrap() * 0
    });
    assert_eq!(*grid.at(vec2u(1, 1)).unwrap(), 0);
    assert_eq!(*grid.at(vec2u(0, 1)).unwrap(), 4);
    let _ = carve_room(&mut grid, vec2u(0, 0), vec2u(4, 4), |grid: &Grid<u32>, pos| {
        *grid.at(pos).unwrap() + 1
    });
    assert_eq!(*grid.at(vec2u(0, 0)).unwrap(), 1);
}

#[test]
fn grid_slice_method_works() {
    let grid = create_grid_uint();
    let slice = grid.get_slice(Vector2u::new(1, 1), Vector2u::new(2, 2)).unwrap();
    assert_eq!(*slice.at(vec2u(0, 0)).unwrap(), grid.at(vec2u(1, 1)).unwrap());
    assert_eq!(*slice.at(vec2u(1, 0)).unwrap(), grid.at(vec2u(2, 1)).unwrap());
}

#[test]
fn grid_assign_method() {
    let mut grid = create_grid_uint();
    let pos = vec2u(1, 1);
    grid.assign(pos, 4).unwrap();
    assert_eq!(*grid.at(pos).unwrap(), 4);
}

#[test]
fn grid_at_method_works() {
    let grid = create_grid_uint();
    assert_eq!(*grid.at(Vector2u::new(1, 1)).unwrap(), 5);
    assert_eq!(*grid.at(Vector2u::new(0, 0)).unwrap(), 0);
    assert_eq!(*grid.at(Vector2u::new(3, 0)).unwrap(), 3);
}

#[test]
fn world_at_panics_on_out_of_bounds() {
    let grid = create_grid_uint();
    assert_eq!(grid.at(Vector2u::new(5, 2)), Err(GridError::OutOfRange));
}

#[test]
fn at_and_assign_reject_every_out_of_range_coordinate() {
    let mut grid = create_grid_uint();
    // The bound is strict on both axes: one-past-the-end already fails.
    assert_eq!(grid.at(vec2u(4, 0)), Err(GridError::OutOfRange));
    assert_eq!(grid.at(vec2u(0, 4)), Err(GridError::OutOfRange));
    assert_eq!(grid.at(vec2u(4, 4)), Err(GridError::OutOfRange));
    assert_eq!(grid.at(vec2u(100, 0)), Err(GridError::OutOfRange));
    assert_eq!(grid.at(vec2u(0, u32::MAX)), Err(GridError::OutOfRange));
    assert_eq!(grid.assign(vec2u(4, 0), 9), Err(GridError::OutOfRange));
    assert_eq!(grid.assign(vec2u(0, 4), 9), Err(GridError::OutOfRange));
    assert_eq!(grid.assign(vec2u(7, 7), 9), Err(GridError::OutOfRange));
    // A failed write leaves the grid untouched.
    assert_eq!(*grid.at(vec2u(0, 0)).unwrap(), 0);
    assert_eq!(*grid.at(vec2u(3, 3)).unwrap(), 15);
}

#[test]
fn slice_cells_match_scenario_values() {
    let grid = create_grid_uint();
    let slice = grid.get_slice(vec2u(1, 1), vec2u(2, 2)).unwrap();
    assert_eq!(**slice.at(vec2u(0, 0)).unwrap(), 5);
    assert_eq!(**slice.at(vec2u(1, 0)).unwrap(), 6);
    assert_eq!(**slice.at(vec2u(0, 1)).unwrap(), 9);
    assert_eq!(**slice.at(vec2u(1, 1)).unwrap(), 10);
}

#[test]
fn slice_out_of_range_fails_instead_of_truncating() {
    let grid = create_grid_uint();
    assert!(grid.get_slice(vec2u(3, 3), vec2u(2, 2)).is_err());
    assert!(grid.get_slice(vec2u(0, 0), vec2u(5, 1)).is_err());
    assert!(grid.get_slice(vec2u(4, 0), vec2u(1, 1)).is_err());
    match grid.get_slice(vec2u(2, 2), vec2u(3, 1)) {
        Ok(_) => panic!("expected the out-of-range error"),
        Err(e) => assert_eq!(e, GridError::OutOfRange),
    }
}

#[test]
fn nested_slice_matches_double_offset_addressing() {
    let grid = create_grid_uint();
    let outer = grid.get_slice(vec2u(1, 1), vec2u(3, 3)).unwrap();
    let inner = outer.get_slice(vec2u(1, 1), vec2u(2, 2)).unwrap();
    for j in 0..2u32 {
        for i in 0..2u32 {
            let via_nested = ***inner.at(vec2u(i, j)).unwrap();
            let direct = *grid.at(vec2u(1 + 1 + i, 1 + 1 + j)).unwrap();
            assert_eq!(via_nested, direct);
        }
    }
}

#[test]
fn carve_zeroes_exactly_the_region() {
    let mut grid = create_grid_uint();
    carve_room(&mut grid, vec2u(1, 1), vec2u(2, 2), |_g: &Grid<u32>, _pos| 0u32).unwrap();
    assert_eq!(*grid.at(vec2u(1, 1)).unwrap(), 0);
    assert_eq!(*grid.at(vec2u(2, 1)).unwrap(), 0);
    assert_eq!(*grid.at(vec2u(1, 2)).unwrap(), 0);
    assert_eq!(*grid.at(vec2u(2, 2)).unwrap(), 0);
    // Neighbors stay untouched.
    assert_eq!(*grid.at(vec2u(0, 1)).unwrap(), 4);
    assert_eq!(*grid.at(vec2u(3, 1)).unwrap(), 7);
    assert_eq!(*grid.at(vec2u(1, 0)).unwrap(), 1);
    assert_eq!(*grid.at(vec2u(1, 3)).unwrap(), 13);
}

#[test]
fn carve_out_of_range_fails_and_leaves_grid_unchanged() {
    let mut grid = create_grid_uint();
    let r = carve_room(&mut grid, vec2u(3, 3), vec2u(2, 2), |_g: &Grid<u32>, _pos| 0u32);
    assert_eq!(r, Err(GridError::OutOfRange));
    for k in 0..16u32 {
        assert_eq!(*grid.at(vec2u(k % 4, k / 4)).unwrap(), k);
    }
}

#[test]
fn carve_sweep_order_is_row_major() {
    // The rule reads the cell to the left, already overwritten earlier in
    // the same sweep, so the result depends on the traversal order:
    // row-major propagates the first column's value across each row.
    let mut grid = create_grid_uint();
    let _ = carve_room(&mut grid, vec2u(1, 1), vec2u(3, 2), |g: &Grid<u32>, pos| {
        *g.at(Vector2u::new(pos.x - 1, pos.y)).unwrap()
    });
    assert_eq!(*grid.at(vec2u(1, 1)).unwrap(), 4);
    assert_eq!(*grid.at(vec2u(2, 1)).unwrap(), 4);
    assert_eq!(*grid.at(vec2u(3, 1)).unwrap(), 4);
    assert_eq!(*grid.at(vec2u(1, 2)).unwrap(), 8);
    assert_eq!(*grid.at(vec2u(2, 2)).unwrap(), 8);
    assert_eq!(*grid.at(vec2u(3, 2)).unwrap(), 8);
}
