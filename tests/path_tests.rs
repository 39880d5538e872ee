use tower_defense::grid::{cell_center, get_tile_type, TileGrid, TileType};
use tower_defense::path::{extract, PathError, MAX_PATH_STEPS};

const WATER: u32 = 1;
const GRASS: u32 = 0;
const ROAD: u32 = 2;
const START: u32 = 20;
const END: u32 = 21;

fn grid_with(side: usize, cells: &[(usize, usize, u32)]) -> TileGrid {
    let mut ids = vec![WATER; side * side];
    for &(x, y, id) in cells {
        ids[y * side + x] = id;
    }
    TileGrid::new(side, ids).expect("square grid")
}

#[test]
fn tile_classification() {
    assert_eq!(get_tile_type(0), TileType::Grass);
    assert_eq!(get_tile_type(1), TileType::Water);
    for id in 2..=7 {
        assert_eq!(get_tile_type(id), TileType::Road);
    }
    for id in 8..=19 {
        assert_eq!(get_tile_type(id), TileType::Water);
    }
    assert_eq!(get_tile_type(20), TileType::Start);
    assert_eq!(get_tile_type(21), TileType::End);
    assert_eq!(get_tile_type(22), TileType::Water);
}

#[test]
fn grid_must_be_square() {
    assert!(TileGrid::new(3, vec![0; 8]).is_none());
    assert!(TileGrid::new(3, vec![0; 9]).is_some());
    assert!(TileGrid::new(0, vec![]).is_some());
}

#[test]
fn cell_centers_of_reference_layout() {
    let p = cell_center(20, 0, 0);
    assert_eq!((p.x, p.y), (-304_000, 354_000));
    let q = cell_center(20, 19, 19);
    assert_eq!((q.x, q.y), (304_000, -254_000));
}

#[test]
fn straight_road_gives_six_waypoints() {
    // start, four road tiles, end: a road five steps long
    let g = grid_with(
        20,
        &[(2, 5, START), (3, 5, ROAD), (4, 5, ROAD), (5, 5, ROAD), (6, 5, ROAD), (7, 5, END)],
    );
    let path = extract(&g).expect("one start");
    assert_eq!(path.points.len(), 6);
    assert!(path.complete);
    for (i, p) in path.points.iter().enumerate() {
        assert_eq!(*p, cell_center(20, 2 + i, 5));
    }
}

#[test]
fn winding_road_ends_on_end_tile() {
    let road = [(0, 0), (1, 0), (1, 1), (1, 2), (2, 2), (3, 2), (3, 1)];
    let mut cells: Vec<(usize, usize, u32)> = road.iter().map(|&(x, y)| (x, y, ROAD)).collect();
    cells[0].2 = START;
    cells[6].2 = END;
    let g = grid_with(6, &cells);
    let path = extract(&g).unwrap();
    assert!(path.complete);
    assert_eq!(path.points.len(), road.len());
    assert_eq!(*path.points.last().unwrap(), cell_center(6, 3, 1));
    for (i, &(x, y)) in road.iter().enumerate() {
        assert_eq!(path.points[i], cell_center(6, x, y));
    }
    for w in path.points.windows(2) {
        assert_eq!((w[1].x - w[0].x).abs() + (w[1].y - w[0].y).abs(), 32_000);
    }
}

#[test]
fn no_start_is_a_configuration_error() {
    let g = grid_with(5, &[(1, 1, ROAD), (2, 1, END)]);
    assert_eq!(extract(&g).err(), Some(PathError::NoStart));
}

#[test]
fn two_starts_are_a_configuration_error() {
    let g = grid_with(5, &[(0, 0, START), (1, 0, ROAD), (2, 0, END), (4, 4, START)]);
    assert_eq!(extract(&g).err(), Some(PathError::MultipleStarts));
}

#[test]
fn dead_end_gives_incomplete_path() {
    let g = grid_with(5, &[(0, 2, START), (1, 2, ROAD), (2, 2, ROAD), (4, 2, END)]);
    let path = extract(&g).unwrap();
    assert!(!path.complete);
    assert_eq!(path.points.len(), 3);
}

#[test]
fn start_alone_gives_one_point() {
    let g = grid_with(3, &[(1, 1, START), (0, 0, GRASS)]);
    let path = extract(&g).unwrap();
    assert_eq!(path.points, vec![cell_center(3, 1, 1)]);
    assert!(!path.complete);
}

#[test]
fn fork_takes_up_before_down_left_right() {
    // from (2, 2) the road goes both up and right: up is taken
    let g = grid_with(
        5,
        &[(1, 2, START), (2, 2, ROAD), (2, 1, ROAD), (2, 0, END), (3, 2, ROAD), (4, 2, END)],
    );
    let path = extract(&g).unwrap();
    assert_eq!(
        path.points,
        vec![cell_center(5, 1, 2), cell_center(5, 2, 2), cell_center(5, 2, 1), cell_center(5, 2, 0)]
    );
    // with the upper branch gone, down comes before right
    let g = grid_with(
        5,
        &[(1, 2, START), (2, 2, ROAD), (2, 3, ROAD), (2, 4, END), (3, 2, ROAD), (4, 2, END)],
    );
    let path = extract(&g).unwrap();
    assert_eq!(path.points[2], cell_center(5, 2, 3));
    // left comes before right
    let g = grid_with(
        5,
        &[(2, 0, START), (2, 1, ROAD), (1, 1, END), (3, 1, ROAD), (4, 1, END)],
    );
    let path = extract(&g).unwrap();
    assert_eq!(path.points[2], cell_center(5, 1, 1));
}

#[test]
fn long_road_stops_after_step_limit() {
    // a straight road much longer than the step limit, with no end tile
    let side = 150;
    let mut cells = vec![(0, 0, START)];
    for x in 1..side {
        cells.push((x, 0, ROAD));
    }
    let g = grid_with(side, &cells);
    let path = extract(&g).unwrap();
    assert_eq!(path.points.len(), MAX_PATH_STEPS + 1);
    assert_eq!(*path.points.last().unwrap(), cell_center(side, MAX_PATH_STEPS, 0));
    assert!(!path.complete);
}
