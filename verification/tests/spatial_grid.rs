use archflow_logic::ecs::simd_integration::SpatialGrid;

#[test]
fn grid_insert_and_query_around() {
    let mut grid = SpatialGrid::new();
    grid.insert(0, (0, 0, 0));
    grid.insert(1, (0, 0, 0));
    grid.insert(2, (5, 5, 5));

    let nearby = grid.query_around((0, 0, 0), 1);
    assert!(nearby.contains(&0));
    assert!(nearby.contains(&1));
    assert!(!nearby.contains(&2));
}

#[test]
fn grid_query_around_visits_layers_rows_then_cells() {
    let mut grid = SpatialGrid::new();
    grid.insert(10, (1, 0, 0));
    grid.insert(11, (0, 1, 0));
    grid.insert(12, (0, 0, 1));
    grid.insert(13, (-1, -1, -1));
    grid.insert(14, (2, 0, 0));
    assert_eq!(grid.query_around((0, 0, 0), 1), vec![13, 10, 11, 12]);
    assert_eq!(grid.query_around((0, 0, 0), 0), Vec::<usize>::new());
    assert_eq!(grid.query_around((0, 0, 0), -1), Vec::<usize>::new());
}

#[test]
fn grid_remove() {
    let mut grid = SpatialGrid::new();
    grid.insert(0, (0, 0, 0));
    grid.insert(1, (0, 0, 0));

    grid.remove(0, (0, 0, 0));

    let cell = grid.query_cell((0, 0, 0));
    assert_eq!(cell.len(), 1);
    assert!(cell.contains(&1));
    // The emptied cell still counts as a cell.
    grid.remove(1, (0, 0, 0));
    assert_eq!(grid.cell_count(), 1);
    assert_eq!(grid.entity_count(), 0);
}

#[test]
fn grid_update() {
    let mut grid = SpatialGrid::new();
    grid.insert(0, (0, 0, 0));
    grid.update(0, (0, 0, 0), (10, 10, 10));

    assert!(grid.query_cell((0, 0, 0)).is_empty());
    assert!(grid.query_cell((10, 10, 10)).contains(&0));

    grid.update(0, (10, 10, 10), (10, 10, 10));
    assert_eq!(grid.query_cell((10, 10, 10)), vec![0]);
}

#[test]
fn grid_clear() {
    let mut grid = SpatialGrid::new();
    grid.insert(0, (0, 0, 0));
    grid.insert(1, (5, 5, 5));

    grid.clear();

    assert_eq!(grid.cell_count(), 0);
    assert_eq!(grid.entity_count(), 0);
}

#[test]
fn grid_counts() {
    let mut grid = SpatialGrid::new();
    for i in 0..10 {
        grid.insert(i as usize, (i, 0, 0));
    }
    assert_eq!(grid.cell_count(), 10);
    assert_eq!(grid.entity_count(), 10);
}

#[test]
fn grid_same_cell_keeps_insertion_order() {
    let mut grid = SpatialGrid::new();
    grid.insert(2, (0, 0, 0));
    grid.insert(0, (0, 0, 0));
    grid.insert(1, (0, 0, 0));
    assert_eq!(grid.query_cell((0, 0, 0)), vec![2, 0, 1]);
    assert_eq!(grid.cell_count(), 1);
}
