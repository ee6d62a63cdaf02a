use image_viewer::thumbnails::{NavigationDirection, ThumbnailGrid, ThumbnailMessage, COLUMNS};

fn paths(n: usize) -> Vec<String> {
    (0..n).map(|i| format!("/pics/img{:02}.png", i)).collect()
}

#[test]
fn items_are_numbered_and_named() {
    let mut grid = ThumbnailGrid::new();
    let mut files = paths(3);
    files.push(String::from("/"));
    grid.load_files(&files, 2);
    assert_eq!(grid.len(), 4);
    assert_eq!(grid.selected_index(), 2);
    assert_eq!(grid.item(1).index, 1);
    assert_eq!(grid.item(1).path, "/pics/img01.png");
    assert_eq!(grid.item(1).file_name, "img01.png");
    assert_eq!(grid.item(3).file_name, "Unknown");
}

#[test]
fn selection_moves_by_rows_and_columns() {
    let mut grid = ThumbnailGrid::new();
    grid.load_files(&paths(12), 6);
    grid.move_selection(NavigationDirection::Up);
    assert_eq!(grid.selected_index(), 1);
    grid.move_selection(NavigationDirection::Up);
    assert_eq!(grid.selected_index(), 1);
    grid.move_selection(NavigationDirection::Down);
    assert_eq!(grid.selected_index(), 6);
    grid.move_selection(NavigationDirection::Down);
    assert_eq!(grid.selected_index(), 11);
    grid.move_selection(NavigationDirection::Down);
    assert_eq!(grid.selected_index(), 11);
    grid.move_selection(NavigationDirection::Right);
    assert_eq!(grid.selected_index(), 11);
    grid.move_selection(NavigationDirection::Left);
    assert_eq!(grid.selected_index(), 10);
}

#[test]
fn selection_stops_at_the_edges() {
    let mut grid = ThumbnailGrid::new();
    grid.load_files(&paths(3), 0);
    grid.move_selection(NavigationDirection::Left);
    assert_eq!(grid.selected_index(), 0);
    grid.move_selection(NavigationDirection::Down);
    assert_eq!(grid.selected_index(), 0);
    grid.move_selection(NavigationDirection::Right);
    grid.move_selection(NavigationDirection::Right);
    grid.move_selection(NavigationDirection::Right);
    assert_eq!(grid.selected_index(), 2);
}

#[test]
fn empty_grid_keeps_selection() {
    let mut grid = ThumbnailGrid::new();
    grid.load_files(&[], 4);
    grid.move_selection(NavigationDirection::Down);
    grid.move_selection(NavigationDirection::Left);
    assert_eq!(grid.selected_index(), 4);
}

#[test]
fn rows_hold_five_items() {
    let mut grid = ThumbnailGrid::new();
    grid.load_files(&paths(12), 0);
    assert_eq!(grid.rows(), vec![(0, 5), (5, 10), (10, 12)]);
    assert_eq!(COLUMNS, 5);
    grid.load_files(&paths(10), 0);
    assert_eq!(grid.rows(), vec![(0, 5), (5, 10)]);
    grid.load_files(&[], 0);
    assert!(grid.rows().is_empty());
    assert!(grid.is_selected(0));
    assert!(!grid.is_selected(1));
}

#[test]
fn messages_compare_by_value() {
    assert_eq!(ThumbnailMessage::SelectThumbnail(3), ThumbnailMessage::SelectThumbnail(3));
    assert_ne!(ThumbnailMessage::SelectThumbnail(3), ThumbnailMessage::Close);
}
