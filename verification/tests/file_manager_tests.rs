use image_viewer::file_manager::FileManager;

const DIR: &str = "/tmp/viewer-test";

fn listing(names: &[&str]) -> Vec<String> {
    names.iter().map(|name| format!("{}/{}", DIR, name)).collect()
}

fn path(name: &str) -> String {
    format!("{}/{}", DIR, name)
}

#[test]
fn test_new() {
    let manager = FileManager::new();
    assert_eq!(manager.total_count(), 0);
    assert_eq!(manager.current_index(), 0);
}

#[test]
fn test_load_directory() {
    let image_names = vec!["a.jpg", "b.png", "c.gif", "d.txt", "e.bmp"];
    let mut manager = FileManager::new();
    manager.load_listing(&path("a.jpg"), listing(&image_names));

    assert_eq!(manager.total_count(), 4); // txt is excluded
    assert_eq!(manager.current_index(), 0);
}

#[test]
fn test_navigation_next() {
    let image_names = vec!["1.jpg", "2.jpg", "3.jpg"];
    let mut manager = FileManager::new();
    manager.load_listing(&path("1.jpg"), listing(&image_names));

    assert_eq!(manager.current_index(), 0);

    manager.next();
    assert_eq!(manager.current_index(), 1);

    manager.next();
    assert_eq!(manager.current_index(), 2);

    // Wrap around
    manager.next();
    assert_eq!(manager.current_index(), 0);
}

#[test]
fn test_navigation_previous() {
    let image_names = vec!["1.jpg", "2.jpg", "3.jpg"];
    let mut manager = FileManager::new();
    manager.load_listing(&path("2.jpg"), listing(&image_names));
    assert_eq!(manager.current_index(), 1);

    manager.previous();
    assert_eq!(manager.current_index(), 0);

    // Wrap around to end
    manager.previous();
    assert_eq!(manager.current_index(), 2);
}

#[test]
fn test_jump_to() {
    let image_names = vec!["1.jpg", "2.jpg", "3.jpg"];
    let mut manager = FileManager::new();
    manager.load_listing(&path("1.jpg"), listing(&image_names));

    let result = manager.jump_to(2);
    assert!(result.is_some());
    assert_eq!(manager.current_index(), 2);

    let result = manager.jump_to(10);
    assert!(result.is_none());
    assert_eq!(manager.current_index(), 2); // Index unchanged
}

#[test]
fn test_first_last() {
    let image_names = vec!["1.jpg", "2.jpg", "3.jpg"];
    let mut manager = FileManager::new();
    manager.load_listing(&path("2.jpg"), listing(&image_names));

    manager.last();
    assert_eq!(manager.current_index(), 2);

    manager.first();
    assert_eq!(manager.current_index(), 0);
}

#[test]
fn test_is_supported_image() {
    assert!(FileManager::is_supported_image("test.jpg"));
    assert!(FileManager::is_supported_image("test.JPG"));
    assert!(FileManager::is_supported_image("test.jpeg"));
    assert!(FileManager::is_supported_image("test.png"));
    assert!(FileManager::is_supported_image("test.gif"));
    assert!(FileManager::is_supported_image("test.bmp"));
    assert!(FileManager::is_supported_image("test.webp"));
    assert!(FileManager::is_supported_image("test.tiff"));
    assert!(FileManager::is_supported_image("test.tif"));

    assert!(!FileManager::is_supported_image("test.txt"));
    assert!(!FileManager::is_supported_image("test.mp4"));
    assert!(!FileManager::is_supported_image("test"));
}

#[test]
fn test_sort_files() {
    let image_names = vec!["z.jpg", "a.jpg", "m.jpg", "b.jpg"];
    let mut manager = FileManager::new();
    manager.load_listing(&path("z.jpg"), listing(&image_names));

    let files = manager.get_all_files();
    let names: Vec<&str> = files
        .iter()
        .map(|p| p.rsplit('/').next().unwrap())
        .collect();

    assert_eq!(names, vec!["a.jpg", "b.jpg", "m.jpg", "z.jpg"]);
}

#[test]
fn test_empty_directory() {
    let mut manager = FileManager::new();
    manager.load_listing(DIR, Vec::new());

    assert_eq!(manager.total_count(), 0);
    assert!(manager.get_current().is_none());
    assert!(manager.next().is_none());
    assert!(manager.previous().is_none());
}

#[test]
fn opened_file_becomes_current_after_sorting() {
    let mut manager = FileManager::new();
    manager.load_listing(&path("z.jpg"), listing(&["z.jpg", "a.jpg", "m.jpg"]));
    assert_eq!(manager.current_index(), 2);
    assert_eq!(manager.get_current().unwrap(), &path("z.jpg"));
}

#[test]
fn opened_path_matches_by_components() {
    let mut manager = FileManager::new();
    let opened = format!("{}//./b.png", DIR);
    manager.load_listing(&opened, listing(&["a.png", "b.png", "c.png"]));
    assert_eq!(manager.current_index(), 1);
}

#[test]
fn opening_the_folder_keeps_the_old_index() {
    let mut manager = FileManager::new();
    manager.load_listing(&path("c.png"), listing(&["a.png", "b.png", "c.png"]));
    assert_eq!(manager.current_index(), 2);
    manager.load_listing(DIR, listing(&["x.png"]));
    assert_eq!(manager.current_index(), 2);
    assert!(manager.get_current().is_none());
    // stepping forward wraps into the new list
    assert_eq!(manager.next().unwrap(), &path("x.png"));
    assert_eq!(manager.current_index(), 0);
}

#[test]
fn sorting_is_by_file_name_not_folder() {
    let mut manager = FileManager::new();
    let files = vec![
        "/b/apple.png".to_string(),
        "/a/zebra.png".to_string(),
        "/c/mango.png".to_string(),
    ];
    manager.load_listing("/b/apple.png", files);
    let all: Vec<&str> = manager.get_all_files().iter().map(|s| s.as_str()).collect();
    assert_eq!(all, vec!["/b/apple.png", "/c/mango.png", "/a/zebra.png"]);
}

#[test]
fn equal_names_keep_their_order() {
    let manager = FileManager::new();
    let mut files = vec![
        "/x/same.png".to_string(),
        "/a/other.png".to_string(),
        "/y/same.png".to_string(),
    ];
    manager.sort_files(&mut files);
    assert_eq!(files, vec!["/a/other.png", "/x/same.png", "/y/same.png"]);
}

#[test]
fn uppercase_sorts_before_lowercase() {
    let manager = FileManager::new();
    let mut files = vec!["b.png".to_string(), "B.png".to_string(), "a.png".to_string()];
    manager.sort_files(&mut files);
    assert_eq!(files, vec!["B.png", "a.png", "b.png"]);
}

#[test]
fn peeks_wrap_both_ways() {
    let mut manager = FileManager::new();
    manager.load_listing(&path("b.png"), listing(&["a.png", "b.png", "c.png"]));
    assert_eq!(manager.peek_next(1).unwrap(), &path("c.png"));
    assert_eq!(manager.peek_next(2).unwrap(), &path("a.png"));
    assert_eq!(manager.peek_next(3).unwrap(), &path("b.png"));
    assert_eq!(manager.peek_previous(1).unwrap(), &path("a.png"));
    assert_eq!(manager.peek_previous(2).unwrap(), &path("c.png"));
    assert_eq!(manager.peek_previous(4).unwrap(), &path("a.png"));
    // offset places after, then the same places before, is where one started
    let ahead = manager.peek_next(7).unwrap().clone();
    assert_eq!(ahead, path("c.png"));
}

#[test]
fn next_then_previous_returns() {
    let mut manager = FileManager::new();
    manager.load_listing(&path("c.png"), listing(&["a.png", "b.png", "c.png"]));
    manager.next();
    assert_eq!(manager.current_index(), 0);
    manager.previous();
    assert_eq!(manager.current_index(), 2);
    for _ in 0..3 {
        manager.next();
    }
    assert_eq!(manager.current_index(), 2);
}

#[test]
fn hidden_and_extensionless_files_are_not_images() {
    assert!(!FileManager::is_supported_image(".png"));
    assert!(FileManager::is_supported_image("..png"));
    assert!(FileManager::is_supported_image("dir.png/"));
    assert!(FileManager::is_supported_image("x.TiF"));
    assert!(!FileManager::is_supported_image("/a/b.png/.."));
    assert!(FileManager::is_supported_image("/a/b.png/."));
    assert!(!FileManager::is_supported_image("archive.png.zip"));
}
