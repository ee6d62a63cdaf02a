use image_viewer::order::{stable_sort, SortKey};
use image_viewer::session::{is_listed_image, startup_image_paths, SessionState};
use std::path::PathBuf;

fn strings(items: &[&str]) -> Vec<String> {
    items.iter().map(|s| s.to_string()).collect()
}

#[test]
fn test_app_state_default() {
    let state = SessionState::default();
    assert!(state.current_images().is_empty());
    assert_eq!(state.current_index(), 0);
    assert!(state.pending_paths().is_empty());
}

#[test]
fn test_next_image_logic() {
    let mut state = SessionState::new();

    // Empty list
    assert!(state.current_images().is_empty());
    assert!(state.next_image().is_none());

    // Test with images
    let images = strings(&["/test/image1.jpg", "/test/image2.jpg", "/test/image3.jpg"]);
    state.load_folder("/test/image1.jpg", images);
    assert_eq!(state.current_index(), 0);

    // Next from 0 -> 1
    state.next_image();
    assert_eq!(state.current_index(), 1);

    // Next from 2 -> 0 (wrap around)
    state.next_image();
    assert_eq!(state.current_index(), 2);
    let path = state.next_image();
    assert_eq!(state.current_index(), 0);
    assert_eq!(path.unwrap(), "/test/image1.jpg");
}

#[test]
fn test_previous_image_logic() {
    let mut state = SessionState::new();
    let images = strings(&["/test/image1.jpg", "/test/image2.jpg", "/test/image3.jpg"]);
    state.load_folder("/test/image2.jpg", images);
    assert_eq!(state.current_index(), 1);

    // Previous from 1 -> 0
    state.previous_image();
    assert_eq!(state.current_index(), 0);

    // Previous from 0 -> 2 (wrap around)
    let path = state.previous_image();
    assert_eq!(state.current_index(), 2);
    assert_eq!(path.unwrap(), "/test/image3.jpg");
}

#[test]
fn test_image_extension_filter() {
    let valid_extensions = ["jpg", "jpeg", "png", "gif", "bmp", "webp"];
    for ext in valid_extensions {
        let path = format!("/test/image.{}", ext);
        assert!(is_listed_image(&path));
    }

    let invalid_extensions = ["txt", "pdf", "doc"];
    for ext in invalid_extensions {
        let path = format!("/test/file.{}", ext);
        assert!(!is_listed_image(&path));
    }
}

#[test]
fn test_image_list_sorting() {
    let mut images = strings(&["/test/image3.jpg", "/test/image1.jpg", "/test/image2.jpg"]);
    stable_sort(SortKey::WholePath, &mut images);

    assert_eq!(images[0], "/test/image1.jpg");
    assert_eq!(images[1], "/test/image2.jpg");
    assert_eq!(images[2], "/test/image3.jpg");
}

#[test]
fn test_pending_paths_buffer() {
    let mut state = SessionState::new();
    let paths = strings(&["/test/image1.jpg", "/test/image2.jpg"]);

    // Add paths to buffer
    for path in paths.clone() {
        state.buffer_pending(path);
    }

    // Verify buffer contains paths
    assert_eq!(state.pending_paths().len(), 2);
    assert_eq!(state.pending_paths()[0], paths[0]);
    assert_eq!(state.pending_paths()[1], paths[1]);

    // Clear buffer
    let taken = state.frontend_ready();
    assert_eq!(taken, paths);
    assert!(state.pending_paths().is_empty());
}

#[test]
fn test_image_navigation_wraparound() {
    let mut state = SessionState::new();
    state.load_folder("image1.jpg", strings(&["image1.jpg", "image2.jpg", "image3.jpg"]));
    assert_eq!(state.current_index(), 0);

    // Next from start
    state.next_image();
    assert_eq!(state.current_index(), 1);

    // Next again
    state.next_image();
    assert_eq!(state.current_index(), 2);

    // Next wraps to start
    state.next_image();
    assert_eq!(state.current_index(), 0);

    // Previous from start wraps to end
    state.previous_image();
    assert_eq!(state.current_index(), 2);
}

#[test]
fn folder_load_filters_sorts_and_finds_the_opened_file() {
    let mut state = SessionState::new();
    let entries = strings(&["/p/c.PNG", "/p/notes.txt", "/p/a.webp", "/p/b.tiff", "/p/d.jpeg"]);
    let shown = state.load_folder("/p/d.jpeg", entries);
    assert_eq!(shown, "/p/d.jpeg");
    assert_eq!(state.current_images(), &strings(&["/p/a.webp", "/p/c.PNG", "/p/d.jpeg"])[..]);
    assert_eq!(state.current_index(), 2);
}

#[test]
fn folder_load_without_the_opened_file_starts_at_zero() {
    let mut state = SessionState::new();
    state.load_folder("/p/gone.png", strings(&["/p/b.png", "/p/a.png"]));
    assert_eq!(state.current_index(), 0);
    assert_eq!(state.current_images()[0], "/p/a.png");
}

#[test]
fn whole_path_order_matches_std_paths() {
    let samples = [
        "/a/b", "/a", "a/b", "./a", "a", "../x", "/a/b/c", "/ab", "/a.b", "a//b", "a/./b",
        "/", ".", "..", "a/..", "A", "/a/B", "b", "/a-b", "/a/b.", "",
    ];
    let mut ours = strings(&samples);
    stable_sort(SortKey::WholePath, &mut ours);
    let mut theirs: Vec<PathBuf> = samples.iter().map(PathBuf::from).collect();
    theirs.sort();
    let theirs: Vec<String> = theirs.iter().map(|p| p.to_str().unwrap().to_string()).collect();
    assert_eq!(ours, theirs);
}

#[test]
fn startup_arguments_that_name_images() {
    let args = strings(&["viewer", "photo.JPG", "notes.txt", "scan.Webp", "x.jpeg", "/a/b.gif.bak"]);
    assert_eq!(startup_image_paths(&args), strings(&["photo.JPG", "scan.Webp", "x.jpeg"]));
    assert!(startup_image_paths(&strings(&["photo.jpg"])).is_empty());
    assert!(startup_image_paths(&[]).is_empty());
}
