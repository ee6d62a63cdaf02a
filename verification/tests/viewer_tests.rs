use image_viewer::image_cache::{cache_key, ImageCache};
use image_viewer::image_data::ImageData;
use image_viewer::viewer::{
    command_for_character, command_for_named_key, command_for_wheel, escape_command, NamedKey,
    ViewerAction, ViewerCommand, ViewerCore, WheelDirection,
};

fn image(path: &str, width: u32) -> ImageData {
    ImageData { path: path.to_string(), width, height: 10, file_size: 2048 }
}

fn folder(names: &[&str]) -> Vec<String> {
    names.iter().map(|n| format!("/f/{}", n)).collect()
}

#[test]
fn cache_gives_back_what_was_put() {
    let mut cache = ImageCache::new(2);
    cache.put("/f/a.png", image("/f/a.png", 1));
    let got = cache.get("/f/a.png").unwrap();
    assert_eq!(got.width, 1);
    assert!(cache.get("/f/b.png").is_none());
    // the key follows path equality
    assert_eq!(cache.get("/f//./a.png").unwrap().path, "/f/a.png");
}

#[test]
fn cache_evicts_the_least_recently_used() {
    let mut cache = ImageCache::new(2);
    cache.put("/f/a.png", image("/f/a.png", 1));
    cache.put("/f/b.png", image("/f/b.png", 2));
    assert!(cache.get("/f/a.png").is_some()); // a is now the most recent
    cache.put("/f/c.png", image("/f/c.png", 3));
    assert!(cache.contains("/f/a.png"));
    assert!(!cache.contains("/f/b.png"));
    assert!(cache.contains("/f/c.png"));
    // replacing keeps the number of entries
    cache.put("/f/c.png", image("/f/c.png", 4));
    assert_eq!(cache.get("/f/c.png").unwrap().width, 4);
    assert!(cache.contains("/f/a.png"));
}

#[test]
fn zero_size_cache_holds_ten() {
    let mut cache = ImageCache::new(0);
    assert_eq!(cache.cache_size(), 0);
    for i in 0..11 {
        let p = format!("/f/{}.png", i);
        cache.put(&p, image(&p, i));
    }
    assert!(!cache.contains("/f/0.png"));
    assert!(cache.contains("/f/1.png"));
    assert!(cache.contains("/f/10.png"));
}

#[test]
fn default_cache_holds_five() {
    let mut cache = ImageCache::default();
    assert_eq!(cache.cache_size(), 5);
    for i in 0..6 {
        let p = format!("/f/{}.png", i);
        cache.put(&p, image(&p, i));
    }
    assert!(!cache.contains("/f/0.png"));
    for i in 1..6 {
        assert!(cache.contains(&format!("/f/{}.png", i)));
    }
}

#[test]
fn cache_keys_are_joined_components() {
    assert_eq!(cache_key("/a//b/./c/"), "/a/b/c");
    assert_eq!(cache_key("./x"), "./x");
    assert_eq!(cache_key("a/../b"), "a/../b");
    assert_eq!(cache_key("/"), "/");
    assert_eq!(cache_key(""), "");
}

#[test]
fn keys_map_to_commands() {
    assert_eq!(command_for_named_key(NamedKey::ArrowRight), Some(ViewerCommand::NextImage));
    assert_eq!(command_for_named_key(NamedKey::Space), Some(ViewerCommand::NextImage));
    assert_eq!(command_for_named_key(NamedKey::Backspace), Some(ViewerCommand::PreviousImage));
    assert_eq!(command_for_named_key(NamedKey::Home), Some(ViewerCommand::FirstImage));
    assert_eq!(command_for_named_key(NamedKey::End), Some(ViewerCommand::LastImage));
    assert_eq!(command_for_named_key(NamedKey::Escape), Some(ViewerCommand::Escape));
    assert_eq!(command_for_named_key(NamedKey::Other), None);
    assert_eq!(command_for_character("N"), Some(ViewerCommand::NextImage));
    assert_eq!(command_for_character("p"), Some(ViewerCommand::PreviousImage));
    assert_eq!(command_for_character("="), Some(ViewerCommand::ZoomIn));
    assert_eq!(command_for_character("-"), Some(ViewerCommand::ZoomOut));
    assert_eq!(command_for_character("0"), Some(ViewerCommand::ZoomActualSize));
    assert_eq!(command_for_character("w"), Some(ViewerCommand::ZoomFit));
    assert_eq!(command_for_character("W"), Some(ViewerCommand::ZoomFit));
    assert_eq!(command_for_character("f"), Some(ViewerCommand::ToggleFullscreen));
    assert_eq!(command_for_character("F"), Some(ViewerCommand::ToggleFullscreen));
    assert_eq!(command_for_character("Q"), Some(ViewerCommand::Quit));
    assert_eq!(command_for_character("nn"), None);
    assert_eq!(command_for_character("x"), None);
}

#[test]
fn escape_leaves_full_screen_before_quitting() {
    assert_eq!(escape_command(true), ViewerCommand::LeaveFullscreen);
    assert_eq!(escape_command(false), ViewerCommand::Quit);
}

#[test]
fn the_wheel_zooms() {
    assert_eq!(command_for_wheel(WheelDirection::Up), ViewerCommand::ZoomIn);
    assert_eq!(command_for_wheel(WheelDirection::Down), ViewerCommand::ZoomOut);
}

#[test]
fn opening_a_file_requests_it() {
    let mut viewer = ViewerCore::new();
    let mut cache = ImageCache::new(15);
    assert_eq!(viewer.title(), "Image Viewer");
    let action = viewer.open_listing(&mut cache, "/f/b.png", Ok(folder(&["a.png", "b.png", "c.txt"])));
    match action {
        ViewerAction::Load(p) => assert_eq!(p, "/f/b.png"),
        _ => panic!("expected a load"),
    }
    assert_eq!(viewer.file_manager().current_index(), 1);
}

#[test]
fn a_failed_listing_shows_an_error() {
    let mut viewer = ViewerCore::new();
    let mut cache = ImageCache::new(15);
    let action = viewer.open_listing(&mut cache, "/nowhere", Err(String::from("Cannot get parent directory")));
    assert!(matches!(action, ViewerAction::Nothing));
    assert_eq!(viewer.error_message().unwrap(), "Failed to load directory: Cannot get parent directory");
}

#[test]
fn a_loaded_image_is_shown_cached_and_its_neighbours_prefetched() {
    let mut viewer = ViewerCore::new();
    let mut cache = ImageCache::new(15);
    viewer.open_listing(&mut cache, "/f/b.png", Ok(folder(&["a.png", "b.png", "c.png"])));
    let action = viewer.image_loaded(&mut cache, Ok(image("/f/b.png", 7)));
    match action {
        ViewerAction::Prefetch(paths) => assert_eq!(
            paths,
            vec!["/f/c.png", "/f/a.png", "/f/b.png", "/f/c.png", "/f/a.png", "/f/a.png", "/f/c.png"]
        ),
        _ => panic!("expected a prefetch"),
    }
    assert_eq!(viewer.title(), "Image Viewer - b.png");
    assert!(viewer.error_message().is_none());
    assert!(cache.contains("/f/b.png"));
    // stepping back and forth finds the shown image in the cache
    viewer.previous_image(&mut cache);
    match viewer.next_image(&mut cache) {
        ViewerAction::Show(img) => assert_eq!(img.width, 7),
        _ => panic!("expected the cached image"),
    }
}

#[test]
fn a_failed_load_keeps_the_image_on_show() {
    let mut viewer = ViewerCore::new();
    let mut cache = ImageCache::new(15);
    viewer.image_loaded(&mut cache, Ok(image("/f/a.png", 1)));
    let action = viewer.image_loaded(&mut cache, Err(String::from("bad data")));
    assert!(matches!(action, ViewerAction::Nothing));
    assert_eq!(viewer.error_message().unwrap(), "Failed to load image: bad data");
    assert_eq!(viewer.current_image().as_ref().unwrap().path, "/f/a.png");
}

#[test]
fn first_and_last_on_an_empty_folder_do_nothing() {
    let mut viewer = ViewerCore::new();
    let mut cache = ImageCache::new(15);
    assert!(matches!(viewer.first_image(&mut cache), ViewerAction::Nothing));
    assert!(matches!(viewer.last_image(&mut cache), ViewerAction::Nothing));
    viewer.open_listing(&mut cache, "/f", Ok(folder(&["a.png", "b.png"])));
    match viewer.last_image(&mut cache) {
        ViewerAction::Load(p) => assert_eq!(p, "/f/b.png"),
        _ => panic!("expected a load"),
    }
}
