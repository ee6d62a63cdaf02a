use image_viewer::menu::{forwarded_actions, is_forwarded_action, ACTION_OPEN_FOLDER, ACTION_ZOOM_IN};

#[test]
fn forwarded_actions_have_no_duplicates() {
    let mut sorted = forwarded_actions();
    let count = sorted.len();
    sorted.sort_unstable();
    sorted.dedup();
    assert_eq!(sorted.len(), count);
}

#[test]
fn forwarded_actions_are_kebab_case() {
    for action in forwarded_actions() {
        assert!(
            action.chars().all(|c| c.is_ascii_lowercase() || c == '-'),
            "action id `{action}` should be kebab-case"
        );
    }
}

#[test]
fn only_listed_menu_items_are_forwarded() {
    assert!(is_forwarded_action(ACTION_ZOOM_IN));
    assert!(is_forwarded_action("open-folder-dialog"));
    assert_eq!(ACTION_OPEN_FOLDER, "open-folder-dialog");
    assert!(!is_forwarded_action("quit"));
    assert!(!is_forwarded_action("zoom-in "));
    assert!(!is_forwarded_action(""));
    assert_eq!(forwarded_actions().len(), 11);
}
