//! The ids of the menu items that mirror keyboard shortcuts, and which menu
//! clicks are passed on to the page as a `menu-command` event.
use vstd::prelude::*;

verus! {

pub const ACTION_NEXT_IMAGE: &'static str = "next-image";

pub const ACTION_PREVIOUS_IMAGE: &'static str = "previous-image";

pub const ACTION_FIRST_IMAGE: &'static str = "first-image";

pub const ACTION_LAST_IMAGE: &'static str = "last-image";

pub const ACTION_ZOOM_IN: &'static str = "zoom-in";

pub const ACTION_ZOOM_OUT: &'static str = "zoom-out";

pub const ACTION_ACTUAL_SIZE: &'static str = "actual-size";

pub const ACTION_FIT_TO_WINDOW: &'static str = "fit-to-window";

pub const ACTION_TOGGLE_THUMBNAILS: &'static str = "toggle-thumbnails";

pub const ACTION_OPEN_FILE: &'static str = "open-file-dialog";

pub const ACTION_OPEN_FOLDER: &'static str = "open-folder-dialog";

/// The ids passed on to the page, in menu order.
pub open spec fn forwarded_action_ids() -> Seq<Seq<char>> {
    seq![
        "next-image"@,
        "previous-image"@,
        "first-image"@,
        "last-image"@,
        "zoom-in"@,
        "zoom-out"@,
        "actual-size"@,
        "fit-to-window"@,
        "toggle-thumbnails"@,
        "open-file-dialog"@,
        "open-folder-dialog"@,
    ]
}

/// The ids of the menu items whose clicks are passed on to the page.
pub fn forwarded_actions() -> (r: Vec<&'static str>)
    ensures
        r@.map_values(|a: &str| a@) == forwarded_action_ids(),
{
    let r = vec![
        ACTION_NEXT_IMAGE,
        ACTION_PREVIOUS_IMAGE,
        ACTION_FIRST_IMAGE,
        ACTION_LAST_IMAGE,
        ACTION_ZOOM_IN,
        ACTION_ZOOM_OUT,
        ACTION_ACTUAL_SIZE,
        ACTION_FIT_TO_WINDOW,
        ACTION_TOGGLE_THUMBNAILS,
        ACTION_OPEN_FILE,
        ACTION_OPEN_FOLDER,
    ];
    assert(r@.map_values(|a: &str| a@) =~= forwarded_action_ids());
    r
}

/// Whether two texts are the same characters.
fn same_text(a: &str, b: &str) -> (r: bool)
    ensures
        r == (a@ == b@),
{
    let va = crate::path::chars_of(a);
    let vb = crate::path::chars_of(b);
    if va.len() != vb.len() {
        return false;
    }
    let mut i: usize = 0;
    while i < va.len()
        invariant
            va.len() == vb.len(),
            va@ == a@,
            vb@ == b@,
            i <= va.len(),
            forall|j: int| 0 <= j < i ==> va@[j] == vb@[j],
        decreases va.len() - i,
    {
        if va[i] != vb[i] {
            return false;
        }
        i = i + 1;
    }
    assert(va@ =~= vb@);
    true
}

/// Whether a click on the menu item `action` is passed on to the page: only
/// the ids of `forwarded_actions` are.
pub fn is_forwarded_action(action: &str) -> (r: bool)
    ensures
        r == forwarded_action_ids().contains(action@),
{
    let ids = forwarded_actions();
    let ghost views = ids@.map_values(|a: &str| a@);
    let mut i: usize = 0;
    while i < ids.len()
        invariant
            i <= ids.len(),
            views == ids@.map_values(|a: &str| a@),
            views == forwarded_action_ids(),
            forall|j: int| 0 <= j < i ==> views[j] != action@,
        decreases ids.len() - i,
    {
        if same_text(ids[i], action) {
            assert(views[i as int] == action@);
            return true;
        }
        i = i + 1;
    }
    false
}

/// A menu click is passed on to the page exactly when its id is one of the
/// eleven action ids: the next, previous, first and last image, zoom in and
/// out, actual size, fit to window, the thumbnail toggle, and the open file
/// and open folder dialogs.
pub proof fn law_every_action_is_forwarded(id: Seq<char>)
    ensures
        forwarded_action_ids().contains(id) <==> (id == ACTION_NEXT_IMAGE@ || id
            == ACTION_PREVIOUS_IMAGE@ || id == ACTION_FIRST_IMAGE@ || id == ACTION_LAST_IMAGE@ || id
            == ACTION_ZOOM_IN@ || id == ACTION_ZOOM_OUT@ || id == ACTION_ACTUAL_SIZE@ || id
            == ACTION_FIT_TO_WINDOW@ || id == ACTION_TOGGLE_THUMBNAILS@ || id == ACTION_OPEN_FILE@
            || id == ACTION_OPEN_FOLDER@),
{
    let ids = forwarded_action_ids();
    assert(ids[0] == ACTION_NEXT_IMAGE@);
    assert(ids[1] == ACTION_PREVIOUS_IMAGE@);
    assert(ids[2] == ACTION_FIRST_IMAGE@);
    assert(ids[3] == ACTION_LAST_IMAGE@);
    assert(ids[4] == ACTION_ZOOM_IN@);
    assert(ids[5] == ACTION_ZOOM_OUT@);
    assert(ids[6] == ACTION_ACTUAL_SIZE@);
    assert(ids[7] == ACTION_FIT_TO_WINDOW@);
    assert(ids[8] == ACTION_TOGGLE_THUMBNAILS@);
    assert(ids[9] == ACTION_OPEN_FILE@);
    assert(ids[10] == ACTION_OPEN_FOLDER@);
    if ids.contains(id) {
        let i = choose|i: int| 0 <= i < ids.len() && ids[i] == id;
        assert(0 <= i < 11);
    }
}

/// A character of a kebab-case id: a lowercase ASCII letter or `-`.
pub open spec fn is_kebab_char(c: char) -> bool {
    ('a' <= c && c <= 'z') || c == '-'
}

/// Every forwarded id is written in kebab case.
pub proof fn law_forwarded_actions_are_kebab_case()
    ensures
        forall|i: int, j: int|
            0 <= i < forwarded_action_ids().len() && 0 <= j < forwarded_action_ids()[i].len()
                ==> is_kebab_char(#[trigger] forwarded_action_ids()[i][j]),
{
    reveal_strlit("next-image");
    reveal_strlit("previous-image");
    reveal_strlit("first-image");
    reveal_strlit("last-image");
    reveal_strlit("zoom-in");
    reveal_strlit("zoom-out");
    reveal_strlit("actual-size");
    reveal_strlit("fit-to-window");
    reveal_strlit("toggle-thumbnails");
    reveal_strlit("open-file-dialog");
    reveal_strlit("open-folder-dialog");
}

/// No id is forwarded twice.
pub proof fn law_forwarded_actions_are_distinct()
    ensures
        forall|i: int, j: int|
            0 <= i < j < forwarded_action_ids().len() ==> forwarded_action_ids()[i]
                != forwarded_action_ids()[j],
{
    reveal_strlit("next-image");
    reveal_strlit("previous-image");
    reveal_strlit("first-image");
    reveal_strlit("last-image");
    reveal_strlit("zoom-in");
    reveal_strlit("zoom-out");
    reveal_strlit("actual-size");
    reveal_strlit("fit-to-window");
    reveal_strlit("toggle-thumbnails");
    reveal_strlit("open-file-dialog");
    reveal_strlit("open-folder-dialog");
    let ids = forwarded_action_ids();
    assert forall|i: int, j: int| 0 <= i < j < ids.len() implies ids[i] != ids[j] by {
        if ids[i] == ids[j] {
            assert(ids[i].len() == ids[j].len());
            assert(ids[i][0] == ids[j][0]);
            assert(ids[i][ids[i].len() - 1] == ids[j][ids[j].len() - 1]);
            assert(ids[i][1] == ids[j][1]);
            assert(ids[i][5] == ids[j][5]);
        }
    }
}

} // verus!
