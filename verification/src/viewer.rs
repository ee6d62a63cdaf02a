//! The viewer's decisions: which image to show or load after each event,
//! which neighbours to load ahead, what the window title says, and which key
//! does what. Loading, waiting and drawing are done by the caller, who hands
//! back what came of them.
use vstd::prelude::*;
use vstd::string::*;
use crate::file_manager::{step_back, supported_images, wrap_backward, wrap_forward, FileManager};
use crate::order::{is_stable_sort, SortKey};
use crate::path::same_path;
use crate::image_cache::{after_get, lookup, path_key, ImageCache};
use crate::image_data::ImageData;
use crate::thumbnails::display_name;

verus! {

/// What the caller is to do after an event.
pub enum ViewerAction {
    /// Nothing.
    Nothing,
    /// Show this image, found in the cache, as if it had just been loaded.
    Show(ImageData),
    /// Load the image at this path in the background.
    Load(String),
    /// Load these images ahead into the cache, in this order.
    Prefetch(Vec<String>),
}

/// A command that a key gives the viewer.
#[derive(Debug, Clone, Copy, PartialEq, Eq, Structural)]
pub enum ViewerCommand {
    NextImage,
    PreviousImage,
    FirstImage,
    LastImage,
    ZoomIn,
    ZoomOut,
    ZoomFit,
    ZoomActualSize,
    /// Switch between full screen and a window.
    ToggleFullscreen,
    /// Leave full screen.
    LeaveFullscreen,
    /// The Escape key: see `escape_command`.
    Escape,
    Quit,
}

/// Which way the mouse wheel turned.
#[derive(Debug, Clone, Copy, PartialEq, Eq, Structural)]
pub enum WheelDirection {
    Up,
    Down,
}

/// The named keys the viewer tells apart; `Other` is any other.
#[derive(Debug, Clone, Copy, PartialEq, Eq, Structural)]
pub enum NamedKey {
    ArrowRight,
    ArrowLeft,
    Space,
    Backspace,
    Home,
    End,
    Escape,
    Other,
}

/// The command of a named key.
pub open spec fn named_key_command(key: NamedKey) -> Option<ViewerCommand> {
    match key {
        NamedKey::ArrowRight | NamedKey::Space => Some(ViewerCommand::NextImage),
        NamedKey::ArrowLeft | NamedKey::Backspace => Some(ViewerCommand::PreviousImage),
        NamedKey::Home => Some(ViewerCommand::FirstImage),
        NamedKey::End => Some(ViewerCommand::LastImage),
        NamedKey::Escape => Some(ViewerCommand::Escape),
        NamedKey::Other => None,
    }
}

/// The command of a key that types `text`.
pub open spec fn character_command(text: Seq<char>) -> Option<ViewerCommand> {
    if text.len() != 1 {
        None
    } else {
        let c = text[0];
        if c == 'n' || c == 'N' {
            Some(ViewerCommand::NextImage)
        } else if c == 'p' || c == 'P' {
            Some(ViewerCommand::PreviousImage)
        } else if c == 'q' || c == 'Q' {
            Some(ViewerCommand::Quit)
        } else if c == '+' || c == '=' {
            Some(ViewerCommand::ZoomIn)
        } else if c == '-' {
            Some(ViewerCommand::ZoomOut)
        } else if c == '0' {
            Some(ViewerCommand::ZoomActualSize)
        } else if c == 'w' || c == 'W' {
            Some(ViewerCommand::ZoomFit)
        } else if c == 'f' || c == 'F' {
            Some(ViewerCommand::ToggleFullscreen)
        } else {
            None
        }
    }
}

/// Which named key gives which command: the right arrow and Space step to
/// the next image, the left arrow and Backspace to the previous one, Home
/// and End go to the first and last, Escape gives the Escape command, and no
/// other key gives any command.
pub proof fn law_named_key_table(key: NamedKey)
    ensures
        (named_key_command(key) == Some(ViewerCommand::NextImage)) <==> (key == NamedKey::ArrowRight
            || key == NamedKey::Space),
        (named_key_command(key) == Some(ViewerCommand::PreviousImage)) <==> (key
            == NamedKey::ArrowLeft || key == NamedKey::Backspace),
        (named_key_command(key) == Some(ViewerCommand::FirstImage)) <==> (key == NamedKey::Home),
        (named_key_command(key) == Some(ViewerCommand::LastImage)) <==> (key == NamedKey::End),
        (named_key_command(key) == Some(ViewerCommand::Escape)) <==> (key == NamedKey::Escape),
        named_key_command(key) is None <==> (key == NamedKey::Other),
{
}

/// Which typed character gives which command: `n`/`N` the next image,
/// `p`/`P` the previous one, `q`/`Q` quits, `+` and `=` zoom in, `-` zooms
/// out, `0` shows the actual size, `w`/`W` fits the window and `f`/`F`
/// switches full screen. Nothing else typed gives a command, and no typed
/// text goes to the first or last image or leaves full screen.
pub proof fn law_character_table(text: Seq<char>)
    ensures
        (character_command(text) == Some(ViewerCommand::NextImage)) <==> (text == seq!['n'] || text
            == seq!['N']),
        (character_command(text) == Some(ViewerCommand::PreviousImage)) <==> (text == seq!['p']
            || text == seq!['P']),
        (character_command(text) == Some(ViewerCommand::Quit)) <==> (text == seq!['q'] || text
            == seq!['Q']),
        (character_command(text) == Some(ViewerCommand::ZoomIn)) <==> (text == seq!['+'] || text
            == seq!['=']),
        (character_command(text) == Some(ViewerCommand::ZoomOut)) <==> (text == seq!['-']),
        (character_command(text) == Some(ViewerCommand::ZoomActualSize)) <==> (text == seq!['0']),
        (character_command(text) == Some(ViewerCommand::ZoomFit)) <==> (text == seq!['w'] || text
            == seq!['W']),
        (character_command(text) == Some(ViewerCommand::ToggleFullscreen)) <==> (text == seq!['f']
            || text == seq!['F']),
        character_command(text) != Some(ViewerCommand::FirstImage),
        character_command(text) != Some(ViewerCommand::LastImage),
        character_command(text) != Some(ViewerCommand::LeaveFullscreen),
        character_command(text) != Some(ViewerCommand::Escape),
{
    if text.len() == 1 {
        let c = text[0];
        assert(seq![c] =~= text);
        assert(seq!['n'][0] == 'n');
        assert(seq!['N'][0] == 'N');
        assert(seq!['p'][0] == 'p');
        assert(seq!['P'][0] == 'P');
        assert(seq!['q'][0] == 'q');
        assert(seq!['Q'][0] == 'Q');
        assert(seq!['+'][0] == '+');
        assert(seq!['='][0] == '=');
        assert(seq!['-'][0] == '-');
        assert(seq!['0'][0] == '0');
        assert(seq!['w'][0] == 'w');
        assert(seq!['W'][0] == 'W');
        assert(seq!['f'][0] == 'f');
        assert(seq!['F'][0] == 'F');
    } else {
        assert(seq!['n'].len() == 1);
        assert(seq!['N'].len() == 1);
        assert(seq!['p'].len() == 1);
        assert(seq!['P'].len() == 1);
        assert(seq!['q'].len() == 1);
        assert(seq!['Q'].len() == 1);
        assert(seq!['+'].len() == 1);
        assert(seq!['='].len() == 1);
        assert(seq!['-'].len() == 1);
        assert(seq!['0'].len() == 1);
        assert(seq!['w'].len() == 1);
        assert(seq!['W'].len() == 1);
        assert(seq!['f'].len() == 1);
        assert(seq!['F'].len() == 1);
    }
}

/// The command of a named key: arrows, space and backspace step through the
/// images, Home and End go to the first and last, Escape leaves full screen
/// or quits (see `escape_command`).
pub fn command_for_named_key(key: NamedKey) -> (r: Option<ViewerCommand>)
    ensures
        r == named_key_command(key),
{
    match key {
        NamedKey::ArrowRight | NamedKey::Space => Some(ViewerCommand::NextImage),
        NamedKey::ArrowLeft | NamedKey::Backspace => Some(ViewerCommand::PreviousImage),
        NamedKey::Home => Some(ViewerCommand::FirstImage),
        NamedKey::End => Some(ViewerCommand::LastImage),
        NamedKey::Escape => Some(ViewerCommand::Escape),
        NamedKey::Other => None,
    }
}

/// The command of a key that types `text`: `n`/`p` step, `q` quits, `+`/`=`
/// and `-` zoom, `0` shows the actual size, `w` fits the window and `f`
/// switches full screen.
pub fn command_for_character(text: &str) -> (r: Option<ViewerCommand>)
    ensures
        r == character_command(text@),
{
    let chars = crate::path::chars_of(text);
    if chars.len() != 1 {
        return None;
    }
    let c = chars[0];
    if c == 'n' || c == 'N' {
        Some(ViewerCommand::NextImage)
    } else if c == 'p' || c == 'P' {
        Some(ViewerCommand::PreviousImage)
    } else if c == 'q' || c == 'Q' {
        Some(ViewerCommand::Quit)
    } else if c == '+' || c == '=' {
        Some(ViewerCommand::ZoomIn)
    } else if c == '-' {
        Some(ViewerCommand::ZoomOut)
    } else if c == '0' {
        Some(ViewerCommand::ZoomActualSize)
    } else if c == 'w' || c == 'W' {
        Some(ViewerCommand::ZoomFit)
    } else if c == 'f' || c == 'F' {
        Some(ViewerCommand::ToggleFullscreen)
    } else {
        None
    }
}

/// What Escape does: in full screen it leaves full screen, otherwise it quits.
pub fn escape_command(fullscreen: bool) -> (r: ViewerCommand)
    ensures
        r == if fullscreen {
            ViewerCommand::LeaveFullscreen
        } else {
            ViewerCommand::Quit
        },
{
    if fullscreen {
        ViewerCommand::LeaveFullscreen
    } else {
        ViewerCommand::Quit
    }
}

/// The command of the mouse wheel: turning it up zooms in, down zooms out.
pub fn command_for_wheel(direction: WheelDirection) -> (r: ViewerCommand)
    ensures
        r == match direction {
            WheelDirection::Up => ViewerCommand::ZoomIn,
            WheelDirection::Down => ViewerCommand::ZoomOut,
        },
{
    match direction {
        WheelDirection::Up => ViewerCommand::ZoomIn,
        WheelDirection::Down => ViewerCommand::ZoomOut,
    }
}

/// A copy of an image's data.
pub fn copy_image(image: &ImageData) -> (r: ImageData)
    ensures
        r == *image,
{
    ImageData {
        path: image.path.clone(),
        width: image.width,
        height: image.height,
        file_size: image.file_size,
    }
}

/// The paths to load ahead around position `index` of `files`: the five
/// after it and the two before it, wrapping around; none when there are no
/// files.
pub open spec fn prefetch_targets(files: Seq<Seq<char>>, index: int) -> Seq<Seq<char>> {
    if files.len() == 0 {
        Seq::empty()
    } else {
        let n = files.len() as int;
        seq![
            files[wrap_forward(index, 1, n)],
            files[wrap_forward(index, 2, n)],
            files[wrap_forward(index, 3, n)],
            files[wrap_forward(index, 4, n)],
            files[wrap_forward(index, 5, n)],
            files[wrap_backward(index, 1, n)],
            files[wrap_backward(index, 2, n)],
        ]
    }
}

/// The window title for an image named `name`, or for no image.
pub open spec fn title_text(name: Option<Seq<char>>) -> Seq<char> {
    match name {
        Some(n) => "Image Viewer - "@ + n,
        None => "Image Viewer"@,
    }
}

/// What `action` is when the viewer asks for the image at `path` with the
/// cache holding `entries`: the cached image if there is one, else a load.
pub open spec fn request_action(
    action: ViewerAction,
    entries: Seq<(Seq<char>, ImageData)>,
    path: Seq<char>,
) -> bool {
    match lookup(entries, path_key(path)) {
        Some(img) => action == ViewerAction::Show(img),
        None => action matches ViewerAction::Load(p) && p@ == path,
    }
}

/// The viewer's state: the folder's images and position, the image on show
/// and the error on show.
pub struct ViewerCore {
    file_manager: FileManager,
    current_image: Option<ImageData>,
    error_message: Option<String>,
}

impl ViewerCore {
    pub closed spec fn manager(&self) -> FileManager {
        self.file_manager
    }

    pub closed spec fn shown(&self) -> Option<ImageData> {
        self.current_image
    }

    pub closed spec fn error(&self) -> Option<Seq<char>> {
        match self.error_message {
            Some(e) => Some(e@),
            None => None,
        }
    }

    pub open spec fn wf(&self) -> bool {
        self.manager().wf()
    }

    /// A viewer with no folder, no image and no error.
    pub fn new() -> (v: Self)
        ensures
            v.wf(),
            v.manager().files().len() == 0,
            v.manager().index() == 0,
            v.shown() is None,
            v.error() is None,
    {
        ViewerCore { file_manager: FileManager::new(), current_image: None, error_message: None }
    }

    pub fn file_manager(&self) -> (r: &FileManager)
        ensures
            *r == self.manager(),
    {
        &self.file_manager
    }

    pub fn current_image(&self) -> (r: &Option<ImageData>)
        ensures
            *r == self.shown(),
    {
        &self.current_image
    }

    pub fn error_message(&self) -> (r: Option<&String>)
        ensures
            match r {
                Some(e) => self.error() == Some(e@),
                None => self.error() is None,
            },
    {
        match &self.error_message {
            Some(e) => Some(e),
            None => None,
        }
    }

    /// The window title: `Image Viewer - ` and the file name of the image on
    /// show, or `Image Viewer`.
    pub fn title(&self) -> (r: String)
        ensures
            r@ == title_text(
                match self.shown() {
                    Some(img) => Some(display_name(img.path@)),
                    None => None,
                },
            ),
    {
        match &self.current_image {
            Some(img) => {
                let mut t = String::from_str("Image Viewer - ");
                let name = img.file_name();
                t.append(name.as_str());
                t
            },
            None => String::from_str("Image Viewer"),
        }
    }

    /// The image at `path`: from the cache if it is there, else to be loaded.
    pub fn request_image(cache: &mut ImageCache, path: &String) -> (r: ViewerAction)
        requires
            old(cache).wf(),
        ensures
            final(cache).wf(),
            final(cache).requested_size() == old(cache).requested_size(),
            final(cache).entries() == after_get(old(cache).entries(), path_key(path@)),
            request_action(r, old(cache).entries(), path@),
    {
        match cache.get(path.as_str()) {
            Some(img) => ViewerAction::Show(img),
            None => ViewerAction::Load(path.clone()),
        }
    }

    /// The paths to load ahead of the image on show (see `prefetch_targets`).
    pub fn prefetch_paths(&self) -> (r: Vec<String>)
        requires
            self.wf(),
        ensures
            r.deep_view() == prefetch_targets(self.manager().files(), self.manager().index()),
    {
        let mut paths: Vec<String> = Vec::new();
        if self.file_manager.total_count() == 0 {
            assert(paths.deep_view() =~= Seq::<Seq<char>>::empty());
            return paths;
        }
        let ghost files = self.manager().files();
        let ghost n = files.len() as int;
        let ghost i = self.manager().index();
        let mut offset: usize = 1;
        while offset <= 5
            invariant
                1 <= offset <= 6,
                self.wf(),
                files == self.manager().files(),
                i == self.manager().index(),
                n == files.len(),
                n > 0,
                paths.len() == offset - 1,
                forall|k: int|
                    0 <= k < paths.len() ==> (#[trigger] paths.deep_view()[k]) == files[wrap_forward(
                        i,
                        k + 1,
                        n,
                    )],
            decreases 6 - offset,
        {
            let ghost before = paths.deep_view();
            match self.file_manager.peek_next(offset) {
                Some(p) => {
                    paths.push(p.clone());
                    assert(paths.deep_view() =~= before.push(p@));
                },
                None => {},
            }
            offset = offset + 1;
        }
        let mut back: usize = 1;
        while back <= 2
            invariant
                1 <= back <= 3,
                self.wf(),
                files == self.manager().files(),
                i == self.manager().index(),
                n == files.len(),
                n > 0,
                paths.len() == 5 + back - 1,
                forall|k: int|
                    0 <= k < 5 ==> (#[trigger] paths.deep_view()[k]) == files[wrap_forward(
                        i,
                        k + 1,
                        n,
                    )],
                forall|k: int|
                    5 <= k < paths.len() ==> (#[trigger] paths.deep_view()[k])
                        == files[wrap_backward(i, k - 4, n)],
            decreases 3 - back,
        {
            let ghost before = paths.deep_view();
            match self.file_manager.peek_previous(back) {
                Some(p) => {
                    paths.push(p.clone());
                    assert(paths.deep_view() =~= before.push(p@));
                },
                None => {},
            }
            back = back + 1;
        }
        assert(paths.deep_view() =~= prefetch_targets(files, i));
        paths
    }

    /// A folder listing came back for the opened path `opened`: on failure
    /// the error is shown; otherwise the listing becomes the list of images
    /// (see `FileManager::load_listing`) and the image on show, if any, is
    /// requested.
    pub fn open_listing(
        &mut self,
        cache: &mut ImageCache,
        opened: &str,
        listing: Result<Vec<String>, String>,
    ) -> (r: ViewerAction)
        requires
            old(self).wf(),
            old(cache).wf(),
            listing matches Ok(v) ==> v.len() <= isize::MAX,
        ensures
            final(self).wf(),
            final(cache).wf(),
            final(cache).requested_size() == old(cache).requested_size(),
            final(self).shown() == old(self).shown(),
            listing matches Err(e) ==> {
                &&& final(self).error() == Some("Failed to load directory: "@ + e@)
                &&& final(self).manager() == old(self).manager()
                &&& final(cache).entries() == old(cache).entries()
                &&& r == ViewerAction::Nothing
            },
            listing is Ok ==> final(self).error() == old(self).error(),
            listing matches Ok(v) ==> is_stable_sort(
                SortKey::FileName,
                final(self).manager().files(),
                supported_images(v.deep_view()),
            ),
            listing is Ok && (exists|k: int|
                0 <= k < final(self).manager().files().len() && same_path(
                    #[trigger] final(self).manager().files()[k],
                    opened@,
                )) ==> {
                &&& 0 <= final(self).manager().index() < final(self).manager().files().len()
                &&& same_path(final(self).manager().files()[final(self).manager().index()], opened@)
                &&& forall|j: int|
                    0 <= j < final(self).manager().index() ==> !same_path(
                        #[trigger] final(self).manager().files()[j],
                        opened@,
                    )
            },
            listing is Ok && !(exists|k: int|
                0 <= k < final(self).manager().files().len() && same_path(
                    #[trigger] final(self).manager().files()[k],
                    opened@,
                )) ==> final(self).manager().index() == old(self).manager().index(),
            listing is Ok ==> match final(self).manager().path_at(final(self).manager().index()) {
                Some(p) => request_action(r, old(cache).entries(), p) && final(cache).entries()
                    == after_get(old(cache).entries(), path_key(p)),
                None => r == ViewerAction::Nothing && final(cache).entries() == old(
                    cache,
                ).entries(),
            },
    {
        match listing {
            Err(e) => {
                let mut msg = String::from_str("Failed to load directory: ");
                msg.append(e.as_str());
                self.error_message = Some(msg);
                ViewerAction::Nothing
            },
            Ok(files) => {
                self.file_manager.load_listing(opened, files);
                match self.file_manager.get_current() {
                    Some(p) => {
                        let path = p.clone();
                        ViewerCore::request_image(cache, &path)
                    },
                    None => ViewerAction::Nothing,
                }
            },
        }
    }

    /// An image load came back: a loaded image is cached, shown, clears the
    /// error and has its neighbours loaded ahead; a failure is shown.
    pub fn image_loaded(&mut self, cache: &mut ImageCache, result: Result<ImageData, String>) -> (r:
        ViewerAction)
        requires
            old(self).wf(),
            old(cache).wf(),
        ensures
            final(self).wf(),
            final(cache).wf(),
            final(cache).requested_size() == old(cache).requested_size(),
            final(self).manager() == old(self).manager(),
            match result {
                Err(e) => {
                    &&& final(self).error() == Some("Failed to load image: "@ + e@)
                    &&& final(self).shown() == old(self).shown()
                    &&& final(cache).entries() == old(cache).entries()
                    &&& r == ViewerAction::Nothing
                },
                Ok(img) => {
                    &&& final(self).shown() == Some(img)
                    &&& final(self).error() is None
                    &&& final(cache).entries() == crate::image_cache::after_put(
                        old(cache).entries(),
                        path_key(img.path@),
                        img,
                        old(cache).capacity(),
                    )
                    &&& old(self).manager().files().len() == 0 ==> r == ViewerAction::Nothing
                    &&& old(self).manager().files().len() > 0 ==> (r matches ViewerAction::Prefetch(
                        paths,
                    ) && paths.deep_view() == prefetch_targets(
                        old(self).manager().files(),
                        old(self).manager().index(),
                    ))
                },
            },
    {
        match result {
            Err(e) => {
                let mut msg = String::from_str("Failed to load image: ");
                msg.append(e.as_str());
                self.error_message = Some(msg);
                ViewerAction::Nothing
            },
            Ok(img) => {
                let stored = copy_image(&img);
                cache.put(img.path.as_str(), stored);
                self.current_image = Some(img);
                self.error_message = None;
                let paths = self.prefetch_paths();
                assert(self.manager().files().len() > 0 ==> paths.deep_view().len() == 7);
                if paths.len() == 0 {
                    ViewerAction::Nothing
                } else {
                    ViewerAction::Prefetch(paths)
                }
            },
        }
    }

    /// Steps to the next image (wrapping) and requests it.
    pub fn next_image(&mut self, cache: &mut ImageCache) -> (r: ViewerAction)
        requires
            old(self).wf(),
            old(cache).wf(),
        ensures
            final(self).wf(),
            final(cache).wf(),
            final(cache).requested_size() == old(cache).requested_size(),
            final(self).shown() == old(self).shown(),
            final(self).error() == old(self).error(),
            final(self).manager().files() == old(self).manager().files(),
            old(self).manager().files().len() == 0 ==> final(self).manager().index() == old(
                self,
            ).manager().index(),
            old(self).manager().files().len() > 0 ==> final(self).manager().index()
                == wrap_forward(
                old(self).manager().index(),
                1,
                old(self).manager().files().len() as int,
            ),
            Self::requested_current(r, *final(self), old(cache).entries(), final(cache).entries()),
    {
        match self.file_manager.next() {
            Some(p) => {
                let path = p.clone();
                ViewerCore::request_image(cache, &path)
            },
            None => ViewerAction::Nothing,
        }
    }

    /// Steps to the previous image (wrapping) and requests it.
    pub fn previous_image(&mut self, cache: &mut ImageCache) -> (r: ViewerAction)
        requires
            old(self).wf(),
            old(cache).wf(),
        ensures
            final(self).wf(),
            final(cache).wf(),
            final(cache).requested_size() == old(cache).requested_size(),
            final(self).shown() == old(self).shown(),
            final(self).error() == old(self).error(),
            final(self).manager().files() == old(self).manager().files(),
            old(self).manager().files().len() == 0 ==> final(self).manager().index() == old(
                self,
            ).manager().index(),
            old(self).manager().files().len() > 0 ==> final(self).manager().index() == step_back(
                old(self).manager().index(),
                old(self).manager().files().len() as int,
            ),
            Self::requested_current(r, *final(self), old(cache).entries(), final(cache).entries()),
    {
        match self.file_manager.previous() {
            Some(p) => {
                let path = p.clone();
                ViewerCore::request_image(cache, &path)
            },
            None => ViewerAction::Nothing,
        }
    }

    /// Goes to the first image and requests it.
    pub fn first_image(&mut self, cache: &mut ImageCache) -> (r: ViewerAction)
        requires
            old(self).wf(),
            old(cache).wf(),
        ensures
            final(self).wf(),
            final(cache).wf(),
            final(cache).requested_size() == old(cache).requested_size(),
            final(self).shown() == old(self).shown(),
            final(self).error() == old(self).error(),
            final(self).manager().files() == old(self).manager().files(),
            old(self).manager().files().len() == 0 ==> final(self).manager().index() == old(
                self,
            ).manager().index(),
            old(self).manager().files().len() > 0 ==> final(self).manager().index() == 0,
            Self::requested_current(r, *final(self), old(cache).entries(), final(cache).entries()),
    {
        match self.file_manager.first() {
            Some(p) => {
                let path = p.clone();
                ViewerCore::request_image(cache, &path)
            },
            None => ViewerAction::Nothing,
        }
    }

    /// Goes to the last image and requests it.
    pub fn last_image(&mut self, cache: &mut ImageCache) -> (r: ViewerAction)
        requires
            old(self).wf(),
            old(cache).wf(),
        ensures
            final(self).wf(),
            final(cache).wf(),
            final(cache).requested_size() == old(cache).requested_size(),
            final(self).shown() == old(self).shown(),
            final(self).error() == old(self).error(),
            final(self).manager().files() == old(self).manager().files(),
            old(self).manager().files().len() == 0 ==> final(self).manager().index() == old(
                self,
            ).manager().index(),
            old(self).manager().files().len() > 0 ==> final(self).manager().index() == old(
                self,
            ).manager().files().len() - 1,
            Self::requested_current(r, *final(self), old(cache).entries(), final(cache).entries()),
    {
        match self.file_manager.last() {
            Some(p) => {
                let path = p.clone();
                ViewerCore::request_image(cache, &path)
            },
            None => ViewerAction::Nothing,
        }
    }

    /// After a step: the image now on show, if the index is in range, was
    /// requested (see `request_action`); otherwise nothing happened.
    pub open spec fn requested_current(
        r: ViewerAction,
        v: ViewerCore,
        before: Seq<(Seq<char>, ImageData)>,
        after: Seq<(Seq<char>, ImageData)>,
    ) -> bool {
        match v.manager().path_at(v.manager().index()) {
            Some(p) => request_action(r, before, p) && after == after_get(before, path_key(p)),
            None => r == ViewerAction::Nothing && after == before,
        }
    }
}

} // verus!
