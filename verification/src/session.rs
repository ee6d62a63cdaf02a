//! The state behind the desktop shell's commands: the images of the open
//! folder sorted by path, the position in them, and the paths the system
//! asked to open before the window was ready.
use vstd::prelude::*;
use vstd::string::*;
use crate::extensions::{eq_ignore_case, ends_with_ignore_case, ends_with_ignoring_case, is_one_of, matches_one_of};
use crate::file_manager::{step_back, wrap_forward};
use crate::order::{is_stable_sort, stable_sort, SortKey};
use crate::path::{chars_of, extension, path_extension, paths_equal, same_path};

verus! {

/// The extensions of the image files the shell lists.
pub open spec fn listed_extensions() -> Seq<Seq<char>> {
    seq![
        seq!['j', 'p', 'g'],
        seq!['j', 'p', 'e', 'g'],
        seq!['p', 'n', 'g'],
        seq!['g', 'i', 'f'],
        seq!['b', 'm', 'p'],
        seq!['w', 'e', 'b', 'p'],
    ]
}

/// The path's extension is one the shell lists.
pub open spec fn is_listed_path(p: Seq<char>) -> bool {
    match path_extension(p) {
        Some(ext) => is_one_of(ext, listed_extensions()),
        None => false,
    }
}

/// The suffixes that mark a startup argument as an image to open.
pub open spec fn startup_suffixes() -> Seq<Seq<char>> {
    seq![
        seq!['.', 'j', 'p', 'g'],
        seq!['.', 'j', 'p', 'e', 'g'],
        seq!['.', 'p', 'n', 'g'],
        seq!['.', 'g', 'i', 'f'],
        seq!['.', 'b', 'm', 'p'],
        seq!['.', 'w', 'e', 'b', 'p'],
    ]
}

/// The argument ends with one of the image suffixes, in any ASCII case.
pub open spec fn is_startup_image(arg: Seq<char>) -> bool {
    exists|i: int|
        0 <= i < startup_suffixes().len() && ends_with_ignore_case(
            arg,
            #[trigger] startup_suffixes()[i],
        )
}

/// The arguments after the first (the program) that name images, in order.
pub open spec fn startup_images(args: Seq<Seq<char>>) -> Seq<Seq<char>> {
    if args.len() == 0 {
        Seq::empty()
    } else {
        args.skip(1).filter(|a: Seq<char>| is_startup_image(a))
    }
}

/// The shell lists a file exactly when its extension, in any ASCII case, is
/// `jpg`, `jpeg`, `png`, `gif`, `bmp` or `webp`.
pub proof fn law_listed_formats(p: Seq<char>)
    ensures
        is_listed_path(p) <==> (path_extension(p) matches Some(e) && (eq_ignore_case(
            e,
            "jpg"@,
        ) || eq_ignore_case(e, "jpeg"@) || eq_ignore_case(e, "png"@) || eq_ignore_case(e, "gif"@)
            || eq_ignore_case(e, "bmp"@) || eq_ignore_case(e, "webp"@))),
{
    reveal_strlit("jpg");
    reveal_strlit("jpeg");
    reveal_strlit("png");
    reveal_strlit("gif");
    reveal_strlit("bmp");
    reveal_strlit("webp");
    let t = listed_extensions();
    assert(t.len() == 6);
    assert(t[0] =~= "jpg"@);
    assert(t[1] =~= "jpeg"@);
    assert(t[2] =~= "png"@);
    assert(t[3] =~= "gif"@);
    assert(t[4] =~= "bmp"@);
    assert(t[5] =~= "webp"@);
    if let Some(e) = path_extension(p) {
        if is_one_of(e, t) {
            let i = choose|i: int| 0 <= i < t.len() && eq_ignore_case(e, #[trigger] t[i]);
            assert(0 <= i < 6);
        }
    }
}

/// A startup argument names an image to open exactly when it ends, in any
/// ASCII case, with `.jpg`, `.jpeg`, `.png`, `.gif`, `.bmp` or `.webp`.
pub proof fn law_startup_suffixes(arg: Seq<char>)
    ensures
        is_startup_image(arg) <==> (ends_with_ignore_case(arg, ".jpg"@) || ends_with_ignore_case(
            arg,
            ".jpeg"@,
        ) || ends_with_ignore_case(arg, ".png"@) || ends_with_ignore_case(arg, ".gif"@)
            || ends_with_ignore_case(arg, ".bmp"@) || ends_with_ignore_case(arg, ".webp"@)),
{
    reveal_strlit(".jpg");
    reveal_strlit(".jpeg");
    reveal_strlit(".png");
    reveal_strlit(".gif");
    reveal_strlit(".bmp");
    reveal_strlit(".webp");
    let t = startup_suffixes();
    assert(t.len() == 6);
    assert(t[0] =~= ".jpg"@);
    assert(t[1] =~= ".jpeg"@);
    assert(t[2] =~= ".png"@);
    assert(t[3] =~= ".gif"@);
    assert(t[4] =~= ".bmp"@);
    assert(t[5] =~= ".webp"@);
    if is_startup_image(arg) {
        let i = choose|i: int|
            0 <= i < t.len() && ends_with_ignore_case(arg, #[trigger] t[i]);
        assert(0 <= i < 6);
    }
}

/// The images opened at startup are the arguments after the first, in their
/// order, that end with an image suffix; every other argument is left out.
pub proof fn law_startup_images_are_the_image_arguments(args: Seq<Seq<char>>)
    requires
        args.len() > 0,
    ensures
        forall|a: Seq<char>|
            startup_images(args).contains(a) <==> (args.skip(1).contains(a) && (
            ends_with_ignore_case(a, ".jpg"@) || ends_with_ignore_case(a, ".jpeg"@)
                || ends_with_ignore_case(a, ".png"@) || ends_with_ignore_case(a, ".gif"@)
                || ends_with_ignore_case(a, ".bmp"@) || ends_with_ignore_case(a, ".webp"@))),
{
    let pred = |a: Seq<char>| is_startup_image(a);
    assert forall|a: Seq<char>|
        startup_images(args).contains(a) <==> (args.skip(1).contains(a) && (
        ends_with_ignore_case(a, ".jpg"@) || ends_with_ignore_case(a, ".jpeg"@)
            || ends_with_ignore_case(a, ".png"@) || ends_with_ignore_case(a, ".gif"@)
            || ends_with_ignore_case(a, ".bmp"@) || ends_with_ignore_case(a, ".webp"@))) by {
        law_startup_suffixes(a);
        let rest = args.skip(1);
        let kept = rest.filter(pred);
        assert(startup_images(args) == kept);
        if kept.contains(a) {
            let k = choose|k: int| 0 <= k < kept.len() && kept[k] == a;
            rest.lemma_filter_pred(pred, k);
            rest.lemma_filter_contains_rev(pred, a);
        }
        if rest.contains(a) && pred(a) {
            let k = choose|k: int| 0 <= k < rest.len() && rest[k] == a;
            rest.lemma_filter_contains(pred, k);
        }
    }
}

/// Whether the path's extension is one of `jpg`, `jpeg`, `png`, `gif`,
/// `bmp` or `webp`, in any ASCII case.
pub fn is_listed_image(path: &str) -> (r: bool)
    ensures
        r == is_listed_path(path@),
{
    match extension(path) {
        Some(ext) => {
            let e = chars_of(ext.as_str());
            let jpg = ['j', 'p', 'g'];
            let jpeg = ['j', 'p', 'e', 'g'];
            let png = ['p', 'n', 'g'];
            let gif = ['g', 'i', 'f'];
            let bmp = ['b', 'm', 'p'];
            let webp = ['w', 'e', 'b', 'p'];
            let names: [&[char]; 6] = [&jpg, &jpeg, &png, &gif, &bmp, &webp];
            assert(names@.map_values(|n: &[char]| n@) =~= listed_extensions());
            matches_one_of(e.as_slice(), &names)
        },
        None => false,
    }
}

/// Whether `arg` ends with `.jpg`, `.jpeg`, `.png`, `.gif`, `.bmp` or
/// `.webp`, in any ASCII case.
pub fn is_startup_image_arg(arg: &str) -> (r: bool)
    ensures
        r == is_startup_image(arg@),
{
    let a = chars_of(arg);
    let jpg = ['.', 'j', 'p', 'g'];
    let jpeg = ['.', 'j', 'p', 'e', 'g'];
    let png = ['.', 'p', 'n', 'g'];
    let gif = ['.', 'g', 'i', 'f'];
    let bmp = ['.', 'b', 'm', 'p'];
    let webp = ['.', 'w', 'e', 'b', 'p'];
    let names: [&[char]; 6] = [&jpg, &jpeg, &png, &gif, &bmp, &webp];
    let ghost views = names@.map_values(|n: &[char]| n@);
    assert(views =~= startup_suffixes());
    let mut i: usize = 0;
    while i < 6
        invariant
            i <= 6,
            a@ == arg@,
            views == names@.map_values(|n: &[char]| n@),
            views == startup_suffixes(),
            forall|j: int| 0 <= j < i ==> !ends_with_ignore_case(a@, #[trigger] views[j]),
        decreases 6 - i,
    {
        if ends_with_ignoring_case(a.as_slice(), names[i]) {
            assert(ends_with_ignore_case(a@, views[i as int]));
            return true;
        }
        i = i + 1;
    }
    false
}

/// The arguments after the first that name images to open at startup.
pub fn startup_image_paths(args: &[String]) -> (r: Vec<String>)
    ensures
        r.deep_view() == startup_images(args.deep_view()),
{
    let ghost all = args.deep_view();
    let ghost rest = all.skip(1);
    let ghost pred = |a: Seq<char>| is_startup_image(a);
    let mut r: Vec<String> = Vec::new();
    if args.len() == 0 {
        assert(r.deep_view() =~= Seq::<Seq<char>>::empty());
        return r;
    }
    let mut i: usize = 1;
    assert(rest.take(0) =~= Seq::<Seq<char>>::empty());
    assert(r.deep_view() =~= rest.take(0).filter(pred)) by {
        reveal_with_fuel(Seq::filter, 1);
    }
    while i < args.len()
        invariant
            1 <= i <= args.len(),
            all == args.deep_view(),
            rest == all.skip(1),
            pred == (|a: Seq<char>| is_startup_image(a)),
            r.deep_view() == rest.take(i - 1).filter(pred),
        decreases args.len() - i,
    {
        let ghost before = r.deep_view();
        proof {
            reveal_with_fuel(Seq::filter, 1);
            assert(rest.take(i as int).drop_last() =~= rest.take(i - 1));
            assert(rest.take(i as int).last() == args[i as int]@);
            assert(pred(args[i as int]@) == is_startup_image(args[i as int]@));
        }
        if is_startup_image_arg(args[i].as_str()) {
            r.push(args[i].clone());
            assert(r.deep_view() =~= before.push(args[i as int]@));
        }
        i = i + 1;
    }
    assert(rest.take(args.len() - 1) =~= rest);
    r
}

/// The shell's state.
pub struct SessionState {
    current_images: Vec<String>,
    current_index: usize,
    pending_paths: Vec<String>,
}

impl Default for SessionState {
    /// No images, position 0, nothing pending.
    fn default() -> (s: Self)
        ensures
            s.wf(),
            s.images().len() == 0,
            s.index() == 0,
            s.pending().len() == 0,
    {
        SessionState::new()
    }
}

impl SessionState {
    pub closed spec fn images(&self) -> Seq<Seq<char>> {
        self.current_images.deep_view()
    }

    pub closed spec fn index(&self) -> int {
        self.current_index as int
    }

    pub closed spec fn pending(&self) -> Seq<Seq<char>> {
        self.pending_paths.deep_view()
    }

    /// The position is in the list whenever the list is not empty, and the
    /// list fits the machine.
    pub open spec fn wf(&self) -> bool {
        &&& self.images().len() <= isize::MAX
        &&& 0 <= self.index()
        &&& self.images().len() > 0 ==> self.index() < self.images().len()
        &&& self.images().len() == 0 ==> self.index() == 0
    }

    /// No images, position 0, nothing pending.
    pub fn new() -> (s: Self)
        ensures
            s.wf(),
            s.images().len() == 0,
            s.index() == 0,
            s.pending().len() == 0,
    {
        let s = SessionState {
            current_images: Vec::new(),
            current_index: 0,
            pending_paths: Vec::new(),
        };
        assert(s.images().len() == 0);
        s
    }

    /// The path `path` was opened and its folder holds `entries`: the images
    /// among them, sorted by path, become the list, and the first that is
    /// `path` (else the first of all) the position. Gives the path back.
    pub fn load_folder(&mut self, path: &str, entries: Vec<String>) -> (r: String)
        requires
            entries.len() <= isize::MAX,
        ensures
            final(self).wf(),
            r@ == path@,
            final(self).pending() == old(self).pending(),
            is_stable_sort(
                SortKey::WholePath,
                final(self).images(),
                entries.deep_view().filter(|p: Seq<char>| is_listed_path(p)),
            ),
            (exists|k: int|
                0 <= k < final(self).images().len() && same_path(
                    #[trigger] final(self).images()[k],
                    path@,
                )) ==> {
                &&& same_path(final(self).images()[final(self).index()], path@)
                &&& forall|j: int|
                    0 <= j < final(self).index() ==> !same_path(
                        #[trigger] final(self).images()[j],
                        path@,
                    )
            },
            !(exists|k: int|
                0 <= k < final(self).images().len() && same_path(
                    #[trigger] final(self).images()[k],
                    path@,
                )) ==> final(self).index() == 0,
    {
        let ghost all = entries.deep_view();
        let ghost pred = |p: Seq<char>| is_listed_path(p);
        let mut kept: Vec<String> = Vec::new();
        let n = entries.len();
        let mut i: usize = 0;
        assert(all.take(0) =~= Seq::<Seq<char>>::empty());
        assert(kept.deep_view() =~= all.take(0).filter(pred)) by {
            reveal_with_fuel(Seq::filter, 1);
        }
        while i < n
            invariant
                n == entries.len(),
                all == entries.deep_view(),
                pred == (|p: Seq<char>| is_listed_path(p)),
                i <= n,
                kept.len() <= i,
                kept.deep_view() == all.take(i as int).filter(pred),
            decreases n - i,
        {
            let ghost before = kept.deep_view();
            proof {
                reveal_with_fuel(Seq::filter, 1);
                assert(all.take(i + 1).drop_last() =~= all.take(i as int));
                assert(all.take(i + 1).last() == entries[i as int]@);
                assert(pred(entries[i as int]@) == is_listed_path(entries[i as int]@));
            }
            if is_listed_image(entries[i].as_str()) {
                kept.push(entries[i].clone());
                assert(kept.deep_view() =~= before.push(entries[i as int]@));
            }
            i = i + 1;
        }
        assert(all.take(n as int) =~= all);
        stable_sort(SortKey::WholePath, &mut kept);
        let m = kept.len();
        let mut j: usize = 0;
        let mut found = false;
        while j < m
            invariant_except_break
                m == kept.len(),
                j <= m,
                !found,
                forall|k: int| 0 <= k < j ==> !same_path(#[trigger] kept.deep_view()[k], path@),
            ensures
                m == kept.len(),
                j <= m,
                forall|k: int| 0 <= k < j ==> !same_path(#[trigger] kept.deep_view()[k], path@),
                found ==> j < m && same_path(kept.deep_view()[j as int], path@),
                !found ==> j == m,
            decreases m - j,
        {
            if paths_equal(kept[j].as_str(), path) {
                found = true;
                break;
            }
            j = j + 1;
        }
        self.current_index = if found {
            j
        } else {
            0
        };
        self.current_images = kept;
        String::from_str(path)
    }

    /// Steps to the next image, wrapping around, and gives its path; `None`
    /// with nothing changed when there are no images.
    pub fn next_image(&mut self) -> (r: Option<String>)
        requires
            old(self).wf(),
        ensures
            final(self).wf(),
            final(self).images() == old(self).images(),
            final(self).pending() == old(self).pending(),
            old(self).images().len() == 0 ==> r is None && final(self).index() == old(
                self,
            ).index(),
            old(self).images().len() > 0 ==> {
                &&& final(self).index() == wrap_forward(
                    old(self).index(),
                    1,
                    old(self).images().len() as int,
                )
                &&& r matches Some(p) && p@ == old(self).images()[final(self).index()]
            },
    {
        let len = self.current_images.len();
        if len == 0 {
            return None;
        }
        self.current_index = (self.current_index + 1) % len;
        Some(self.current_images[self.current_index].clone())
    }

    /// Steps to the previous image, wrapping around, and gives its path;
    /// `None` with nothing changed when there are no images.
    pub fn previous_image(&mut self) -> (r: Option<String>)
        requires
            old(self).wf(),
        ensures
            final(self).wf(),
            final(self).images() == old(self).images(),
            final(self).pending() == old(self).pending(),
            old(self).images().len() == 0 ==> r is None && final(self).index() == old(
                self,
            ).index(),
            old(self).images().len() > 0 ==> {
                &&& final(self).index() == step_back(
                    old(self).index(),
                    old(self).images().len() as int,
                )
                &&& r matches Some(p) && p@ == old(self).images()[final(self).index()]
            },
    {
        let len = self.current_images.len();
        if len == 0 {
            return None;
        }
        if self.current_index == 0 {
            self.current_index = len - 1;
        } else {
            self.current_index = self.current_index - 1;
        }
        Some(self.current_images[self.current_index].clone())
    }

    /// Keeps a path the system asked to open before the window was ready.
    pub fn buffer_pending(&mut self, path: String)
        ensures
            final(self).pending() == old(self).pending().push(path@),
            final(self).images() == old(self).images(),
            final(self).index() == old(self).index(),
    {
        let ghost before = self.pending_paths.deep_view();
        self.pending_paths.push(path);
        assert(self.pending_paths.deep_view() =~= before.push(path@));
    }

    /// The window is ready: gives the kept paths, in order, and forgets them.
    pub fn frontend_ready(&mut self) -> (r: Vec<String>)
        ensures
            r.deep_view() == old(self).pending(),
            final(self).pending().len() == 0,
            final(self).images() == old(self).images(),
            final(self).index() == old(self).index(),
    {
        let mut taken: Vec<String> = Vec::new();
        core::mem::swap(&mut taken, &mut self.pending_paths);
        assert(self.pending_paths.deep_view().len() == 0);
        taken
    }

    /// The current image's index.
    pub fn current_index(&self) -> (r: usize)
        ensures
            r == self.index(),
    {
        self.current_index
    }

    /// The listed images, in order.
    pub fn current_images(&self) -> (r: &[String])
        ensures
            r.deep_view() == self.images(),
    {
        self.current_images.as_slice()
    }

    /// The paths waiting for the window, in order.
    pub fn pending_paths(&self) -> (r: &[String])
        ensures
            r.deep_view() == self.pending(),
    {
        self.pending_paths.as_slice()
    }
}

} // verus!
