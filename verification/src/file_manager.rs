//! The list of images in the open folder and the position in it.
use vstd::prelude::*;
use crate::extensions::{is_supported_path, is_supported_path_text};
use crate::order::{is_stable_sort, sorted_by, stable_sort, stable_arrangement, SortKey};
use crate::path::{paths_equal, same_path};

verus! {

/// The images of one folder, sorted by file name, and the index of the one
/// on show. The index is kept as it is when a newly loaded folder does not
/// hold the opened path, so it may lie past the end of the list.
pub struct FileManager {
    files: Vec<String>,
    current_index: usize,
}

/// The paths of `candidates` whose extension the viewer browses, in order.
pub open spec fn supported_images(candidates: Seq<Seq<char>>) -> Seq<Seq<char>> {
    candidates.filter(|p: Seq<char>| is_supported_path(p))
}

/// The position `offset` places after `index` in a circular list of `len`.
pub open spec fn wrap_forward(index: int, offset: int, len: int) -> int {
    (index + offset) % len
}

/// The position `offset` places before `index` in a circular list of `len`.
pub open spec fn wrap_backward(index: int, offset: int, len: int) -> int {
    (index + len - offset % len) % len
}

/// The position before `index` in a circular list of `len`: the last
/// position before the first.
pub open spec fn step_back(index: int, len: int) -> int {
    if index == 0 {
        len - 1
    } else {
        index - 1
    }
}

impl FileManager {
    /// The paths in the list, in order.
    pub closed spec fn files(&self) -> Seq<Seq<char>> {
        self.files.deep_view()
    }

    /// The index of the image on show.
    pub closed spec fn index(&self) -> int {
        self.current_index as int
    }

    /// The list and the index fit the machine (no list of paths can be longer
    /// than `isize::MAX`, and the index was once a position in such a list),
    /// and the list holds only images, sorted by file name.
    pub open spec fn wf(&self) -> bool {
        &&& self.files().len() <= isize::MAX
        &&& 0 <= self.index() <= isize::MAX
        &&& sorted_by(SortKey::FileName, self.files())
        &&& forall|i: int| 0 <= i < self.files().len() ==> is_supported_path(#[trigger] self.files()[i])
    }

    /// The path at `index` if the index is in range.
    pub open spec fn path_at(&self, index: int) -> Option<Seq<char>> {
        if 0 <= index < self.files().len() {
            Some(self.files()[index])
        } else {
            None
        }
    }

    pub fn new() -> (m: Self)
        ensures
            m.wf(),
            m.files() == Seq::<Seq<char>>::empty(),
            m.index() == 0,
    {
        let m = FileManager { files: Vec::new(), current_index: 0 };
        assert(m.files() =~= Seq::<Seq<char>>::empty());
        m
    }

    /// Replaces the list by the images among `candidates` (the regular files
    /// of the folder that was opened), sorted by file name; when one of them
    /// is the path `opened`, the first such becomes the image on show.
    pub fn load_listing(&mut self, opened: &str, candidates: Vec<String>)
        requires
            old(self).wf(),
            candidates.len() <= isize::MAX,
        ensures
            final(self).wf(),
            is_stable_sort(
                SortKey::FileName,
                final(self).files(),
                supported_images(candidates.deep_view()),
            ),
            (exists|k: int|
                0 <= k < final(self).files().len() && same_path(
                    #[trigger] final(self).files()[k],
                    opened@,
                )) ==> {
                &&& 0 <= final(self).index() < final(self).files().len()
                &&& same_path(final(self).files()[final(self).index()], opened@)
                &&& forall|j: int|
                    0 <= j < final(self).index() ==> !same_path(
                        #[trigger] final(self).files()[j],
                        opened@,
                    )
            },
            !(exists|k: int|
                0 <= k < final(self).files().len() && same_path(
                    #[trigger] final(self).files()[k],
                    opened@,
                )) ==> final(self).index() == old(self).index(),
    {
        let ghost all = candidates.deep_view();
        let ghost pred = |p: Seq<char>| is_supported_path(p);
        let mut kept: Vec<String> = Vec::new();
        let n = candidates.len();
        let mut i: usize = 0;
        assert(all.take(0) =~= Seq::<Seq<char>>::empty());
        assert(kept.deep_view() =~= all.take(0).filter(pred));
        while i < n
            invariant
                n == candidates.len(),
                all == candidates.deep_view(),
                pred == (|p: Seq<char>| is_supported_path(p)),
                i <= n,
                kept.len() <= i,
                kept.deep_view() == all.take(i as int).filter(pred),
            decreases n - i,
        {
            let ghost before = kept.deep_view();
            proof {
                reveal_with_fuel(Seq::filter, 1);
                assert(all.take(i + 1).drop_last() =~= all.take(i as int));
                assert(all.take(i + 1).last() == candidates[i as int]@);
                assert(pred(candidates[i as int]@) == is_supported_path(candidates[i as int]@));
            }
            if is_supported_path_text(candidates[i].as_str()) {
                kept.push(candidates[i].clone());
                assert(kept.deep_view() =~= before.push(candidates[i as int]@));
            }
            i = i + 1;
        }
        assert(all.take(n as int) =~= all);
        let ghost filtered = kept.deep_view();
        self.sort_files(&mut kept);
        proof {
            let out = kept.deep_view();
            let perm = choose|perm: Seq<int>| stable_arrangement(SortKey::FileName, out, filtered, perm);
            assert forall|i: int| 0 <= i < out.len() implies is_supported_path(#[trigger] out[i]) by {
                let j = perm[i];
                all.lemma_filter_pred(pred, j);
                assert(pred(filtered[j]));
            }
        }
        let m = kept.len();
        let mut j: usize = 0;
        let mut found = false;
        while j < m
            invariant_except_break
                m == kept.len(),
                j <= m,
                !found,
                forall|k: int| 0 <= k < j ==> !same_path(#[trigger] kept.deep_view()[k], opened@),
            ensures
                m == kept.len(),
                j <= m,
                forall|k: int| 0 <= k < j ==> !same_path(#[trigger] kept.deep_view()[k], opened@),
                found ==> j < m && same_path(kept.deep_view()[j as int], opened@),
                !found ==> j == m,
            decreases m - j,
        {
            if paths_equal(kept[j].as_str(), opened) {
                found = true;
                break;
            }
            j = j + 1;
        }
        if found {
            self.current_index = j;
        }
        self.files = kept;
    }

    /// The path of the image on show, if the index is in range.
    pub fn get_current(&self) -> (r: Option<&String>)
        ensures
            match r {
                Some(p) => self.path_at(self.index()) == Some(p@),
                None => self.path_at(self.index()) is None,
            },
    {
        if self.current_index < self.files.len() {
            Some(&self.files[self.current_index])
        } else {
            None
        }
    }

    /// Moves to the next image, wrapping from the last to the first.
    pub fn next(&mut self) -> (r: Option<&String>)
        requires
            old(self).wf(),
        ensures
            final(self).wf(),
            final(self).files() == old(self).files(),
            old(self).files().len() == 0 ==> r is None && final(self).index() == old(self).index(),
            old(self).files().len() > 0 ==> final(self).index() == wrap_forward(
                old(self).index(),
                1,
                old(self).files().len() as int,
            ),
            match r {
                Some(p) => final(self).path_at(final(self).index()) == Some(p@),
                None => final(self).path_at(final(self).index()) is None,
            },
    {
        if self.files.len() == 0 {
            return None;
        }
        self.current_index = (self.current_index + 1) % self.files.len();
        self.get_current()
    }

    /// Moves to the previous image, wrapping from the first to the last.
    pub fn previous(&mut self) -> (r: Option<&String>)
        requires
            old(self).wf(),
        ensures
            final(self).wf(),
            final(self).files() == old(self).files(),
            old(self).files().len() == 0 ==> r is None && final(self).index() == old(self).index(),
            old(self).files().len() > 0 ==> final(self).index() == step_back(
                old(self).index(),
                old(self).files().len() as int,
            ),
            match r {
                Some(p) => final(self).path_at(final(self).index()) == Some(p@),
                None => final(self).path_at(final(self).index()) is None,
            },
    {
        if self.files.len() == 0 {
            return None;
        }
        if self.current_index == 0 {
            self.current_index = self.files.len() - 1;
        } else {
            self.current_index = self.current_index - 1;
        }
        self.get_current()
    }

    /// Moves to the image at `index` when there is one; otherwise changes
    /// nothing and gives `None`.
    pub fn jump_to(&mut self, index: usize) -> (r: Option<&String>)
        requires
            old(self).wf(),
        ensures
            final(self).wf(),
            final(self).files() == old(self).files(),
            index < old(self).files().len() ==> final(self).index() == index && r is Some
                && old(self).files()[index as int] == r->0@,
            index >= old(self).files().len() ==> r is None && final(self).index() == old(
                self,
            ).index(),
    {
        if index < self.files.len() {
            self.current_index = index;
            self.get_current()
        } else {
            None
        }
    }

    /// Moves to the first image.
    pub fn first(&mut self) -> (r: Option<&String>)
        requires
            old(self).wf(),
        ensures
            final(self).wf(),
            final(self).files() == old(self).files(),
            old(self).files().len() > 0 ==> final(self).index() == 0 && r is Some
                && old(self).files()[0] == r->0@,
            old(self).files().len() == 0 ==> r is None && final(self).index() == old(
                self,
            ).index(),
    {
        self.jump_to(0)
    }

    /// Moves to the last image.
    pub fn last(&mut self) -> (r: Option<&String>)
        requires
            old(self).wf(),
        ensures
            final(self).wf(),
            final(self).files() == old(self).files(),
            old(self).files().len() > 0 ==> final(self).index() == old(self).files().len() - 1
                && r is Some && old(self).files()[old(self).files().len() - 1] == r->0@,
            old(self).files().len() == 0 ==> r is None && final(self).index() == old(
                self,
            ).index(),
    {
        if self.files.len() == 0 {
            None
        } else {
            self.jump_to(self.files.len() - 1)
        }
    }

    pub fn current_index(&self) -> (r: usize)
        ensures
            r == self.index(),
    {
        self.current_index
    }

    pub fn total_count(&self) -> (r: usize)
        ensures
            r == self.files().len(),
    {
        self.files.len()
    }

    /// All the paths in the list, in order.
    pub fn get_all_files(&self) -> (r: &[String])
        ensures
            r.deep_view() == self.files(),
    {
        self.files.as_slice()
    }

    /// The path `offset` places after the image on show, wrapping around;
    /// `None` when the list is empty.
    pub fn peek_next(&self, offset: usize) -> (r: Option<&String>)
        requires
            self.wf(),
            self.index() + offset <= usize::MAX,
        ensures
            self.files().len() == 0 ==> r is None,
            self.files().len() > 0 ==> r is Some && r->0@ == self.files()[wrap_forward(
                self.index(),
                offset as int,
                self.files().len() as int,
            )],
    {
        if self.files.len() == 0 {
            return None;
        }
        let index = (self.current_index + offset) % self.files.len();
        Some(&self.files[index])
    }

    /// The path `offset` places before the image on show, wrapping around;
    /// `None` when the list is empty.
    pub fn peek_previous(&self, offset: usize) -> (r: Option<&String>)
        requires
            self.wf(),
        ensures
            self.files().len() == 0 ==> r is None,
            self.files().len() > 0 ==> r is Some && r->0@ == self.files()[wrap_backward(
                self.index(),
                offset as int,
                self.files().len() as int,
            )],
    {
        if self.files.len() == 0 {
            return None;
        }
        let len = self.files.len();
        let index = (self.current_index + len - (offset % len)) % len;
        Some(&self.files[index])
    }

    /// Whether the path's extension is one of the image formats the viewer
    /// browses (`jpg`, `jpeg`, `png`, `gif`, `bmp`, `webp`, `tiff`, `tif`,
    /// in any ASCII case).
    pub fn is_supported_image(path: &str) -> (r: bool)
        ensures
            r == is_supported_path(path@),
    {
        is_supported_path_text(path)
    }

    /// Sorts paths by file name, keeping paths with equal names in their order.
    pub fn sort_files(&self, files: &mut Vec<String>)
        ensures
            is_stable_sort(SortKey::FileName, final(files).deep_view(), old(files).deep_view()),
            final(files).len() == old(files).len(),
    {
        stable_sort(SortKey::FileName, files);
    }
}

/// Whatever loads and moves led to it, a file manager's list holds only
/// images, sorted by file name; moving through it never changes it (see the
/// navigation contracts).
pub proof fn law_list_is_sorted_images(m: FileManager)
    requires
        m.wf(),
    ensures
        sorted_by(SortKey::FileName, m.files()),
        forall|i: int| 0 <= i < m.files().len() ==> is_supported_path(#[trigger] m.files()[i]),
{
}

/// The position after `index` is `index + 1`, or the first after the last.
pub proof fn lemma_next_position(index: int, len: int)
    requires
        0 <= index < len,
    ensures
        wrap_forward(index, 1, len) == if index + 1 < len {
            index + 1
        } else {
            0
        },
{
    if index + 1 < len {
        vstd::arithmetic::div_mod::lemma_small_mod((index + 1) as nat, len as nat);
    } else {
        vstd::arithmetic::div_mod::lemma_mod_self_0(len);
    }
}

/// Moving to the next image and then to the previous one comes back to the
/// image one started from.
pub proof fn law_previous_undoes_next(index: int, len: int)
    requires
        0 <= index < len,
    ensures
        step_back(wrap_forward(index, 1, len), len) == index,
{
    lemma_next_position(index, len);
}

/// Moving to the previous image and then to the next one comes back to the
/// image one started from.
pub proof fn law_next_undoes_previous(index: int, len: int)
    requires
        0 <= index < len,
    ensures
        wrap_forward(step_back(index, len), 1, len) == index,
{
    lemma_next_position(step_back(index, len), len);
}

/// After moving to the next image the position is in the list, wherever it
/// was before.
pub proof fn law_next_lands_in_list(index: int, len: int)
    requires
        0 <= index,
        0 < len,
    ensures
        0 <= wrap_forward(index, 1, len) < len,
{
}

/// Moving `a` images ahead and then `b` more is moving `a + b` ahead.
pub proof fn law_steps_add_up(index: int, a: int, b: int, len: int)
    requires
        0 <= index,
        0 <= a,
        0 <= b,
        0 < len,
    ensures
        wrap_forward(wrap_forward(index, a, len), b, len) == wrap_forward(index, a + b, len),
{
    vstd::arithmetic::div_mod::lemma_add_mod_noop_right(b, index + a, len);
}

/// Moving ahead as many images as the list holds comes back to the start.
pub proof fn law_full_round_returns(index: int, len: int)
    requires
        0 <= index < len,
    ensures
        wrap_forward(index, len, len) == index,
{
    vstd::arithmetic::div_mod::lemma_mod_add_multiples_vanish(index, len);
    vstd::arithmetic::div_mod::lemma_small_mod(index as nat, len as nat);
}

/// The image `offset` places before the one `offset` places after is the
/// image on show.
pub proof fn law_peek_previous_undoes_peek_next(index: int, offset: int, len: int)
    requires
        0 <= index < len,
        0 <= offset,
    ensures
        wrap_backward(wrap_forward(index, offset, len), offset, len) == index,
{
    let x = index + offset;
    vstd::arithmetic::div_mod::lemma_mod_add_multiples_vanish(x % len - offset % len, len);
    vstd::arithmetic::div_mod::lemma_sub_mod_noop(x, offset, len);
    vstd::arithmetic::div_mod::lemma_small_mod(index as nat, len as nat);
}

} // verus!
