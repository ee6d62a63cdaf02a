//! The thumbnail grid: one item per image, five to a row, and the selected
//! item that the arrow keys move.
use vstd::prelude::*;
use crate::path::{file_name, path_file_name};

verus! {

/// Number of thumbnails in a grid row.
pub const COLUMNS: usize = 5;

/// One thumbnail of the grid.
#[derive(Clone, Debug)]
pub struct ThumbnailItem {
    pub path: String,
    pub index: usize,
    pub file_name: String,
}

/// What the grid asks of the viewer.
#[derive(Debug, Clone, PartialEq, Eq, Structural)]
pub enum ThumbnailMessage {
    SelectThumbnail(usize),
    Close,
}

/// A direction in which the selection moves.
#[derive(Debug, Clone, Copy, PartialEq, Eq, Structural)]
pub enum NavigationDirection {
    Up,
    Down,
    Left,
    Right,
}

/// The name shown under a thumbnail: the path's file name, or `Unknown`.
pub open spec fn display_name(p: Seq<char>) -> Seq<char> {
    match path_file_name(p) {
        Some(n) => n,
        None => "Unknown"@,
    }
}

/// The name shown for the file at `path`: its file name, or `Unknown` when it
/// has none.
pub fn display_name_of(path: &str) -> (r: String)
    ensures
        r@ == display_name(path@),
{
    match file_name(path) {
        Some(n) => n,
        None => String::from_str("Unknown"),
    }
}

/// Where the selection goes from `selected` among `total` items when moved
/// in `direction`: up and down by a row, left and right by one, never past
/// the first or last item; nowhere when the grid is empty.
pub open spec fn moved_selection(selected: int, total: int, direction: NavigationDirection) -> int {
    if total == 0 {
        selected
    } else {
        match direction {
            NavigationDirection::Up => if selected >= COLUMNS {
                selected - COLUMNS
            } else {
                selected
            },
            NavigationDirection::Down => if selected + COLUMNS < total {
                selected + COLUMNS
            } else {
                selected
            },
            NavigationDirection::Left => if selected > 0 {
                selected - 1
            } else {
                selected
            },
            NavigationDirection::Right => if selected + 1 < total {
                selected + 1
            } else {
                selected
            },
        }
    }
}

/// The items of row `r` of a grid of `total` items: positions
/// `r * COLUMNS` up to the next row or the end.
pub open spec fn row_range(r: int, total: int) -> (int, int) {
    let start = r * COLUMNS as int;
    let end = if start + COLUMNS < total {
        start + COLUMNS
    } else {
        total
    };
    (start, end)
}

/// The thumbnails of the open folder and the selected one.
pub struct ThumbnailGrid {
    thumbnails: Vec<ThumbnailItem>,
    selected_index: usize,
}

impl ThumbnailGrid {
    /// The items, in order.
    pub closed spec fn items(&self) -> Seq<ThumbnailItem> {
        self.thumbnails@
    }

    /// The position of the selected item.
    pub closed spec fn selected(&self) -> int {
        self.selected_index as int
    }

    pub fn new() -> (g: Self)
        ensures
            g.items().len() == 0,
            g.selected() == 0,
    {
        ThumbnailGrid { thumbnails: Vec::new(), selected_index: 0 }
    }

    /// Makes one item per path, numbered in order and named by the path's file
    /// name, and selects position `current_index`.
    pub fn load_files(&mut self, files: &[String], current_index: usize)
        ensures
            final(self).items().len() == files.len(),
            forall|i: int|
                0 <= i < files.len() ==> {
                    &&& (#[trigger] final(self).items()[i]).path@ == files[i]@
                    &&& final(self).items()[i].index == i
                    &&& final(self).items()[i].file_name@ == display_name(files[i]@)
                },
            final(self).selected() == current_index,
    {
        let mut items: Vec<ThumbnailItem> = Vec::new();
        let mut i: usize = 0;
        while i < files.len()
            invariant
                i <= files.len(),
                items.len() == i,
                forall|j: int|
                    0 <= j < i ==> {
                        &&& (#[trigger] items@[j]).path@ == files[j]@
                        &&& items@[j].index == j
                        &&& items@[j].file_name@ == display_name(files[j]@)
                    },
            decreases files.len() - i,
        {
            let path = files[i].clone();
            let name = display_name_of(files[i].as_str());
            items.push(ThumbnailItem { path, index: i, file_name: name });
            i = i + 1;
        }
        self.thumbnails = items;
        self.selected_index = current_index;
    }

    /// Moves the selection in `direction` (see `moved_selection`).
    pub fn move_selection(&mut self, direction: NavigationDirection)
        requires
            old(self).items().len() > 0 && direction == NavigationDirection::Down ==> old(
                self,
            ).selected() + COLUMNS <= usize::MAX,
            old(self).items().len() > 0 && direction == NavigationDirection::Right ==> old(
                self,
            ).selected() + 1 <= usize::MAX,
        ensures
            final(self).items() == old(self).items(),
            final(self).selected() == moved_selection(
                old(self).selected(),
                old(self).items().len() as int,
                direction,
            ),
    {
        let total = self.thumbnails.len();
        if total == 0 {
            return ;
        }
        match direction {
            NavigationDirection::Up => {
                if self.selected_index >= COLUMNS {
                    self.selected_index -= COLUMNS;
                }
            },
            NavigationDirection::Down => {
                if self.selected_index + COLUMNS < total {
                    self.selected_index += COLUMNS;
                }
            },
            NavigationDirection::Left => {
                if self.selected_index > 0 {
                    self.selected_index -= 1;
                }
            },
            NavigationDirection::Right => {
                if self.selected_index + 1 < total {
                    self.selected_index += 1;
                }
            },
        }
    }

    pub fn selected_index(&self) -> (r: usize)
        ensures
            r == self.selected(),
    {
        self.selected_index
    }

    /// The number of items.
    pub fn len(&self) -> (r: usize)
        ensures
            r == self.items().len(),
    {
        self.thumbnails.len()
    }

    /// The item at `position`.
    pub fn item(&self, position: usize) -> (r: &ThumbnailItem)
        requires
            position < self.items().len(),
        ensures
            *r == self.items()[position as int],
    {
        &self.thumbnails[position]
    }

    /// Whether the item at `position` is the selected one.
    pub fn is_selected(&self, position: usize) -> (r: bool)
        ensures
            r == (position == self.selected()),
    {
        position == self.selected_index
    }

    /// The rows of the grid, each as the range of item positions it shows:
    /// row `r` starts at `r * COLUMNS` and holds `COLUMNS` items, the last row
    /// what is left.
    pub fn rows(&self) -> (r: Vec<(usize, usize)>)
        ensures
            r.len() == (self.items().len() + COLUMNS - 1) / COLUMNS as int,
            forall|k: int|
                0 <= k < r.len() ==> (#[trigger] r[k]).0 == row_range(k, self.items().len() as int).0
                    && r[k].1 == row_range(k, self.items().len() as int).1,
    {
        let total = self.thumbnails.len();
        let mut rows: Vec<(usize, usize)> = Vec::new();
        let mut start: usize = 0;
        while start < total
            invariant
                start <= total,
                total == self.items().len(),
                start < total ==> start == rows.len() * COLUMNS,
                rows.len() == (start + COLUMNS - 1) / COLUMNS as int,
                forall|k: int|
                    0 <= k < rows.len() ==> (#[trigger] rows[k]).0 == row_range(k, total as int).0
                        && rows[k].1 == row_range(k, total as int).1,
            decreases total - start,
        {
            let end = if total - start > COLUMNS {
                start + COLUMNS
            } else {
                total
            };
            rows.push((start, end));
            start = end;
        }
        rows
    }
}

/// Starting on an item, the selection stays on an item whichever way it
/// moves.
pub proof fn law_selection_stays_in_grid(selected: int, total: int, direction: NavigationDirection)
    requires
        0 <= selected < total,
    ensures
        0 <= moved_selection(selected, total, direction) < total,
{
}

/// Moving up a row and then down a row comes back, when there was a row above.
pub proof fn law_down_undoes_up(selected: int, total: int)
    requires
        COLUMNS <= selected < total,
    ensures
        moved_selection(
            moved_selection(selected, total, NavigationDirection::Up),
            total,
            NavigationDirection::Down,
        ) == selected,
{
}

/// Moving down a row and then up a row comes back, when there was a row
/// below holding the item under the selection.
pub proof fn law_up_undoes_down(selected: int, total: int)
    requires
        0 <= selected,
        selected + COLUMNS < total,
    ensures
        moved_selection(
            moved_selection(selected, total, NavigationDirection::Down),
            total,
            NavigationDirection::Up,
        ) == selected,
{
}

/// Moving left and then right comes back, when there was an item to the left.
pub proof fn law_right_undoes_left(selected: int, total: int)
    requires
        0 < selected < total,
    ensures
        moved_selection(
            moved_selection(selected, total, NavigationDirection::Left),
            total,
            NavigationDirection::Right,
        ) == selected,
{
}

/// Moving right and then left comes back, when there was an item to the right.
pub proof fn law_left_undoes_right(selected: int, total: int)
    requires
        0 <= selected,
        selected + 1 < total,
    ensures
        moved_selection(
            moved_selection(selected, total, NavigationDirection::Right),
            total,
            NavigationDirection::Left,
        ) == selected,
{
}

/// The rows of a grid of `total` items cover the items in order, each holding
/// between one and `COLUMNS` of them.
pub proof fn law_rows_partition_items(total: int)
    requires
        total >= 0,
    ensures
        total > 0 ==> row_range(0, total).0 == 0,
        total > 0 ==> row_range((total + COLUMNS - 1) / COLUMNS as int - 1, total).1 == total,
        forall|k: int|
            0 <= k < (total + COLUMNS - 1) / COLUMNS as int ==> {
                &&& row_range(k, total).0 < #[trigger] row_range(k, total).1
                &&& row_range(k, total).1 - row_range(k, total).0 <= COLUMNS
                &&& row_range(k, total).1 <= total
            },
        forall|k: int|
            0 <= k && k + 1 < (total + COLUMNS - 1) / COLUMNS as int ==> #[trigger] row_range(
                k,
                total,
            ).1 == row_range(k + 1, total).0,
{
}

} // verus!
