//! Rows: the lines of the screen.

use std::rc::Rc;

use vstd::prelude::*;

use crate::cell::{Cell, CellView, ColorType};
use crate::views::{group_views, views};

verus! {

broadcast use group_views;

/// A line of cells, and the generation it belongs to.
#[verifier::ext_equal]
pub struct RowView {
    pub cells: Seq<CellView>,
    pub gen: u64,
}

/// `width` empty cells on the given background.
pub open spec fn blank_cells(width: nat, background_color: ColorType) -> Seq<CellView> {
    Seq::new(width, |i: int| CellView::blank(background_color))
}

/// `cells` cut or filled up with empty cells to the given width.
pub open spec fn cells_resized(
    cells: Seq<CellView>,
    width: nat,
    background_color: ColorType,
) -> Seq<CellView> {
    Seq::new(
        width,
        |i: int|
            if i < cells.len() {
                cells[i]
            } else {
                CellView::blank(background_color)
            },
    )
}

impl RowView {
    /// An empty row.
    pub open spec fn blank(width: nat, background_color: ColorType, gen: u64) -> RowView {
        RowView { cells: blank_cells(width, background_color), gen }
    }

    /// Does the text of this row go on in the next one?
    pub open spec fn wraps(self) -> bool {
        self.cells.len() > 0 && self.cells.last().wrap
    }

    /// The row with its wrap flag, which the last cell carries, set or cleared.
    pub open spec fn with_wrap(self, w: bool) -> RowView {
        if self.cells.len() > 0 {
            RowView {
                cells: self.cells.update(
                    self.cells.len() - 1,
                    CellView { wrap: w, ..self.cells.last() },
                ),
                ..self
            }
        } else {
            self
        }
    }

    /// The row with an empty cell put in at `col` and the last cell pushed out.
    pub open spec fn cell_inserted(self, col: int, background_color: ColorType) -> RowView {
        RowView {
            cells: self.cells.insert(col, CellView::blank(background_color)).drop_last(),
            ..self
        }
    }

    /// The row with the cell at `col` taken out and an empty cell added at the end.
    pub open spec fn cell_deleted(self, col: int, background_color: ColorType) -> RowView {
        RowView { cells: self.cells.push(CellView::blank(background_color)).remove(col), ..self }
    }

    /// The row with the cells from `start` up to `end` emptied.
    pub open spec fn erased(self, start: int, end: int, background_color: ColorType) -> RowView {
        RowView {
            cells: Seq::new(
                self.cells.len(),
                |i: int|
                    if start <= i < end {
                        CellView::blank(background_color)
                    } else {
                        self.cells[i]
                    },
            ),
            ..self
        }
    }

    /// The row with every cell holding just `c`.
    pub open spec fn filled(self, c: char, background_color: ColorType) -> RowView {
        RowView {
            cells: Seq::new(
                self.cells.len(),
                |i: int| CellView::blank(background_color).appended(c),
            ),
            ..self
        }
    }

    /// How many cells from `col` on an insertion or deletion of `count` cells affects.
    pub open spec fn cells_moved(self, col: int, count: int) -> int {
        if count < self.cells.len() - col {
            count
        } else {
            self.cells.len() - col
        }
    }

    /// The row with `count` empty cells put in at `col` and as many pushed out at the end.
    pub open spec fn cells_inserted(
        self,
        col: int,
        count: int,
        background_color: ColorType,
    ) -> RowView {
        let n = self.cells_moved(col, count);
        RowView {
            cells: self.cells.subrange(0, col) + blank_cells(n as nat, background_color)
                + self.cells.subrange(col, self.cells.len() - n),
            ..self
        }
    }

    /// The row with `count` cells taken out at `col` and as many empty ones added at the
    /// end.
    pub open spec fn cells_deleted(
        self,
        col: int,
        count: int,
        background_color: ColorType,
    ) -> RowView {
        let n = self.cells_moved(col, count);
        RowView {
            cells: self.cells.subrange(0, col) + self.cells.subrange(
                col + n,
                self.cells.len() as int,
            ) + blank_cells(n as nat, background_color),
            ..self
        }
    }

    /// `cell_inserted`, `count` times.
    pub open spec fn cell_inserted_repeatedly(
        self,
        col: int,
        count: nat,
        background_color: ColorType,
    ) -> RowView
        decreases count,
    {
        if count == 0 {
            self
        } else {
            self.cell_inserted_repeatedly(col, (count - 1) as nat, background_color).cell_inserted(
                col,
                background_color,
            )
        }
    }

    /// `cell_deleted`, `count` times.
    pub open spec fn cell_deleted_repeatedly(
        self,
        col: int,
        count: nat,
        background_color: ColorType,
    ) -> RowView
        decreases count,
    {
        if count == 0 {
            self
        } else {
            self.cell_deleted_repeatedly(col, (count - 1) as nat, background_color).cell_deleted(
                col,
                background_color,
            )
        }
    }

    /// The row at another width. Its wrap flag is cleared, because its last cell is no
    /// longer at the margin where the text wrapped.
    pub open spec fn resized(self, width: nat, background_color: ColorType) -> RowView {
        RowView {
            cells: cells_resized(self.with_wrap(false).cells, width, background_color),
            ..self
        }
    }
}

/// One line of the screen.
#[derive(Debug)]
pub struct Row {
    pub cells: Vec<Cell>,
    /// Two rows of different generations are never equal, which lets scrolling rule out
    /// most row comparisons without looking at any cells.
    pub gen: u64,
}

impl View for Row {
    type V = RowView;

    open spec fn view(&self) -> RowView {
        RowView { cells: views(self.cells@), gen: self.gen }
    }
}

impl Clone for Row {
    fn clone(&self) -> (res: Self)
        ensures
            res@ == self@,
    {
        let cells = self.cells.clone();
        assert(views(cells@) =~= views(self.cells@));
        Row { cells, gen: self.gen }
    }
}

/// `getrandom::u64` draws a number from the system's source of randomness, or fails where
/// there is none. Nothing is stated of its value, nor of when it fails.
#[verifier::external_body]
fn random_number() -> (n: Option<u64>) {
    getrandom::u64().ok()
}

/// The generation that goes with a random number: without one it is zero. Rows count as
/// the same row only if their cells are equal too.
pub(crate) fn generation_from(random: Option<u64>) -> (gen: u64)
    ensures
        gen == match random {
            Some(n) => n,
            None => 0,
        },
{
    match random {
        Some(n) => n,
        None => 0,
    }
}

/// A generation for new rows, drawn at random.
pub(crate) fn fresh_generation() -> (gen: u64) {
    generation_from(random_number())
}

/// `Rc::make_mut` gives write access to the value behind the pointer, which is cloned
/// first if it is shared. `Row::clone` keeps the view, so the value is the same either
/// way, and what is written is what the pointer holds afterwards.
#[verifier::external_body]
pub(crate) fn writable(r: &mut Rc<Row>) -> (ret: &mut Row)
    ensures
        ret@ == old(r)@,
        final(r)@ == final(ret)@,
{
    Rc::make_mut(r)
}

/// Appends `n` empty cells.
pub(crate) fn push_blank_cells(cells: &mut Vec<Cell>, n: usize, background_color: ColorType)
    ensures
        views(final(cells)@) == views(old(cells)@) + blank_cells(n as nat, background_color),
{
    let mut i: usize = 0;
    while i < n
        invariant
            i <= n,
            views(cells@) == views(old(cells)@) + blank_cells(i as nat, background_color),
        decreases n - i,
    {
        cells.push(Cell::new(background_color));
        i = i + 1;
        assert(views(cells@) =~= views(old(cells)@) + blank_cells(i as nat, background_color));
    }
    assert(views(cells@) =~= views(old(cells)@) + blank_cells(n as nat, background_color));
}

/// Cuts the cells or fills them up with empty ones to `width`.
pub(crate) fn resize_cells(cells: &mut Vec<Cell>, width: usize, background_color: ColorType)
    ensures
        views(final(cells)@) == cells_resized(views(old(cells)@), width as nat, background_color),
{
    if cells.len() > width {
        cells.truncate(width);
    } else {
        let n: usize = width - cells.len();
        push_blank_cells(cells, n, background_color);
    }
    assert(views(cells@) =~= cells_resized(views(old(cells)@), width as nat, background_color));
}

impl Row {
    /// An empty row of a new generation.
    pub fn new(width: usize, background_color: ColorType) -> (res: Self)
        ensures
            res@ == RowView::blank(width as nat, background_color, res@.gen),
    {
        Row::with_generation(width, background_color, fresh_generation())
    }

    /// An empty row of the given generation.
    pub fn with_generation(width: usize, background_color: ColorType, gen: u64) -> (res: Self)
        ensures
            res@ == RowView::blank(width as nat, background_color, gen),
    {
        let mut cells: Vec<Cell> = Vec::new();
        push_blank_cells(&mut cells, width, background_color);
        assert(views(cells@) =~= blank_cells(width as nat, background_color));
        Row { cells, gen }
    }

    pub fn insert_cell(&mut self, col: usize, background_color: ColorType)
        requires
            col <= old(self)@.cells.len(),
        ensures
            final(self)@ == old(self)@.cell_inserted(col as int, background_color),
    {
        self.cells.insert(col, Cell::new(background_color));
        self.cells.pop();
        assert(self@ =~= old(self)@.cell_inserted(col as int, background_color));
    }

    pub fn delete_cell(&mut self, col: usize, background_color: ColorType)
        requires
            col <= old(self)@.cells.len(),
        ensures
            final(self)@ == old(self)@.cell_deleted(col as int, background_color),
    {
        self.cells.push(Cell::new(background_color));
        self.cells.remove(col);
        assert(self@ =~= old(self)@.cell_deleted(col as int, background_color));
    }

    /// Empties the row and gives it a new generation.
    pub fn reset(&mut self, background_color: ColorType)
        ensures
            final(self)@ == RowView::blank(
                old(self)@.cells.len(),
                background_color,
                final(self)@.gen,
            ),
    {
        let gen = fresh_generation();
        self.reset_as(background_color, gen);
    }

    /// Empties the row and gives it the given generation.
    pub fn reset_as(&mut self, background_color: ColorType, gen: u64)
        ensures
            final(self)@ == RowView::blank(old(self)@.cells.len(), background_color, gen),
    {
        let n: usize = self.cells.len();
        let mut cells: Vec<Cell> = Vec::new();
        push_blank_cells(&mut cells, n, background_color);
        self.cells = cells;
        self.gen = gen;
        assert(self@ =~= RowView::blank(old(self)@.cells.len(), background_color, gen));
    }

    pub fn wrap(&self) -> (b: bool)
        ensures
            b == self@.wraps(),
    {
        if self.cells.len() > 0 {
            self.cells[self.cells.len() - 1].wrap()
        } else {
            false
        }
    }

    pub fn set_wrap(&mut self, w: bool)
        ensures
            final(self)@ == old(self)@.with_wrap(w),
    {
        let n: usize = self.cells.len();
        if n > 0 {
            self.cells[n - 1].set_wrap(w);
        }
        assert(self@ =~= old(self)@.with_wrap(w));
    }

    /// Empties the cells from `start` up to `end`.
    pub fn erase(&mut self, start: usize, end: usize, background_color: ColorType)
        requires
            end <= old(self)@.cells.len(),
        ensures
            final(self)@ == old(self)@.erased(start as int, end as int, background_color),
    {
        let mut i: usize = start;
        assert(self@ =~= old(self)@.erased(start as int, start as int, background_color));
        while i < end
            invariant
                start <= i,
                i <= end || i == start,
                end <= old(self)@.cells.len(),
                self@.cells.len() == old(self)@.cells.len(),
                self@ == old(self)@.erased(start as int, i as int, background_color),
            decreases end - i,
        {
            self.cells[i].reset(background_color);
            i = i + 1;
            assert(self@ =~= old(self)@.erased(start as int, i as int, background_color));
        }
        assert(self@ =~= old(self)@.erased(start as int, end as int, background_color));
    }

    /// Makes every cell hold just `c`.
    pub fn fill(&mut self, c: char, background_color: ColorType)
        ensures
            final(self)@ == old(self)@.filled(c, background_color),
    {
        let n: usize = self.cells.len();
        let mut i: usize = 0;
        while i < n
            invariant
                i <= n,
                n == self@.cells.len() == old(self)@.cells.len(),
                self@.gen == old(self)@.gen,
                forall|k: int|
                    0 <= k < i ==> #[trigger] self@.cells[k] == CellView::blank(
                        background_color,
                    ).appended(c),
            decreases n - i,
        {
            let ghost prev = self@;
            self.cells[i].reset(background_color);
            self.cells[i].append(c);
            assert(self@.cells =~= prev.cells.update(
                i as int,
                CellView::blank(background_color).appended(c),
            ));
            i = i + 1;
        }
        assert(self@ =~= old(self)@.filled(c, background_color));
    }

    /// Puts `count` empty cells in at `col`, in one move.
    pub fn insert_cells(&mut self, col: usize, count: usize, background_color: ColorType)
        requires
            col <= old(self)@.cells.len(),
        ensures
            final(self)@ == old(self)@.cells_inserted(col as int, count as int, background_color),
    {
        let len: usize = self.cells.len();
        let n: usize = if count < len - col {
            count
        } else {
            len - col
        };
        let mut tail = self.cells.split_off(col);
        tail.truncate(len - col - n);
        push_blank_cells(&mut self.cells, n, background_color);
        self.cells.append(&mut tail);
        assert(self@ =~= old(self)@.cells_inserted(col as int, count as int, background_color));
    }

    /// Takes `count` cells out at `col`, in one move.
    pub fn delete_cells(&mut self, col: usize, count: usize, background_color: ColorType)
        requires
            col <= old(self)@.cells.len(),
        ensures
            final(self)@ == old(self)@.cells_deleted(col as int, count as int, background_color),
    {
        let len: usize = self.cells.len();
        let n: usize = if count < len - col {
            count
        } else {
            len - col
        };
        let mut tail = self.cells.split_off(col + n);
        self.cells.truncate(col);
        self.cells.append(&mut tail);
        push_blank_cells(&mut self.cells, n, background_color);
        assert(self@ =~= old(self)@.cells_deleted(col as int, count as int, background_color));
    }

    /// Changes the width of the row.
    pub fn resize(&mut self, width: usize, background_color: ColorType)
        ensures
            final(self)@ == old(self)@.resized(width as nat, background_color),
    {
        self.set_wrap(false);
        resize_cells(&mut self.cells, width, background_color);
        assert(self@ =~= old(self)@.resized(width as nat, background_color));
    }
}

/// Inserting many cells in one move gives what inserting them one by one gives, however
/// many they are.
pub proof fn bulk_insertion_agrees_with_repeated(
    row: RowView,
    col: int,
    count: nat,
    background_color: ColorType,
)
    requires
        0 <= col < row.cells.len(),
    ensures
        row.cells_inserted(col, count as int, background_color) == row.cell_inserted_repeatedly(
            col,
            count,
            background_color,
        ),
    decreases count,
{
    if count == 0 {
        assert(row.cells_inserted(col, 0, background_color) =~= row);
    } else {
        let fewer = (count - 1) as nat;
        bulk_insertion_agrees_with_repeated(row, col, fewer, background_color);
        assert(row.cells_inserted(col, count as int, background_color) =~= row.cells_inserted(
            col,
            fewer as int,
            background_color,
        ).cell_inserted(col, background_color));
    }
}

/// Deleting many cells in one move gives what deleting them one by one gives, however
/// many they are.
pub proof fn bulk_deletion_agrees_with_repeated(
    row: RowView,
    col: int,
    count: nat,
    background_color: ColorType,
)
    requires
        0 <= col < row.cells.len(),
    ensures
        row.cells_deleted(col, count as int, background_color) == row.cell_deleted_repeatedly(
            col,
            count,
            background_color,
        ),
    decreases count,
{
    if count == 0 {
        assert(row.cells_deleted(col, 0, background_color) =~= row);
    } else {
        let fewer = (count - 1) as nat;
        bulk_deletion_agrees_with_repeated(row, col, fewer, background_color);
        assert(row.cells_deleted(col, count as int, background_color) =~= row.cells_deleted(
            col,
            fewer as int,
            background_color,
        ).cell_deleted(col, background_color));
    }
}

/// Do two runs of cells hold the same?
pub(crate) fn cells_eq(a: &Vec<Cell>, b: &Vec<Cell>) -> (r: bool)
    ensures
        r == (views(a@) == views(b@)),
{
    if a.len() != b.len() {
        assert(views(a@).len() != views(b@).len());
        return false;
    }
    let mut i: usize = 0;
    while i < a.len()
        invariant
            i <= a.len(),
            a.len() == b.len(),
            forall|k: int| 0 <= k < i ==> a@[k]@ == b@[k]@,
        decreases a.len() - i,
    {
        if a[i] != b[i] {
            assert(views(a@)[i as int] != views(b@)[i as int]);
            return false;
        }
        i = i + 1;
    }
    assert(views(a@) =~= views(b@));
    true
}

impl PartialEq for Row {
    fn eq(&self, other: &Self) -> (r: bool) {
        self.gen == other.gen && cells_eq(&self.cells, &other.cells)
    }
}

impl vstd::std_specs::cmp::PartialEqSpecImpl for Row {
    open spec fn obeys_eq_spec() -> bool {
        true
    }

    open spec fn eq_spec(&self, other: &Self) -> bool {
        self@ == other@
    }
}

impl Eq for Row {

}

} // verus!
