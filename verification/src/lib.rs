//! A 2D integer-grid geometry utility: grid coordinates, axis-aligned
//! rectangles with inclusive corners, and row-major enumeration of all
//! coordinates inside a rectangle.
//!
//! Coordinates are `u64` pairs. A rectangle is valid exactly when its minimum
//! corner does not exceed its maximum corner on either axis; construction
//! rejects anything else. Enumeration is lazy: a cursor walks the rectangle
//! row by row, x varying fastest, and never overflows, even when a corner
//! sits at `u64::MAX` (reaching the last cell is recorded in a flag rather
//! than by stepping the cursor past the corner).

use vstd::prelude::*;

verus! {

/// A position on the 2D integer grid.
#[derive(Clone, Copy, Debug, PartialEq, Eq, Structural)]
pub struct Coord {
    pub x: u64,
    pub y: u64,
}

impl Coord {
    /// Create a grid coordinate at (x, y).
    pub fn new(x: u64, y: u64) -> (c: Coord)
        ensures
            c == (Coord { x, y }),
    {
        Coord { x, y }
    }
}

/// Rectangle defined by inclusive minimum and maximum coordinates.
#[derive(Clone, Copy, Debug, PartialEq, Eq, Structural)]
pub struct Rect {
    /// Minimum coordinate (inclusive)
    pub min_coord: Coord,

    /// Maximum coordinate (inclusive)
    pub max_coord: Coord,
}

impl Rect {
    /// A rectangle is well formed when its corners are ordered on both axes.
    pub open spec fn wf(self) -> bool {
        self.min_coord.x <= self.max_coord.x && self.min_coord.y <= self.max_coord.y
    }

    /// Number of columns.
    pub open spec fn width(self) -> int {
        self.max_coord.x - self.min_coord.x + 1
    }

    /// Number of rows.
    pub open spec fn height(self) -> int {
        self.max_coord.y - self.min_coord.y + 1
    }

    /// Number of cells inside.
    pub open spec fn size(self) -> int {
        self.width() * self.height()
    }

    /// The cell at position `i` of the row-major walk: `i` columns past the
    /// minimum corner, carrying into a new row every `width` cells.
    pub open spec fn coord_at(self, i: int) -> Coord {
        Coord {
            x: (self.min_coord.x + i % self.width()) as u64,
            y: (self.min_coord.y + i / self.width()) as u64,
        }
    }

    /// Every cell inside, in row-major order.
    pub open spec fn coords(self) -> Seq<Coord> {
        Seq::new(self.size() as nat, |i: int| self.coord_at(i))
    }

    /// Create a new Rect defined by inclusive minimum and maximum
    /// coordinates. If min_coord is greater than max_coord on either
    /// axis then None is returned.
    pub fn new(min_coord: Coord, max_coord: Coord) -> (r: Option<Rect>)
        ensures
            min_coord.x <= max_coord.x && min_coord.y <= max_coord.y ==> r == Some(
                Rect { min_coord, max_coord },
            ),
            min_coord.x > max_coord.x || min_coord.y > max_coord.y ==> r is None,
    {
        if min_coord.x <= max_coord.x && min_coord.y <= max_coord.y {
            Some(Rect { min_coord, max_coord })
        } else {
            None
        }
    }

    /// Iterate from minimum coord to maximum coord by row. Each call starts
    /// a fresh, independent walk at the minimum corner.
    pub fn iter(&self) -> (it: RectIter)
        requires
            self.wf(),
        ensures
            it.wf(),
            it.rect() == *self,
            it.pos() == 0,
    {
        RectIter { rect: *self, cur_coord: self.min_coord, done: false }
    }
}

/// A cursor over the cells of a rectangle, in row-major order. Yields each
/// cell exactly once, on demand; once exhausted it stays exhausted.
pub struct RectIter {
    rect: Rect,
    cur_coord: Coord,
    done: bool,
}

impl RectIter {
    /// The rectangle being walked.
    pub closed spec fn rect(self) -> Rect {
        self.rect
    }

    /// How many cells have been yielded so far; `rect().size()` once the
    /// walk is exhausted.
    pub closed spec fn pos(self) -> int {
        if self.done {
            self.rect.size()
        } else {
            (self.cur_coord.y - self.rect.min_coord.y) * self.rect.width() + (self.cur_coord.x
                - self.rect.min_coord.x)
        }
    }

    /// Whether the walk has yielded every cell of its rectangle.
    pub closed spec fn exhausted(self) -> bool {
        self.done
    }

    /// The cursor stays inside its well-formed rectangle; once the walk is
    /// exhausted it rests on the maximum corner.
    pub closed spec fn wf(self) -> bool {
        &&& self.rect.wf()
        &&& self.rect.min_coord.x <= self.cur_coord.x <= self.rect.max_coord.x
        &&& self.rect.min_coord.y <= self.cur_coord.y <= self.rect.max_coord.y
        &&& (self.done ==> self.cur_coord == self.rect.max_coord)
    }

    /// Yield the next cell of the walk, or None once every cell of the
    /// rectangle has been yielded.
    pub fn next(&mut self) -> (r: Option<Coord>)
        requires
            old(self).wf(),
        ensures
            final(self).wf(),
            final(self).rect() == old(self).rect(),
            old(self).pos() < old(self).rect().coords().len() ==> {
                &&& r == Some(old(self).rect().coords()[old(self).pos()])
                &&& final(self).pos() == old(self).pos() + 1
            },
            old(self).pos() >= old(self).rect().coords().len() ==> {
                &&& r is None
                &&& final(self).pos() == old(self).pos()
            },
    {
        if self.done {
            proof {
                lemma_size_is_len(self.rect);
            }
            None
        } else {
            let result = self.cur_coord;
            if self.cur_coord.x < self.rect.max_coord.x {
                self.cur_coord.x = self.cur_coord.x + 1;
            } else if self.cur_coord.y < self.rect.max_coord.y {
                self.cur_coord.x = self.rect.min_coord.x;
                self.cur_coord.y = self.cur_coord.y + 1;
            } else {
                self.done = true;
            }
            proof {
                let rect = old(self).rect;
                let w = rect.width();
                let row = old(self).cur_coord.y - rect.min_coord.y;
                let col = old(self).cur_coord.x - rect.min_coord.x;
                lemma_size_is_len(rect);
                lemma_index_of_cell(rect, row, col);
                assert(rect.coord_at(row * w + col) == old(self).cur_coord);
                if self.done {
                    assert(w * rect.height() == (rect.height() - 1) * w + w) by (nonlinear_arith);
                } else if old(self).cur_coord.x == rect.max_coord.x {
                    assert((row + 1) * w == row * w + w) by (nonlinear_arith);
                }
            }
            Some(result)
        }
    }
}

/// A well-formed rectangle holds at least one cell, and its row-major
/// sequence has one entry per cell.
proof fn lemma_size_is_len(rect: Rect)
    requires
        rect.wf(),
    ensures
        rect.size() >= 1,
        rect.coords().len() == rect.size(),
{
    let w = rect.width();
    let h = rect.height();
    assert(w * h >= 1) by (nonlinear_arith)
        requires
            w >= 1,
            h >= 1,
    ;
}

/// A live cursor has yielded between zero cells and all of them: its
/// position never leaves `[0, rect().coords().len()]`.
pub proof fn lemma_pos_in_range(it: RectIter)
    requires
        it.wf(),
    ensures
        0 <= it.pos() <= it.rect().coords().len(),
        it.pos() == it.rect().coords().len() <==> it.exhausted(),
{
    lemma_size_is_len(it.rect());
    if !it.exhausted() {
        let rect = it.rect();
        lemma_index_of_cell(
            rect,
            it.cur_coord.y - rect.min_coord.y,
            it.cur_coord.x - rect.min_coord.x,
        );
    }
}

/// A well-formed rectangle enumerates exactly
/// `(max.x - min.x + 1) * (max.y - min.y + 1)` coordinates.
pub proof fn lemma_coords_count(rect: Rect)
    requires
        rect.wf(),
    ensures
        rect.coords().len() == (rect.max_coord.x - rect.min_coord.x + 1) * (rect.max_coord.y
            - rect.min_coord.y + 1),
{
    lemma_size_is_len(rect);
}

/// The enumeration starts at the minimum corner and ends at the maximum
/// corner.
pub proof fn lemma_coords_ends(rect: Rect)
    requires
        rect.wf(),
    ensures
        rect.coords().first() == rect.min_coord,
        rect.coords().last() == rect.max_coord,
{
    let w = rect.width();
    let h = rect.height();
    lemma_size_is_len(rect);
    lemma_index_of_cell(rect, 0, 0);
    lemma_index_of_cell(rect, h - 1, w - 1);
    assert((h - 1) * w + (w - 1) == w * h - 1) by (nonlinear_arith);
}

/// Each coordinate of the enumeration steps one cell to the right of the one
/// before it, except at the end of a row, where it returns to the minimum
/// column of the next row.
pub proof fn lemma_coords_step(rect: Rect, i: int)
    requires
        rect.wf(),
        0 <= i,
        i + 1 < rect.coords().len(),
    ensures
        rect.coords()[i].x < rect.max_coord.x ==> rect.coords()[i + 1] == (Coord {
            x: (rect.coords()[i].x + 1) as u64,
            y: rect.coords()[i].y,
        }),
        rect.coords()[i].x == rect.max_coord.x ==> rect.coords()[i + 1] == (Coord {
            x: rect.min_coord.x,
            y: (rect.coords()[i].y + 1) as u64,
        }),
        rect.coords()[i].x <= rect.max_coord.x,
{
    let w = rect.width();
    let h = rect.height();
    lemma_size_is_len(rect);
    lemma_cell_of_index(rect, i);
    let row = i / w;
    let col = i % w;
    if col < w - 1 {
        lemma_index_of_cell(rect, row, col + 1);
    } else {
        assert((row + 1) * w == row * w + w) by (nonlinear_arith);
        assert(row + 1 < h) by (nonlinear_arith)
            requires
                (row + 1) * w == i + 1,
                i + 1 < w * h,
                w >= 1,
                0 <= row,
        ;
        lemma_index_of_cell(rect, row + 1, 0);
    }
}

/// The enumeration is strictly row-major: of two distinct positions, the
/// later one carries the strictly larger (y, x) pair, so every coordinate of
/// a row precedes every coordinate of later rows and no coordinate repeats.
pub proof fn lemma_coords_row_major(rect: Rect, i: int, j: int)
    requires
        rect.wf(),
        0 <= i < j < rect.coords().len(),
    ensures
        rect.coords()[i].y < rect.coords()[j].y || (rect.coords()[i].y == rect.coords()[j].y
            && rect.coords()[i].x < rect.coords()[j].x),
        rect.coords()[i] != rect.coords()[j],
{
    let w = rect.width();
    lemma_size_is_len(rect);
    lemma_cell_of_index(rect, i);
    lemma_cell_of_index(rect, j);
    vstd::arithmetic::div_mod::lemma_div_is_ordered(i, j, w);
}

/// The abstract state (rectangle and position) determines the cursor
/// completely: two well-formed cursors over the same rectangle at the same
/// position are equal, so every walk of a rectangle yields the same sequence
/// of coordinates in the same order.
pub proof fn lemma_iter_deterministic(a: RectIter, b: RectIter)
    requires
        a.wf(),
        b.wf(),
        a.rect() == b.rect(),
        a.pos() == b.pos(),
    ensures
        a == b,
{
    let rect = a.rect();
    let w = rect.width();
    lemma_pos_in_range(a);
    lemma_pos_in_range(b);
    if !a.exhausted() && !b.exhausted() {
        vstd::arithmetic::div_mod::lemma_fundamental_div_mod_converse(
            a.pos(),
            w,
            a.cur_coord.y - rect.min_coord.y,
            a.cur_coord.x - rect.min_coord.x,
        );
        vstd::arithmetic::div_mod::lemma_fundamental_div_mod_converse(
            b.pos(),
            w,
            b.cur_coord.y - rect.min_coord.y,
            b.cur_coord.x - rect.min_coord.x,
        );
    }
}

/// Within a well-formed rectangle, a row-major position in range decomposes
/// into a row and a column that lie inside the rectangle.
proof fn lemma_cell_of_index(rect: Rect, i: int)
    requires
        rect.wf(),
        0 <= i < rect.size(),
    ensures
        0 <= i / rect.width() < rect.height(),
        0 <= i % rect.width() < rect.width(),
        i == (i / rect.width()) * rect.width() + (i % rect.width()),
{
    let w = rect.width();
    let h = rect.height();
    vstd::arithmetic::div_mod::lemma_fundamental_div_mod(i, w);
    vstd::arithmetic::div_mod::lemma_mod_bound(i, w);
    assert(0 <= i / w < h) by (nonlinear_arith)
        requires
            i == w * (i / w) + (i % w),
            0 <= i % w < w,
            0 <= i < w * h,
            w >= 1,
    ;
}

/// Within a well-formed rectangle, the row-major position of the cell at a
/// given row and column is in range and decomposes back into that row and
/// column.
proof fn lemma_index_of_cell(rect: Rect, row: int, col: int)
    requires
        rect.wf(),
        0 <= row < rect.height(),
        0 <= col < rect.width(),
    ensures
        0 <= row * rect.width() + col < rect.size(),
        (row * rect.width() + col) / rect.width() == row,
        (row * rect.width() + col) % rect.width() == col,
{
    let w = rect.width();
    let h = rect.height();
    assert(0 <= row * w + col < w * h) by (nonlinear_arith)
        requires
            0 <= row <= h - 1,
            0 <= col <= w - 1,
            w >= 1,
            h >= 1,
    ;
    vstd::arithmetic::div_mod::lemma_fundamental_div_mod_converse(row * w + col, w, row, col);
}

} // verus!
