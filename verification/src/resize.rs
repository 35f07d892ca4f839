//! Growing a room to take in a tile outside its rectangle, and trimming
//! borders that hold nothing.

use vstd::prelude::*;
use crate::grid::{
    cell_index, index_of, lemma_cell_index_in_range, lemma_cell_index_injective,
    lemma_cell_of_index,
};
use crate::room::{Door, Room, SpawnTemplate};
use crate::tiles::{BaseTile, OverlayTile};
use crate::world::outside_cell;

verus! {

/// `v` limited to the range from `lo` to `hi`.
pub open spec fn clamp(v: int, lo: int, hi: int) -> int {
    if v < lo {
        lo
    } else if v > hi {
        hi
    } else {
        v
    }
}

/// `v` limited to the range from `lo` to `hi`.
pub fn clamp_to(v: i64, lo: i64, hi: i64) -> (r: i64)
    ensures
        r == clamp(v as int, lo as int, hi as int),
{
    if v < lo {
        lo
    } else if v > hi {
        hi
    } else {
        v
    }
}

impl Room {
    /// Columns to add on the left so that the world column `x` is covered.
    pub open spec fn grow_left(&self, x: int) -> int {
        if self.x - x > 0 {
            self.x - x
        } else {
            0
        }
    }

    /// Columns to add on the right so that the world column `x` is covered.
    pub open spec fn grow_right(&self, x: int) -> int {
        if x - (self.x + self.w) + 1 > 0 {
            x - (self.x + self.w) + 1
        } else {
            0
        }
    }

    /// Rows to add at the top so that the world row `y` is covered.
    pub open spec fn grow_top(&self, y: int) -> int {
        if self.y - y > 0 {
            self.y - y
        } else {
            0
        }
    }

    /// Rows to add at the bottom so that the world row `y` is covered.
    pub open spec fn grow_bottom(&self, y: int) -> int {
        if y - (self.y + self.h) + 1 > 0 {
            y - (self.y + self.h) + 1
        } else {
            0
        }
    }

    /// True when the room, grown to take in the world tile `(x, y)`, still
    /// respects the size limits.
    pub open spec fn can_grow_to(&self, x: int, y: int) -> bool {
        Self::fits(
            self.x - self.grow_left(x),
            self.y - self.grow_top(y),
            self.w + self.grow_left(x) + self.grow_right(x),
            self.h + self.grow_top(y) + self.grow_bottom(y),
        )
    }

    /// The part of growing that does not concern single cells: `after` has
    /// the smallest rectangle that holds `self` and the world tile `(x, y)`,
    /// and doors and spawn points have moved with the cells.
    pub open spec fn grown_frame(&self, after: &Room, x: int, y: int) -> bool {
        let left = self.grow_left(x);
        let top = self.grow_top(y);
        &&& after.wf()
        &&& after.x == self.x - left
        &&& after.y == self.y - top
        &&& after.w == self.w + left + self.grow_right(x)
        &&& after.h == self.h + top + self.grow_bottom(y)
        &&& after.doors@.len() == self.doors@.len()
        &&& forall|i: int|
            0 <= i < self.doors@.len() ==> #[trigger] after.doors@[i] == (Door {
                x: (self.doors@[i].x + left) as i32,
                y: (self.doors@[i].y + top) as i32,
                dir: self.doors@[i].dir,
            })
        &&& after.templates@.len() == self.templates@.len()
        &&& forall|i: int|
            0 <= i < self.templates@.len() ==> #[trigger] after.templates@[i] == (SpawnTemplate {
                x: (self.templates@[i].x + left * 1000) as i64,
                y: (self.templates@[i].y + top * 1000) as i64,
                kind: self.templates@[i].kind,
            })
    }

    /// How `after` relates to `self` when `after` is `self` grown to take in
    /// the world tile `(x, y)`: the frame is as `grown_frame` says, old cells
    /// keep their world position, and new cells are outside the footprint.
    pub open spec fn grown(&self, after: &Room, x: int, y: int) -> bool {
        let left = self.grow_left(x);
        let top = self.grow_top(y);
        &&& self.grown_frame(after, x, y)
        &&& forall|cx: int, cy: int| #[trigger]
            after.has_cell(cx, cy) ==> after.cell(cx, cy) == (if self.has_cell(cx - left, cy - top) {
                self.cell(cx - left, cy - top)
            } else {
                outside_cell()
            })
    }

    /// Tells whether the room can grow to take in the world tile `(x, y)`.
    pub fn fits_after_growth(&self, x: i32, y: i32) -> (r: bool)
        requires
            self.wf(),
        ensures
            r == self.can_grow_to(x as int, y as int),
    {
        let left: i64 = if self.x as i64 - x as i64 > 0 { self.x as i64 - x as i64 } else { 0 };
        let top: i64 = if self.y as i64 - y as i64 > 0 { self.y as i64 - y as i64 } else { 0 };
        let over_x: i64 = x as i64 - (self.x as i64 + self.w as i64) + 1;
        let over_y: i64 = y as i64 - (self.y as i64 + self.h as i64) + 1;
        let right: i64 = if over_x > 0 { over_x } else { 0 };
        let bottom: i64 = if over_y > 0 { over_y } else { 0 };
        let new_w: i64 = self.w as i64 + left + right;
        let new_h: i64 = self.h as i64 + top + bottom;
        let new_x: i64 = self.x as i64 - left;
        let new_y: i64 = self.y as i64 - top;
        if new_w > 0x7fff_ffff || new_h > 0x7fff_ffff {
            return false;
        }
        proof {
            assert(new_w * new_h <= 0x7fff_ffff * 0x7fff_ffff) by (nonlinear_arith)
                requires
                    0 <= new_w <= 0x7fff_ffff,
                    0 <= new_h <= 0x7fff_ffff,
            ;
        }
        let area: u64 = (new_w as u64) * (new_h as u64);
        area <= 0xffff_ffff && new_x + new_w <= 0x7fff_ffff && new_y + new_h <= 0x7fff_ffff
    }

    /// Grows the room so that it covers the world tile `(x, y)`. Tiles keep
    /// their world position; the added cells are outside the footprint.
    pub fn resize_to_fit(&mut self, x: i32, y: i32)
        requires
            old(self).wf(),
            old(self).can_grow_to(x as int, y as int),
        ensures
            old(self).grown(final(self), x as int, y as int),
            final(self).contains(x as int, y as int),
            forall|tx: int, ty: int| final(self).tile(tx, ty) == old(self).tile(tx, ty),
            old(self).doors_unique() ==> final(self).doors_unique(),
    {
        let left: u32 = if self.x > x { (self.x as i64 - x as i64) as u32 } else { 0 };
        let top: u32 = if self.y > y { (self.y as i64 - y as i64) as u32 } else { 0 };
        let over_x: i64 = x as i64 - (self.x as i64 + self.w as i64) + 1;
        let over_y: i64 = y as i64 - (self.y as i64 + self.h as i64) + 1;
        let right: u32 = if over_x > 0 { over_x as u32 } else { 0 };
        let bottom: u32 = if over_y > 0 { over_y as u32 } else { 0 };
        let new_h: u32 = self.h + bottom + top;
        let new_w: u32 = self.w + left + right;
        let new_size: u32 = new_w * new_h;

        let mut new_base = vec![BaseTile::NotPartOfRoom; new_size as usize];
        let mut new_overlay = vec![OverlayTile::Nothing; new_size as usize];

        proof {
            assert forall|cx: int, cy: int| 0 <= cx < new_w && 0 <= cy < new_h implies (
                #[trigger] new_base@[cell_index(new_w as int, cx, cy)],
                new_overlay@[cell_index(new_w as int, cx, cy)],
            ) == outside_cell() by {
                lemma_cell_index_in_range(new_w as int, new_h as int, cx, cy);
            }
        }
        let mut yy: u32 = 0;
        while yy < self.h
            invariant
                self.wf(),
                yy <= self.h,
                new_w == self.w + left + right,
                new_h == self.h + bottom + top,
                new_w * new_h <= u32::MAX,
                new_base@.len() == new_w * new_h,
                new_overlay@.len() == new_w * new_h,
                forall|cx: int, cy: int|
                    0 <= cx < new_w && 0 <= cy < new_h ==> (
                        #[trigger] new_base@[cell_index(new_w as int, cx, cy)],
                        new_overlay@[cell_index(new_w as int, cx, cy)],
                    ) == (if self.has_cell(cx - left, cy - top) && cy - top < yy {
                        self.cell(cx - left, cy - top)
                    } else {
                        outside_cell()
                    }),
            decreases self.h - yy,
        {
            let mut xx: u32 = 0;
            while xx < self.w
                invariant
                    self.wf(),
                    yy < self.h,
                    xx <= self.w,
                    new_w == self.w + left + right,
                    new_h == self.h + bottom + top,
                    new_w * new_h <= u32::MAX,
                    new_base@.len() == new_w * new_h,
                    new_overlay@.len() == new_w * new_h,
                    forall|cx: int, cy: int|
                        0 <= cx < new_w && 0 <= cy < new_h ==> (
                            #[trigger] new_base@[cell_index(new_w as int, cx, cy)],
                            new_overlay@[cell_index(new_w as int, cx, cy)],
                        ) == (if self.has_cell(cx - left, cy - top) && (cy - top < yy || (cy - top
                            == yy && cx - left < xx)) {
                            self.cell(cx - left, cy - top)
                        } else {
                            outside_cell()
                        }),
                decreases self.w - xx,
            {
                let from = index_of(self.w, self.h, xx, yy);
                let to = index_of(new_w, new_h, xx + left, yy + top);
                let ghost prev_base = new_base@;
                let ghost prev_overlay = new_overlay@;
                new_base.set(to, self.base[from]);
                new_overlay.set(to, self.overlay[from]);
                proof {
                    assert forall|cx: int, cy: int| 0 <= cx < new_w && 0 <= cy < new_h implies (
                        #[trigger] new_base@[cell_index(new_w as int, cx, cy)],
                        new_overlay@[cell_index(new_w as int, cx, cy)],
                    ) == (if self.has_cell(cx - left, cy - top) && (cy - top < yy || (cy - top
                        == yy && cx - left < xx + 1)) {
                        self.cell(cx - left, cy - top)
                    } else {
                        outside_cell()
                    }) by {
                        lemma_cell_index_in_range(new_w as int, new_h as int, cx, cy);
                        if cell_index(new_w as int, cx, cy) == to {
                            lemma_cell_index_injective(
                                new_w as int,
                                cx,
                                cy,
                                xx + left,
                                yy + top,
                            );
                        }
                    }
                }
                xx += 1;
            }
            yy += 1;
        }

        let mut new_doors: Vec<Door> = Vec::new();
        let mut i: usize = 0;
        while i < self.doors.len()
            invariant
                self.wf(),
                i <= self.doors@.len(),
                new_doors@.len() == i,
                left + self.w <= new_w,
                top + self.h <= new_h,
                new_w + (self.x - left) <= i32::MAX,
                new_h + (self.y - top) <= i32::MAX,
                forall|k: int|
                    0 <= k < i ==> #[trigger] new_doors@[k] == (Door {
                        x: (self.doors@[k].x + left) as i32,
                        y: (self.doors@[k].y + top) as i32,
                        dir: self.doors@[k].dir,
                    }),
            decreases self.doors@.len() - i,
        {
            let d = self.doors[i];
            assert(self.door_inside(d));
            new_doors.push(
                Door {
                    x: (d.x as i64 + left as i64) as i32,
                    y: (d.y as i64 + top as i64) as i32,
                    dir: d.dir,
                },
            );
            i += 1;
        }

        let mut new_templates: Vec<SpawnTemplate> = Vec::new();
        let mut j: usize = 0;
        while j < self.templates.len()
            invariant
                self.wf(),
                j <= self.templates@.len(),
                new_templates@.len() == j,
                forall|k: int|
                    0 <= k < j ==> #[trigger] new_templates@[k] == (SpawnTemplate {
                        x: (self.templates@[k].x + left * 1000) as i64,
                        y: (self.templates@[k].y + top * 1000) as i64,
                        kind: self.templates@[k].kind,
                    }),
            decreases self.templates@.len() - j,
        {
            let t = self.templates[j];
            assert(self.template_inside(t));
            new_templates.push(
                SpawnTemplate {
                    x: t.x + left as i64 * 1000,
                    y: t.y + top as i64 * 1000,
                    kind: t.kind,
                },
            );
            j += 1;
        }

        self.x = if self.x < x { self.x } else { x };
        self.y = if self.y < y { self.y } else { y };
        self.h = new_h;
        self.w = new_w;
        self.overlay = new_overlay;
        self.base = new_base;
        self.doors = new_doors;
        self.templates = new_templates;

        proof {
            assert forall|k: int| 0 <= k < self.doors@.len() implies self.door_inside(
                #[trigger] self.doors@[k],
            ) by {
                assert(old(self).door_inside(old(self).doors@[k]));
            }
            assert forall|k: int| 0 <= k < self.templates@.len() implies self.template_inside(
                #[trigger] self.templates@[k],
            ) by {
                assert(old(self).template_inside(old(self).templates@[k]));
            }
            assert forall|tx: int, ty: int| self.tile(tx, ty) == old(self).tile(tx, ty) by {
                if self.contains(tx, ty) {
                    assert(self.has_cell(tx - self.x, ty - self.y));
                }
            }
            if old(self).doors_unique() {
                assert forall|i: int, j: int| 0 <= i < j < self.doors@.len() implies !(
                self.doors@[i].x == self.doors@[j].x && self.doors@[i].y == self.doors@[j].y) by {
                    assert(old(self).door_inside(old(self).doors@[i]));
                    assert(old(self).door_inside(old(self).doors@[j]));
                    assert(!(old(self).doors@[i].x == old(self).doors@[j].x && old(self).doors@[i].y
                        == old(self).doors@[j].y));
                }
            }
        }
    }

    /// True when no cell of column `c` holds anything.
    pub open spec fn col_empty(&self, c: int) -> bool {
        forall|cy: int| 0 <= cy < self.h ==> #[trigger] self.cell(c, cy) == outside_cell()
    }

    /// True when no cell of row `r` holds anything.
    pub open spec fn row_empty(&self, r: int) -> bool {
        forall|cx: int| 0 <= cx < self.w ==> #[trigger] self.cell(cx, r) == outside_cell()
    }

    /// Number of empty columns in a row from column `from` rightwards, never
    /// counting the last column.
    pub open spec fn empty_cols_from(&self, from: int) -> int
        decreases self.w - from,
    {
        if 0 <= from < self.w - 1 && self.col_empty(from) {
            1 + self.empty_cols_from(from + 1)
        } else {
            0
        }
    }

    /// Number of empty columns in a row from column `from` leftwards, never
    /// reaching column `stop`.
    pub open spec fn empty_cols_back(&self, from: int, stop: int) -> int
        decreases from - stop,
    {
        if stop < from < self.w && self.col_empty(from) {
            1 + self.empty_cols_back(from - 1, stop)
        } else {
            0
        }
    }

    /// Number of empty rows in a row from row `from` downwards, never
    /// counting the last row.
    pub open spec fn empty_rows_from(&self, from: int) -> int
        decreases self.h - from,
    {
        if 0 <= from < self.h - 1 && self.row_empty(from) {
            1 + self.empty_rows_from(from + 1)
        } else {
            0
        }
    }

    /// Number of empty rows in a row from row `from` upwards, never reaching
    /// row `stop`.
    pub open spec fn empty_rows_back(&self, from: int, stop: int) -> int
        decreases from - stop,
    {
        if stop < from < self.h && self.row_empty(from) {
            1 + self.empty_rows_back(from - 1, stop)
        } else {
            0
        }
    }

    /// Columns that a shrink removes on the left.
    pub open spec fn trim_left(&self) -> int {
        self.empty_cols_from(0)
    }

    /// Columns that a shrink removes on the right, after the left ones.
    pub open spec fn trim_right(&self) -> int {
        self.empty_cols_back(self.w - 1, self.trim_left())
    }

    /// Rows that a shrink removes at the top.
    pub open spec fn trim_top(&self) -> int {
        self.empty_rows_from(0)
    }

    /// Rows that a shrink removes at the bottom, after the top ones.
    pub open spec fn trim_bottom(&self) -> int {
        self.empty_rows_back(self.h - 1, self.trim_top())
    }

    /// How `after` relates to `self` when `after` is `self` with its empty
    /// borders trimmed: the kept cells keep their world position, and doors
    /// and spawn points move with them and are pulled into the new rectangle.
    pub open spec fn shrunk(&self, after: &Room) -> bool {
        let left = self.trim_left();
        let top = self.trim_top();
        &&& after.wf()
        &&& after.x == self.x + left
        &&& after.y == self.y + top
        &&& after.w == self.w - left - self.trim_right()
        &&& after.h == self.h - top - self.trim_bottom()
        &&& forall|cx: int, cy: int| #[trigger]
            after.has_cell(cx, cy) ==> after.cell(cx, cy) == self.cell(cx + left, cy + top)
        &&& after.doors@.len() == self.doors@.len()
        &&& forall|i: int|
            0 <= i < self.doors@.len() ==> #[trigger] after.doors@[i] == (Door {
                x: clamp(self.doors@[i].x - left, 0, after.w - 1) as i32,
                y: clamp(self.doors@[i].y - top, 0, after.h - 1) as i32,
                dir: self.doors@[i].dir,
            })
        &&& after.templates@.len() == self.templates@.len()
        &&& forall|i: int|
            0 <= i < self.templates@.len() ==> #[trigger] after.templates@[i] == (SpawnTemplate {
                x: clamp(self.templates@[i].x - left * 1000, 0, after.w * 1000) as i64,
                y: clamp(self.templates@[i].y - top * 1000, 0, after.h * 1000) as i64,
                kind: self.templates@[i].kind,
            })
    }

    proof fn lemma_empty_cols_from_bounds(&self, from: int)
        requires
            0 <= from < self.w,
        ensures
            0 <= self.empty_cols_from(from) <= self.w - 1 - from,
            forall|c: int|
                from <= c < from + self.empty_cols_from(from) ==> #[trigger] self.col_empty(c),
        decreases self.w - from,
    {
        if from < self.w - 1 && self.col_empty(from) {
            self.lemma_empty_cols_from_bounds(from + 1);
        }
    }

    proof fn lemma_empty_cols_back_bounds(&self, from: int, stop: int)
        requires
            0 <= stop <= from < self.w,
        ensures
            0 <= self.empty_cols_back(from, stop) <= from - stop,
            forall|c: int|
                from - self.empty_cols_back(from, stop) < c <= from ==> #[trigger] self.col_empty(
                    c,
                ),
        decreases from - stop,
    {
        if stop < from && self.col_empty(from) {
            self.lemma_empty_cols_back_bounds(from - 1, stop);
        }
    }

    proof fn lemma_empty_rows_from_bounds(&self, from: int)
        requires
            0 <= from < self.h,
        ensures
            0 <= self.empty_rows_from(from) <= self.h - 1 - from,
            forall|r: int|
                from <= r < from + self.empty_rows_from(from) ==> #[trigger] self.row_empty(r),
        decreases self.h - from,
    {
        if from < self.h - 1 && self.row_empty(from) {
            self.lemma_empty_rows_from_bounds(from + 1);
        }
    }

    proof fn lemma_empty_rows_back_bounds(&self, from: int, stop: int)
        requires
            0 <= stop <= from < self.h,
        ensures
            0 <= self.empty_rows_back(from, stop) <= from - stop,
            forall|r: int|
                from - self.empty_rows_back(from, stop) < r <= from ==> #[trigger] self.row_empty(
                    r,
                ),
        decreases from - stop,
    {
        if stop < from && self.row_empty(from) {
            self.lemma_empty_rows_back_bounds(from - 1, stop);
        }
    }

    /// Tells whether a column of the room holds nothing.
    pub fn column_is_empty(&self, c: u32) -> (r: bool)
        requires
            self.wf(),
            c < self.w,
        ensures
            r == self.col_empty(c as int),
    {
        let mut cy: u32 = 0;
        while cy < self.h
            invariant
                self.wf(),
                c < self.w,
                cy <= self.h,
                forall|k: int| 0 <= k < cy ==> #[trigger] self.cell(c as int, k) == outside_cell(),
            decreases self.h - cy,
        {
            let (b, o) = self.get_absolute(c, cy);
            if b != BaseTile::NotPartOfRoom || o != OverlayTile::Nothing {
                assert(self.cell(c as int, cy as int) != outside_cell());
                return false;
            }
            cy += 1;
        }
        true
    }

    /// Tells whether a row of the room holds nothing.
    pub fn row_is_empty(&self, r: u32) -> (res: bool)
        requires
            self.wf(),
            r < self.h,
        ensures
            res == self.row_empty(r as int),
    {
        let mut cx: u32 = 0;
        while cx < self.w
            invariant
                self.wf(),
                r < self.h,
                cx <= self.w,
                forall|k: int| 0 <= k < cx ==> #[trigger] self.cell(k, r as int) == outside_cell(),
            decreases self.w - cx,
        {
            let (b, o) = self.get_absolute(cx, r);
            if b != BaseTile::NotPartOfRoom || o != OverlayTile::Nothing {
                assert(self.cell(cx as int, r as int) != outside_cell());
                return false;
            }
            cx += 1;
        }
        true
    }

    /// Trims the room's empty borders: on each side, strips that hold nothing
    /// are removed until one with content is met, and at least one column
    /// and one row stay. Tiles keep their world position.
    pub fn resize_shrink(&mut self)
        requires
            old(self).wf(),
        ensures
            old(self).shrunk(final(self)),
            forall|tx: int, ty: int| final(self).tile(tx, ty) == old(self).tile(tx, ty),
    {
        let mut left: u32 = 0;
        let mut done = false;
        while !done
            invariant
                self.wf(),
                left <= self.w - 1,
                self.trim_left() == left + self.empty_cols_from(left as int),
                done ==> self.empty_cols_from(left as int) == 0,
            decreases (self.w - left) + (if done { 0int } else { 1int }),
        {
            if left < self.w - 1 && self.column_is_empty(left) {
                left += 1;
            } else {
                done = true;
            }
        }
        let mut right: u32 = 0;
        done = false;
        while !done
            invariant
                self.wf(),
                left <= self.w - 1,
                right <= self.w - 1 - left,
                left == self.trim_left(),
                self.trim_right() == right + self.empty_cols_back(
                    self.w - 1 - right,
                    left as int,
                ),
                done ==> self.empty_cols_back(self.w - 1 - right, left as int) == 0,
            decreases (self.w - right) + (if done { 0int } else { 1int }),
        {
            if right < self.w - 1 - left && self.column_is_empty(self.w - 1 - right) {
                right += 1;
            } else {
                done = true;
            }
        }
        let mut top: u32 = 0;
        done = false;
        while !done
            invariant
                self.wf(),
                top <= self.h - 1,
                self.trim_top() == top + self.empty_rows_from(top as int),
                done ==> self.empty_rows_from(top as int) == 0,
            decreases (self.h - top) + (if done { 0int } else { 1int }),
        {
            if top < self.h - 1 && self.row_is_empty(top) {
                top += 1;
            } else {
                done = true;
            }
        }
        let mut bottom: u32 = 0;
        done = false;
        while !done
            invariant
                self.wf(),
                top <= self.h - 1,
                bottom <= self.h - 1 - top,
                top == self.trim_top(),
                self.trim_bottom() == bottom + self.empty_rows_back(
                    self.h - 1 - bottom,
                    top as int,
                ),
                done ==> self.empty_rows_back(self.h - 1 - bottom, top as int) == 0,
            decreases (self.h - bottom) + (if done { 0int } else { 1int }),
        {
            if bottom < self.h - 1 - top && self.row_is_empty(self.h - 1 - bottom) {
                bottom += 1;
            } else {
                done = true;
            }
        }

        let new_w: u32 = self.w - left - right;
        let new_h: u32 = self.h - top - bottom;
        proof {
            assert(new_w * new_h <= self.w * self.h) by (nonlinear_arith)
                requires
                    0 <= new_w <= self.w,
                    0 <= new_h <= self.h,
            ;
        }
        let new_size: u32 = new_w * new_h;
        let mut new_base = vec![BaseTile::NotPartOfRoom; new_size as usize];
        let mut new_overlay = vec![OverlayTile::Nothing; new_size as usize];
        proof {
            assert forall|cx: int, cy: int| 0 <= cx < new_w && 0 <= cy < new_h implies (
                #[trigger] new_base@[cell_index(new_w as int, cx, cy)],
                new_overlay@[cell_index(new_w as int, cx, cy)],
            ) == outside_cell() by {
                lemma_cell_index_in_range(new_w as int, new_h as int, cx, cy);
            }
        }
        let mut yy: u32 = 0;
        while yy < new_h
            invariant
                self.wf(),
                yy <= new_h,
                new_w == self.w - left - right,
                new_h == self.h - top - bottom,
                1 <= new_w,
                new_w * new_h <= u32::MAX,
                new_base@.len() == new_w * new_h,
                new_overlay@.len() == new_w * new_h,
                forall|cx: int, cy: int|
                    0 <= cx < new_w && 0 <= cy < new_h ==> (
                        #[trigger] new_base@[cell_index(new_w as int, cx, cy)],
                        new_overlay@[cell_index(new_w as int, cx, cy)],
                    ) == (if cy < yy {
                        self.cell(cx + left, cy + top)
                    } else {
                        outside_cell()
                    }),
            decreases new_h - yy,
        {
            let mut xx: u32 = 0;
            while xx < new_w
                invariant
                    self.wf(),
                    yy < new_h,
                    xx <= new_w,
                    new_w == self.w - left - right,
                    new_h == self.h - top - bottom,
                    new_w * new_h <= u32::MAX,
                    new_base@.len() == new_w * new_h,
                    new_overlay@.len() == new_w * new_h,
                    forall|cx: int, cy: int|
                        0 <= cx < new_w && 0 <= cy < new_h ==> (
                            #[trigger] new_base@[cell_index(new_w as int, cx, cy)],
                            new_overlay@[cell_index(new_w as int, cx, cy)],
                        ) == (if cy < yy || (cy == yy && cx < xx) {
                            self.cell(cx + left, cy + top)
                        } else {
                            outside_cell()
                        }),
                decreases new_w - xx,
            {
                let from = index_of(self.w, self.h, xx + left, yy + top);
                let to = index_of(new_w, new_h, xx, yy);
                new_base.set(to, self.base[from]);
                new_overlay.set(to, self.overlay[from]);
                proof {
                    assert forall|cx: int, cy: int| 0 <= cx < new_w && 0 <= cy < new_h implies (
                        #[trigger] new_base@[cell_index(new_w as int, cx, cy)],
                        new_overlay@[cell_index(new_w as int, cx, cy)],
                    ) == (if cy < yy || (cy == yy && cx < xx + 1) {
                        self.cell(cx + left, cy + top)
                    } else {
                        outside_cell()
                    }) by {
                        lemma_cell_index_in_range(new_w as int, new_h as int, cx, cy);
                        if cell_index(new_w as int, cx, cy) == to {
                            lemma_cell_index_injective(new_w as int, cx, cy, xx as int, yy as int);
                        }
                    }
                }
                xx += 1;
            }
            yy += 1;
        }

        let mut new_doors: Vec<Door> = Vec::new();
        let mut i: usize = 0;
        while i < self.doors.len()
            invariant
                self.wf(),
                i <= self.doors@.len(),
                new_doors@.len() == i,
                1 <= new_w <= self.w,
                1 <= new_h <= self.h,
                forall|k: int|
                    0 <= k < i ==> #[trigger] new_doors@[k] == (Door {
                        x: clamp(self.doors@[k].x - left, 0, new_w - 1) as i32,
                        y: clamp(self.doors@[k].y - top, 0, new_h - 1) as i32,
                        dir: self.doors@[k].dir,
                    }),
            decreases self.doors@.len() - i,
        {
            let d = self.doors[i];
            assert(self.door_inside(d));
            let dx = clamp_to(d.x as i64 - left as i64, 0, new_w as i64 - 1);
            let dy = clamp_to(d.y as i64 - top as i64, 0, new_h as i64 - 1);
            new_doors.push(Door { x: dx as i32, y: dy as i32, dir: d.dir });
            i += 1;
        }

        let mut new_templates: Vec<SpawnTemplate> = Vec::new();
        let mut j: usize = 0;
        while j < self.templates.len()
            invariant
                self.wf(),
                j <= self.templates@.len(),
                new_templates@.len() == j,
                1 <= new_w <= self.w,
                1 <= new_h <= self.h,
                forall|k: int|
                    0 <= k < j ==> #[trigger] new_templates@[k] == (SpawnTemplate {
                        x: clamp(self.templates@[k].x - left * 1000, 0, new_w * 1000) as i64,
                        y: clamp(self.templates@[k].y - top * 1000, 0, new_h * 1000) as i64,
                        kind: self.templates@[k].kind,
                    }),
            decreases self.templates@.len() - j,
        {
            let t = self.templates[j];
            assert(self.template_inside(t));
            let tx = clamp_to(t.x - left as i64 * 1000, 0, new_w as i64 * 1000);
            let ty = clamp_to(t.y - top as i64 * 1000, 0, new_h as i64 * 1000);
            new_templates.push(SpawnTemplate { x: tx, y: ty, kind: t.kind });
            j += 1;
        }

        proof {
            self.lemma_empty_cols_from_bounds(0);
            self.lemma_empty_cols_back_bounds(self.w - 1, left as int);
            self.lemma_empty_rows_from_bounds(0);
            self.lemma_empty_rows_back_bounds(self.h - 1, top as int);
        }

        self.x = (self.x as i64 + left as i64) as i32;
        self.y = (self.y as i64 + top as i64) as i32;
        self.h = new_h;
        self.w = new_w;
        self.overlay = new_overlay;
        self.base = new_base;
        self.doors = new_doors;
        self.templates = new_templates;

        proof {
            assert forall|tx: int, ty: int| self.tile(tx, ty) == old(self).tile(tx, ty) by {
                if self.contains(tx, ty) {
                    assert(self.has_cell(tx - self.x, ty - self.y));
                } else if old(self).contains(tx, ty) {
                    let cx = tx - old(self).x;
                    let cy = ty - old(self).y;
                    if cx < left || cx >= old(self).w - right {
                        assert(old(self).col_empty(cx));
                    } else {
                        assert(old(self).row_empty(cy));
                    }
                }
            }
        }
    }

    /// True when each of the four border strips of the room holds something,
    /// so that a shrink would remove nothing.
    pub open spec fn is_tight(&self) -> bool {
        &&& !self.col_empty(0)
        &&& !self.col_empty(self.w - 1)
        &&& !self.row_empty(0)
        &&& !self.row_empty(self.h - 1)
    }

    proof fn lemma_empty_cols_from_count(&self, from: int, n: int)
        requires
            0 <= from <= n <= self.w - 1,
            forall|c: int| from <= c < n ==> #[trigger] self.col_empty(c),
            n < self.w - 1 ==> !self.col_empty(n),
        ensures
            self.empty_cols_from(from) == n - from,
        decreases n - from,
    {
        if from < n {
            assert(self.col_empty(from));
            self.lemma_empty_cols_from_count(from + 1, n);
        }
    }

    proof fn lemma_empty_cols_back_count(&self, from: int, stop: int, n: int)
        requires
            0 <= stop <= n <= from < self.w,
            forall|c: int| n < c <= from ==> #[trigger] self.col_empty(c),
            stop < n ==> !self.col_empty(n),
        ensures
            self.empty_cols_back(from, stop) == from - n,
        decreases from - n,
    {
        if n < from {
            assert(self.col_empty(from));
            self.lemma_empty_cols_back_count(from - 1, stop, n);
        }
    }

    proof fn lemma_empty_rows_from_count(&self, from: int, n: int)
        requires
            0 <= from <= n <= self.h - 1,
            forall|r: int| from <= r < n ==> #[trigger] self.row_empty(r),
            n < self.h - 1 ==> !self.row_empty(n),
        ensures
            self.empty_rows_from(from) == n - from,
        decreases n - from,
    {
        if from < n {
            assert(self.row_empty(from));
            self.lemma_empty_rows_from_count(from + 1, n);
        }
    }

    proof fn lemma_empty_rows_back_count(&self, from: int, stop: int, n: int)
        requires
            0 <= stop <= n <= from < self.h,
            forall|r: int| n < r <= from ==> #[trigger] self.row_empty(r),
            stop < n ==> !self.row_empty(n),
        ensures
            self.empty_rows_back(from, stop) == from - n,
        decreases from - n,
    {
        if n < from {
            assert(self.row_empty(from));
            self.lemma_empty_rows_back_count(from - 1, stop, n);
        }
    }

    /// Growing a room whose four borders all hold something, and then
    /// shrinking it, gives back the room: the same anchor and size, the same
    /// tiles, doors and spawn points.
    pub proof fn lemma_grow_then_shrink_restores(&self, grown: &Room, back: &Room, x: int, y: int)
        requires
            self.wf(),
            self.is_tight(),
            self.grown(grown, x, y),
            grown.shrunk(back),
        ensures
            back.x == self.x,
            back.y == self.y,
            back.w == self.w,
            back.h == self.h,
            back.base@ == self.base@,
            back.overlay@ == self.overlay@,
            back.doors@ == self.doors@,
            back.templates@ == self.templates@,
    {
        let left = self.grow_left(x);
        let top = self.grow_top(y);
        let right = self.grow_right(x);
        let bottom = self.grow_bottom(y);
        let w = self.w as int;
        let h = self.h as int;
        assert forall|c: int| 0 <= c < left implies #[trigger] grown.col_empty(c) by {
            assert forall|cy: int| 0 <= cy < grown.h implies #[trigger] grown.cell(c, cy)
                == outside_cell() by {
                assert(grown.has_cell(c, cy));
            }
        }
        assert forall|c: int| left + w <= c < grown.w implies #[trigger] grown.col_empty(c) by {
            assert forall|cy: int| 0 <= cy < grown.h implies #[trigger] grown.cell(c, cy)
                == outside_cell() by {
                assert(grown.has_cell(c, cy));
            }
        }
        assert forall|r: int| 0 <= r < top implies #[trigger] grown.row_empty(r) by {
            assert forall|cx: int| 0 <= cx < grown.w implies #[trigger] grown.cell(cx, r)
                == outside_cell() by {
                assert(grown.has_cell(cx, r));
            }
        }
        assert forall|r: int| top + h <= r < grown.h implies #[trigger] grown.row_empty(r) by {
            assert forall|cx: int| 0 <= cx < grown.w implies #[trigger] grown.cell(cx, r)
                == outside_cell() by {
                assert(grown.has_cell(cx, r));
            }
        }
        assert(!grown.col_empty(left)) by {
            let cy = choose|cy: int| 0 <= cy < self.h && #[trigger] self.cell(0, cy) != outside_cell();
            assert(grown.has_cell(left, cy + top));
            assert(grown.cell(left, cy + top) == self.cell(0, cy));
        }
        assert(!grown.col_empty(left + w - 1)) by {
            let cy = choose|cy: int|
                0 <= cy < self.h && #[trigger] self.cell(w - 1, cy) != outside_cell();
            assert(grown.has_cell(left + w - 1, cy + top));
            assert(grown.cell(left + w - 1, cy + top) == self.cell(w - 1, cy));
        }
        assert(!grown.row_empty(top)) by {
            let cx = choose|cx: int| 0 <= cx < self.w && #[trigger] self.cell(cx, 0) != outside_cell();
            assert(grown.has_cell(cx + left, top));
            assert(grown.cell(cx + left, top) == self.cell(cx, 0));
        }
        assert(!grown.row_empty(top + h - 1)) by {
            let cx = choose|cx: int|
                0 <= cx < self.w && #[trigger] self.cell(cx, h - 1) != outside_cell();
            assert(grown.has_cell(cx + left, top + h - 1));
            assert(grown.cell(cx + left, top + h - 1) == self.cell(cx, h - 1));
        }
        grown.lemma_empty_cols_from_count(0, left);
        grown.lemma_empty_cols_back_count(grown.w - 1, left, left + w - 1);
        grown.lemma_empty_rows_from_count(0, top);
        grown.lemma_empty_rows_back_count(grown.h - 1, top, top + h - 1);
        assert(grown.trim_left() == left);
        assert(grown.trim_right() == right);
        assert(grown.trim_top() == top);
        assert(grown.trim_bottom() == bottom);
        assert forall|i: int| 0 <= i < self.base@.len() implies back.base@[i] == self.base@[i]
            && back.overlay@[i] == self.overlay@[i] by {
            lemma_cell_of_index(w, h, i);
            let cx = i % w;
            let cy = i / w;
            assert(back.has_cell(cx, cy));
            assert(grown.has_cell(cx + left, cy + top));
            assert(back.cell(cx, cy) == self.cell(cx, cy));
        }
        assert(back.base@ =~= self.base@);
        assert(back.overlay@ =~= self.overlay@);
        assert forall|i: int| 0 <= i < self.doors@.len() implies back.doors@[i]
            == self.doors@[i] by {
            assert(self.door_inside(self.doors@[i]));
            assert(grown.doors@[i].x == self.doors@[i].x + left);
        }
        assert(back.doors@ =~= self.doors@);
        assert forall|i: int| 0 <= i < self.templates@.len() implies back.templates@[i]
            == self.templates@[i] by {
            assert(self.template_inside(self.templates@[i]));
            assert(grown.templates@[i].x == self.templates@[i].x + left * 1000);
        }
        assert(back.templates@ =~= self.templates@);
    }

    /// True when every door of the room stands on a cell that a shrink keeps.
    pub open spec fn doors_in_kept_part(&self) -> bool {
        forall|i: int|
            0 <= i < self.doors@.len() ==> self.trim_left() <= (#[trigger] self.doors@[i]).x < self.w
                - self.trim_right() && self.trim_top() <= self.doors@[i].y < self.h
                - self.trim_bottom()
    }

    /// A shrink keeps the doors on distinct cells if they were on distinct
    /// cells, all of them in the part of the room that the shrink keeps.
    pub proof fn lemma_shrink_keeps_doors_unique(&self, after: &Room)
        requires
            self.wf(),
            self.shrunk(after),
            self.doors_unique(),
            self.doors_in_kept_part(),
        ensures
            after.doors_unique(),
    {
        assert forall|i: int, j: int| 0 <= i < j < after.doors@.len() implies !(after.doors@[i].x
            == after.doors@[j].x && after.doors@[i].y == after.doors@[j].y) by {
            assert(!(self.doors@[i].x == self.doors@[j].x && self.doors@[i].y == self.doors@[j].y));
            assert(after.doors@[i].x == self.doors@[i].x - self.trim_left());
            assert(after.doors@[j].x == self.doors@[j].x - self.trim_left());
            assert(after.doors@[i].y == self.doors@[i].y - self.trim_top());
            assert(after.doors@[j].y == self.doors@[j].y - self.trim_top());
        }
    }

    /// After a grow and after a shrink, every door of the room stands on one
    /// of the room's cells.
    pub proof fn lemma_doors_stay_inside(&self, after: &Room, x: int, y: int, i: int)
        requires
            self.grown(after, x, y) || self.shrunk(after),
            0 <= i < after.doors@.len(),
        ensures
            0 <= after.doors@[i].x < after.w,
            0 <= after.doors@[i].y < after.h,
    {
        assert(after.door_inside(after.doors@[i]));
    }
}

} // verus!
