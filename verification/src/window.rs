//! Back-buffered windows and their compositing.
//!
//! A [`WindowData`] is the back buffer of one window: its bounds in the
//! coordinates of its parent, a grid of cells of the same size, and the part
//! of the grid that was written since it was last composited. A
//! [`WindowsHost`] holds the windows of one screen as a forest: the
//! top-level windows from back to front, each with its subwindows, and the
//! windows that hang nowhere. A [`Window`] is the handle by which a window
//! of a host is drawn to, moved, attached and detached.
//!
//! Compositing is [`WindowsHost::frame`], which says which cells go to the
//! screen, window by window, and [`WindowsHost::scr`], which hands them to
//! a driver. What is to be redrawn is kept as one rectangle of the screen
//! and one of each window; the laws at the end of the module say that what
//! was written is drawn, and that what is drawn later wins.

use crate::geometry::{
    area_everything, area_fits, area_has, area_include, area_inters, area_join, area_offset,
    area_tlhw, area_union, area_within, Area, Rect,
};
use crate::scr::{Attr, Color, Scr, Texel};
use vstd::prelude::*;

verus! {

/// The cell that fills the parts of a back buffer that nobody has drawn
/// yet: a bold red `X` on the default background.
pub open spec fn blank() -> Texel {
    Texel { ch: 'X', attr: Attr { bits: Attr::BOLD }, fg: Color::Red, bg: None }
}

/// The cell that fills the parts of a back buffer that nobody has drawn yet.
pub fn blank_texel() -> (t: Texel)
    ensures
        t == blank(),
{
    Texel { ch: 'X', attr: Attr::bold(), fg: Color::Red, bg: None }
}

/// One cell to write to the screen.
#[derive(Debug, Clone, Copy, PartialEq, Eq)]
pub struct CellWrite {
    pub y: isize,
    pub x: isize,
    pub texel: Texel,
}

/// Where a window hangs in the tree of its host.
#[derive(Debug, Clone, Copy, PartialEq, Eq)]
pub enum Attach {
    /// In no list: the window is not drawn.
    Unattached,
    /// In the host's list of top-level windows.
    Host,
    /// In the list of subwindows of the window with this number.
    Window(usize),
}

/// The grid of a window after its bounds changed to `height` rows of `width`
/// cells: what overlaps the old grid is kept, the rest is blank.
pub open spec fn grid_resized(old: Seq<Seq<Texel>>, height: int, width: int) -> Seq<Seq<Texel>> {
    Seq::new(
        height as nat,
        |y: int|
            Seq::new(
                width as nat,
                |x: int|
                    if y < old.len() && x < old[y].len() {
                        old[y][x]
                    } else {
                        blank()
                    },
            ),
    )
}

/// A row of a grid after its width changed to `width`.
pub open spec fn row_resized(old: Seq<Texel>, width: int) -> Seq<Texel> {
    Seq::new(
        width as nat,
        |x: int|
            if x < old.len() {
                old[x]
            } else {
                blank()
            },
    )
}

/// The writes for `n` cells of row `y`, from column `left` on. The grid's
/// first cell is at `(y0, x0)` on the screen.
pub open spec fn scan_row(grid: Seq<Seq<Texel>>, y0: int, x0: int, y: int, left: int, n: int) -> Seq<
    CellWrite,
> {
    Seq::new(
        n as nat,
        |j: int| CellWrite { y: y as isize, x: (left + j) as isize, texel: grid[y - y0][left + j - x0] },
    )
}

/// The writes for the first `n` rows of the area `v`, row by row.
pub open spec fn scan_rows(grid: Seq<Seq<Texel>>, y0: int, x0: int, v: Area, n: int) -> Seq<
    CellWrite,
>
    decreases n,
{
    if n <= 0 {
        Seq::empty()
    } else {
        scan_rows(grid, y0, x0, v, n - 1) + scan_row(grid, y0, x0, v.top + n - 1, v.left, v.width)
    }
}

/// The writes that put the part `region` of a grid on the screen, in
/// row-major order.
pub open spec fn scan_region(grid: Seq<Seq<Texel>>, y0: int, x0: int, region: Option<Area>) -> Seq<
    CellWrite,
> {
    match region {
        None => Seq::empty(),
        Some(v) => scan_rows(grid, y0, x0, v, v.height),
    }
}

/// What compositing one window yields.
pub struct FrameModel {
    /// The part of the screen that the window and its subwindows may draw to.
    pub viewport: Option<Area>,
    /// The part of the screen that is to be redrawn, grown by what the
    /// window has invalid in its viewport.
    pub invalid: Option<Area>,
    /// The cells to write, in order.
    pub cells: Seq<CellWrite>,
}

/// Compositing a window with the given bounds, grid and invalid part into
/// the part `crop` of the screen, with the origin of the window's
/// coordinates at `(origin_y, origin_x)`, while `invalid` of the screen is
/// to be redrawn.
pub open spec fn frame_model(
    bounds: Option<Area>,
    grid: Seq<Seq<Texel>>,
    local_invalid: Option<Area>,
    crop: Option<Area>,
    origin_y: int,
    origin_x: int,
    invalid: Option<Area>,
) -> FrameModel {
    match bounds {
        None => FrameModel { viewport: None, invalid, cells: Seq::empty() },
        Some(b) => {
            let viewport = area_inters(area_offset(bounds, origin_y, origin_x), crop);
            let y0 = origin_y + b.top;
            let x0 = origin_x + b.left;
            let grown = area_join(invalid, area_inters(area_offset(local_invalid, y0, x0), viewport));
            FrameModel {
                viewport,
                invalid: grown,
                cells: scan_region(grid, y0, x0, area_inters(viewport, grown)),
            }
        },
    }
}

/// The back buffer of a window and its place in the window tree.
pub struct WindowData {
    bounds: Rect,
    content: Vec<Vec<Texel>>,
    invalid: Rect,
    parent: Attach,
    subwindows: Vec<usize>,
}

fn resize_row(row: &mut Vec<Texel>, width: usize)
    ensures
        final(row)@ == row_resized(old(row)@, width as int),
{
    let ghost before = row@;
    if row.len() > width {
        row.truncate(width);
    }
    while row.len() < width
        invariant
            row.len() <= width,
            before.len() <= row.len() || row.len() == width,
            row@ =~= row_resized(before, row.len() as int),
        decreases width - row.len(),
    {
        row.push(blank_texel());
    }
    assert(row@ =~= row_resized(before, width as int));
}

impl WindowData {
    /// Bounds of the window in the coordinates of its parent.
    pub closed spec fn bounds_model(&self) -> Option<Area> {
        self.bounds@
    }

    /// The grid of cells, row by row.
    pub closed spec fn grid(&self) -> Seq<Seq<Texel>> {
        Seq::new(self.content@.len(), |y: int| self.content@[y]@)
    }

    /// The part of the grid written since the window was last composited,
    /// in the window's own coordinates.
    pub closed spec fn invalid_model(&self) -> Option<Area> {
        self.invalid@
    }

    /// Where the window hangs.
    pub closed spec fn attach(&self) -> Attach {
        self.parent
    }

    /// The subwindows by number, from back to front: the first is drawn
    /// first, and what is drawn later covers it.
    pub closed spec fn children(&self) -> Seq<usize> {
        self.subwindows@
    }

    /// The window's own area: its bounds moved to the origin.
    pub open spec fn area_model(&self) -> Option<Area> {
        match self.bounds_model() {
            None => None,
            Some(b) => Some(Area { top: 0, left: 0, height: b.height, width: b.width }),
        }
    }

    /// The grid has the size of the bounds, and nothing outside the
    /// window's area is invalid.
    pub closed spec fn wf(&self) -> bool {
        &&& area_fits(self.bounds@)
        &&& area_fits(self.invalid@)
        &&& area_within(self.invalid@, self.area_model())
        &&& match self.bounds@ {
            None => self.content@.len() == 0,
            Some(b) => {
                &&& self.content@.len() == b.height
                &&& forall|y: int| 0 <= y < b.height ==> (#[trigger] self.content@[y])@.len() == b.width
            },
        }
    }

    /// What well-formedness says in terms of the model.
    pub proof fn lemma_wf(&self)
        requires
            self.wf(),
        ensures
            area_fits(self.bounds_model()),
            area_fits(self.invalid_model()),
            area_within(self.invalid_model(), self.area_model()),
            match self.bounds_model() {
                None => self.grid().len() == 0,
                Some(b) => {
                    &&& self.grid().len() == b.height
                    &&& forall|y: int| 0 <= y < b.height ==> (#[trigger] self.grid()[y]).len() == b.width
                },
            },
    {
    }

    /// A window with empty bounds that hangs nowhere.
    pub fn new() -> (w: WindowData)
        ensures
            w.wf(),
            w.bounds_model() is None,
            w.invalid_model() is None,
            w.grid() == Seq::<Seq<Texel>>::empty(),
            w.attach() == Attach::Unattached,
            w.children() == Seq::<usize>::empty(),
    {
        let w = WindowData {
            bounds: Rect::empty(),
            content: Vec::new(),
            invalid: Rect::empty(),
            parent: Attach::Unattached,
            subwindows: Vec::new(),
        };
        assert(w.grid() =~= Seq::<Seq<Texel>>::empty());
        w
    }

    /// The bounds of the window.
    pub fn bounds(&self) -> (r: Rect)
        ensures
            r@ == self.bounds_model(),
    {
        self.bounds
    }

    /// The invalid part of the window.
    pub fn invalid(&self) -> (r: Rect)
        ensures
            r@ == self.invalid_model(),
    {
        self.invalid
    }

    /// The window's own area.
    pub fn area(&self) -> (r: Rect)
        ensures
            r@ == self.area_model(),
    {
        proof {
            use_type_invariant(&self.bounds);
        }
        let (height, width) = self.bounds.size();
        Rect::tlhw(0, 0, height, width)
    }

    /// The cell at row `y` and column `x` of the grid.
    pub fn cell(&self, y: isize, x: isize) -> (t: Texel)
        requires
            self.wf(),
            area_has(self.area_model(), y as int, x as int),
        ensures
            t == self.grid()[y as int][x as int],
    {
        self.content[y as usize][x as usize]
    }

    /// Changes the bounds and returns the former ones. The grid is resized
    /// with them: what overlaps is kept, what is new is blank. What was
    /// invalid stays so where it still lies in the window.
    pub fn set_bounds(&mut self, bounds: Rect) -> (former: Rect)
        requires
            old(self).wf(),
        ensures
            final(self).wf(),
            former@ == old(self).bounds_model(),
            final(self).bounds_model() == bounds@,
            match bounds@ {
                None => final(self).grid() == Seq::<Seq<Texel>>::empty(),
                Some(b) => final(self).grid() == grid_resized(old(self).grid(), b.height, b.width),
            },
            final(self).invalid_model() == area_inters(
                old(self).invalid_model(),
                final(self).area_model(),
            ),
            final(self).attach() == old(self).attach(),
            final(self).children() == old(self).children(),
    {
        proof {
            use_type_invariant(&bounds);
        }
        let ghost before = self.grid();
        let (height, width) = bounds.size();
        let rows = height as usize;
        let cols = width as usize;
        if self.content.len() > rows {
            self.content.truncate(rows);
        }
        let kept = self.content.len();
        let mut y: usize = 0;
        while y < kept
            invariant
                kept == self.content.len(),
                kept <= rows,
                kept <= before.len(),
                y <= kept,
                forall|i: int| 0 <= i < y ==> (#[trigger] self.content@[i])@ == row_resized(before[i], cols as int),
                forall|i: int| y <= i < kept ==> (#[trigger] self.content@[i])@ == before[i],
                self.bounds == old(self).bounds,
                self.invalid == old(self).invalid,
                self.parent == old(self).parent,
                self.subwindows == old(self).subwindows,
            decreases kept - y,
        {
            resize_row(&mut self.content[y], cols);
            y = y + 1;
        }
        while self.content.len() < rows
            invariant
                kept <= self.content.len() <= rows,
                kept <= before.len(),
                forall|i: int|
                    0 <= i < kept ==> (#[trigger] self.content@[i])@ == row_resized(
                        before[i],
                        cols as int,
                    ),
                forall|i: int|
                    kept <= i < self.content.len() ==> (#[trigger] self.content@[i])@ == row_resized(
                        Seq::empty(),
                        cols as int,
                    ),
                kept < rows ==> kept == before.len(),
                self.bounds == old(self).bounds,
                self.invalid == old(self).invalid,
                self.parent == old(self).parent,
                self.subwindows == old(self).subwindows,
            decreases rows - self.content.len(),
        {
            let mut row: Vec<Texel> = Vec::new();
            resize_row(&mut row, cols);
            self.content.push(row);
        }
        let area = Rect::tlhw(0, 0, height, width);
        self.invalid = self.invalid.inters_rect(&area);
        let former = self.bounds;
        self.bounds = bounds;
        proof {
            match bounds@ {
                None => {
                    assert(self.grid() =~= Seq::<Seq<Texel>>::empty());
                },
                Some(b) => {
                    let want = grid_resized(before, b.height, b.width);
                    assert(self.grid().len() == want.len());
                    assert forall|i: int| 0 <= i < want.len() implies self.grid()[i] == want[i] by {
                        assert(self.grid()[i] == self.content@[i]@);
                        if i < kept {
                            assert(row_resized(before[i], cols as int) =~= want[i]);
                        } else {
                            assert(row_resized(Seq::empty(), cols as int) =~= want[i]);
                        }
                    }
                    assert(self.grid() =~= want);
                },
            }
        }
        former
    }

    /// Writes a cell of the grid and marks it invalid.
    pub fn out(&mut self, y: isize, x: isize, c: Texel)
        requires
            old(self).wf(),
            area_has(old(self).area_model(), y as int, x as int),
        ensures
            final(self).wf(),
            final(self).bounds_model() == old(self).bounds_model(),
            final(self).invalid_model() == area_include(old(self).invalid_model(), y as int, x as int),
            final(self).grid() == old(self).grid().update(
                y as int,
                old(self).grid()[y as int].update(x as int, c),
            ),
            final(self).attach() == old(self).attach(),
            final(self).children() == old(self).children(),
    {
        self.invalid.include_cell(y, x);
        self.content[y as usize][x as usize] = c;
        assert(self.grid() =~= old(self).grid().update(
            y as int,
            old(self).grid()[y as int].update(x as int, c),
        ));
    }

    /// The writes that put the part `region` of the grid on the screen, in
    /// row-major order; the grid's first cell is at `(y0, x0)`.
    fn scan(&self, y0: i128, x0: i128, region: &Rect) -> (cells: Vec<CellWrite>)
        requires
            self.wf(),
            2 * isize::MIN <= y0 <= 2 * isize::MAX,
            2 * isize::MIN <= x0 <= 2 * isize::MAX,
            area_within(region@, area_offset(self.area_model(), y0 as int, x0 as int)),
        ensures
            cells@ == scan_region(self.grid(), y0 as int, x0 as int, region@),
    {
        proof {
            use_type_invariant(region);
            use_type_invariant(&self.bounds);
        }
        let mut cells: Vec<CellWrite> = Vec::new();
        if let Some((top, left)) = region.loc() {
            let (height, width) = region.size();
            let bottom = top + height;
            let right = left + width;
            let ghost v = region@->0;
            let ghost grid = self.grid();
            let mut y = top;
            while y < bottom
                invariant
                    self.wf(),
                    grid == self.grid(),
                    region@ == Some(v),
                    area_fits(region@),
                    area_within(region@, area_offset(self.area_model(), y0 as int, x0 as int)),
                    top == v.top,
                    left == v.left,
                    bottom == v.top + v.height,
                    right == v.left + v.width,
                    top <= y <= bottom,
                    cells@ == scan_rows(grid, y0 as int, x0 as int, v, y - top),
                decreases bottom - y,
            {
                let ghost done = cells@;
                let mut x = left;
                while x < right
                    invariant
                        self.wf(),
                        grid == self.grid(),
                        region@ == Some(v),
                        area_fits(region@),
                        area_within(region@, area_offset(self.area_model(), y0 as int, x0 as int)),
                        top == v.top,
                        left == v.left,
                        bottom == v.top + v.height,
                        right == v.left + v.width,
                        top <= y < bottom,
                        left <= x <= right,
                        cells@ == done + scan_row(grid, y0 as int, x0 as int, y as int, left as int, x - left),
                    decreases right - x,
                {
                    let row = (y as i128 - y0) as usize;
                    let col = (x as i128 - x0) as usize;
                    let texel = self.content[row][col];
                    cells.push(CellWrite { y, x, texel });
                    assert(cells@ =~= done + scan_row(
                        grid,
                        y0 as int,
                        x0 as int,
                        y as int,
                        left as int,
                        x + 1 - left,
                    ));
                    x = x + 1;
                }
                y = y + 1;
            }
        }
        cells
    }

    /// Composites the window into the part of the screen with the corner
    /// `(parent_y, parent_x)` and the given size, while `global_invalid` of
    /// the screen is to be redrawn. Returns the window's viewport and the
    /// cells to write; the window's invalid part is added to
    /// `global_invalid` and becomes empty.
    pub fn frame(
        &mut self,
        parent_y: isize,
        parent_x: isize,
        crop_height: isize,
        crop_width: isize,
        global_invalid: &mut Rect,
    ) -> (res: (Rect, Vec<CellWrite>))
        requires
            old(self).wf(),
            area_fits(
                area_tlhw(parent_y as int, parent_x as int, crop_height as int, crop_width as int),
            ),
        ensures
            final(self).wf(),
            final(self).bounds_model() == old(self).bounds_model(),
            final(self).grid() == old(self).grid(),
            final(self).attach() == old(self).attach(),
            final(self).children() == old(self).children(),
            final(self).invalid_model() is None,
            ({
                let m = old(self).frame_in(
                    area_tlhw(parent_y as int, parent_x as int, crop_height as int, crop_width as int),
                    parent_y as int,
                    parent_x as int,
                    old(global_invalid)@,
                );
                &&& res.0@ == m.viewport
                &&& res.1@ == m.cells
                &&& final(global_invalid)@ == m.invalid
            }),
    {
        let crop = Rect::tlhw(parent_y, parent_x, crop_height, crop_width);
        let (viewport, cells, _, _) = self.peek(&crop, parent_y as i128, parent_x as i128, global_invalid);
        self.invalid = Rect::empty();
        (viewport, cells)
    }

    /// Compositing the window into `crop`, with the origin of its
    /// coordinates at `(origin_y, origin_x)`.
    pub open spec fn frame_in(
        &self,
        crop: Option<Area>,
        origin_y: int,
        origin_x: int,
        invalid: Option<Area>,
    ) -> FrameModel {
        frame_model(
            self.bounds_model(),
            self.grid(),
            self.invalid_model(),
            crop,
            origin_y,
            origin_x,
            invalid,
        )
    }

    /// What [`WindowData::frame`] computes, with the window left as it is
    /// and with an origin that may lie beyond machine coordinates. Returns
    /// the place of the window's corner on the screen too, where the
    /// viewport is not empty.
    fn peek(&self, crop: &Rect, origin_y: i128, origin_x: i128, global_invalid: &mut Rect) -> (res: (
        Rect,
        Vec<CellWrite>,
        i128,
        i128,
    ))
        requires
            self.wf(),
            2 * isize::MIN <= origin_y <= 2 * isize::MAX,
            2 * isize::MIN <= origin_x <= 2 * isize::MAX,
        ensures
            ({
                let m = self.frame_in(crop@, origin_y as int, origin_x as int, old(global_invalid)@);
                &&& res.0@ == m.viewport
                &&& res.1@ == m.cells
                &&& final(global_invalid)@ == m.invalid
                &&& m.viewport is Some ==> {
                    &&& self.bounds_model() is Some
                    &&& res.2 == origin_y + self.bounds_model()->0.top
                    &&& res.3 == origin_x + self.bounds_model()->0.left
                    &&& 2 * isize::MIN <= res.2 <= isize::MAX
                    &&& 2 * isize::MIN <= res.3 <= isize::MAX
                }
            }),
    {
        proof {
            use_type_invariant(&self.bounds);
            use_type_invariant(crop);
            use_type_invariant(&*global_invalid);
        }
        match self.bounds.loc() {
            None => (Rect::empty(), Vec::new(), 0, 0),
            Some((y, x)) => {
                let viewport = self.bounds.shift_clip(origin_y, origin_x, crop);
                if viewport.loc().is_none() {
                    return (viewport, Vec::new(), 0, 0);
                }
                let y0 = origin_y + y as i128;
                let x0 = origin_x + x as i128;
                let part = self.invalid.shift_clip(y0, x0, &viewport);
                global_invalid.join(&part);
                let region = viewport.inters_rect(global_invalid);
                let cells = self.scan(y0, x0, &region);
                (viewport, cells, y0, x0)
            },
        }
    }

    /// Composites the window as [`WindowData::frame`] does and writes the
    /// cells to the screen in order, up to the first write that fails.
    /// Returns the viewport, and whether every write succeeded.
    pub fn scr<S: Scr>(
        &mut self,
        s: &mut S,
        parent_y: isize,
        parent_x: isize,
        crop_height: isize,
        crop_width: isize,
        global_invalid: &mut Rect,
    ) -> (res: (Rect, bool))
        requires
            old(self).wf(),
            area_fits(
                area_tlhw(parent_y as int, parent_x as int, crop_height as int, crop_width as int),
            ),
        ensures
            final(self).wf(),
            final(self).bounds_model() == old(self).bounds_model(),
            final(self).grid() == old(self).grid(),
            final(self).attach() == old(self).attach(),
            final(self).children() == old(self).children(),
            final(self).invalid_model() is None,
            ({
                let m = old(self).frame_in(
                    area_tlhw(parent_y as int, parent_x as int, crop_height as int, crop_width as int),
                    parent_y as int,
                    parent_x as int,
                    old(global_invalid)@,
                );
                &&& res.0@ == m.viewport
                &&& final(global_invalid)@ == m.invalid
                &&& blitted(old(s), final(s), m.cells, res.1)
            }),
    {
        let (viewport, cells) = self.frame(
            parent_y,
            parent_x,
            crop_height,
            crop_width,
            global_invalid,
        );
        let complete = blit(s, &cells);
        (viewport, complete)
    }
}

/// Whether `after` is what the screen `before` can be after the cells were
/// written to it in order and every write succeeded.
pub open spec fn wrote_all<S: Scr>(before: &S, after: &S, cells: Seq<CellWrite>) -> bool
    decreases cells.len(),
{
    if cells.len() == 0 {
        *after == *before
    } else {
        exists|mid: S|
            wrote_all(before, &mid, cells.drop_last()) && #[trigger] mid.wrote(
                after,
                cells.last().y,
                cells.last().x,
                &cells.last().texel,
                true,
            )
    }
}

/// Whether `after` is what the screen `before` can be after the cells were
/// written to it in order, up to the first write that failed: every write
/// succeeded if `complete`; if not, those before some cell succeeded, the
/// write of that cell failed, and no cell after it was written.
pub open spec fn blitted<S: Scr>(before: &S, after: &S, cells: Seq<CellWrite>, complete: bool) -> bool {
    if complete {
        wrote_all(before, after, cells)
    } else {
        exists|k: int, mid: S|
            0 <= k < cells.len() && #[trigger] wrote_all(before, &mid, cells.subrange(0, k))
                && mid.wrote(after, cells[k].y, cells[k].x, &cells[k].texel, false)
    }
}

/// Whether `after` is what the screen `before` can be after the scans were
/// written to it one after the other, each up to its first write that
/// failed, and `failed` of them were cut short so.
pub open spec fn blitted_all<S: Scr>(before: &S, after: &S, scans: Seq<Seq<CellWrite>>, failed: int) -> bool
    decreases scans.len(),
{
    if scans.len() == 0 {
        *after == *before && failed == 0
    } else {
        exists|mid: S, complete: bool|
            blitted_all(
                before,
                &mid,
                scans.drop_last(),
                if complete {
                    failed
                } else {
                    failed - 1
                },
            ) && #[trigger] blitted(&mid, after, scans.last(), complete)
    }
}

/// Writes the cells to the screen in order, up to the first write that the
/// driver fails. Returns whether every write succeeded.
pub fn blit<S: Scr>(s: &mut S, cells: &Vec<CellWrite>) -> (complete: bool)
    ensures
        cells@.len() == 0 ==> complete,
        blitted(old(s), final(s), cells@, complete),
{
    let mut i: usize = 0;
    proof {
        assert(cells@.subrange(0, 0) =~= Seq::<CellWrite>::empty());
    }
    while i < cells.len()
        invariant
            i <= cells.len(),
            wrote_all(old(s), s, cells@.subrange(0, i as int)),
        decreases cells.len() - i,
    {
        let cell = cells[i];
        let ghost mid = *s;
        match s.out(cell.y, cell.x, &cell.texel) {
            Ok(_) => {
                proof {
                    let part = cells@.subrange(0, i + 1);
                    assert(part.drop_last() =~= cells@.subrange(0, i as int));
                    assert(part.last() == cells@[i as int]);
                    assert(mid.wrote(s, part.last().y, part.last().x, &part.last().texel, true));
                }
            },
            Err(_) => {
                proof {
                    assert(wrote_all(old(s), &mid, cells@.subrange(0, i as int)));
                    assert(mid.wrote(s, cells@[i as int].y, cells@[i as int].x, &cells@[i as int].texel, false));
                }
                return false;
            },
        }
        i = i + 1;
    }
    proof {
        assert(cells@.subrange(0, i as int) =~= cells@);
    }
    true
}

/// Where the origin of a window's coordinates lies on the screen.
#[derive(Debug, Clone, Copy, PartialEq, Eq)]
pub enum Origin {
    /// Nowhere: the window hangs under no host, or under a window with
    /// empty bounds.
    Hidden,
    /// Beyond machine coordinates.
    Beyond,
    /// At this row and column.
    At(isize, isize),
}

/// The invalid part of the screen after the rectangle `r`, given in
/// coordinates with the origin `o`, became invalid too. Where the place of
/// `r` on the screen cannot be held in machine coordinates, the whole
/// screen plane is invalid.
pub open spec fn area_invalidated(invalid: Option<Area>, r: Option<Area>, o: Origin) -> Option<Area> {
    match (o, r) {
        (Origin::Hidden, _) => invalid,
        (_, None) => invalid,
        (Origin::Beyond, Some(_)) => area_everything(),
        (Origin::At(y, x), Some(_)) => if area_fits(area_offset(r, y as int, x as int)) {
            area_join(invalid, area_offset(r, y as int, x as int))
        } else {
            area_everything()
        },
    }
}

fn invalidate(invalid: &mut Rect, r: &Rect, o: Origin)
    ensures
        final(invalid)@ == area_invalidated(old(invalid)@, r@, o),
{
    if r.is_empty() {
        return ;
    }
    match o {
        Origin::Hidden => {},
        Origin::Beyond => {
            *invalid = Rect::everything();
        },
        Origin::At(y, x) => {
            match r.shifted(y, x) {
                Some(moved) => {
                    invalid.join(&moved);
                },
                None => {
                    *invalid = Rect::everything();
                },
            }
        },
    }
}

/// Position of the first occurrence of `id` in the list.
fn position(list: &Vec<usize>, id: usize) -> (r: Option<usize>)
    ensures
        match r {
            Some(k) => k < list@.len() && list@[k as int] == id && forall|j: int|
                0 <= j < k ==> list@[j] != id,
            None => !list@.contains(id),
        },
{
    let mut k: usize = 0;
    while k < list.len()
        invariant
            k <= list.len(),
            forall|j: int| 0 <= j < k ==> list@[j] != id,
        decreases list.len() - k,
    {
        if list[k] == id {
            return Some(k);
        }
        k = k + 1;
    }
    None
}

/// The windows of one screen: every window made by the host, the list of
/// its top-level windows from back to front, and the part of the screen
/// that is to be redrawn.
pub struct WindowsHost {
    data: Vec<WindowData>,
    windows: Vec<usize>,
    invalid: Rect,
    rank: Ghost<Seq<nat>>,
    bound: Ghost<nat>,
}

/// A window of a host, by its number.
#[derive(Debug, Clone, Copy, PartialEq, Eq)]
pub struct Window {
    id: usize,
}

impl Window {
    /// Number of the window in its host.
    pub closed spec fn index(&self) -> int {
        self.id as int
    }

    /// Number of the window in its host.
    pub fn id(&self) -> (r: usize)
        ensures
            r == self.index(),
    {
        self.id
    }
}

impl WindowsHost {
    /// Number of windows the host has made.
    pub closed spec fn count(&self) -> nat {
        self.data@.len()
    }

    /// The window with the number `i`.
    pub closed spec fn window(&self, i: int) -> WindowData {
        self.data@[i]
    }

    /// The top-level windows by number, from back to front.
    pub closed spec fn top(&self) -> Seq<usize> {
        self.windows@
    }

    /// The part of the screen that is to be redrawn.
    pub closed spec fn invalid_model(&self) -> Option<Area> {
        self.invalid@
    }

    /// Whether the window was made by a host with at least as many windows.
    pub open spec fn owns(&self, w: &Window) -> bool {
        0 <= w.index() < self.count()
    }

    /// The list that a window with the given place hangs in.
    pub open spec fn list_of(&self, a: Attach) -> Seq<usize> {
        match a {
            Attach::Unattached => Seq::empty(),
            Attach::Host => self.top(),
            Attach::Window(p) => self.window(p as int).children(),
        }
    }

    /// A number that is smaller for the place of a window than for the
    /// place of a window that hangs under it.
    pub closed spec fn height_above(&self, a: Attach) -> nat {
        match a {
            Attach::Window(p) => if p < self.rank@.len() {
                self.rank@[p as int] + 1
            } else {
                0
            },
            _ => 0,
        }
    }

    spec fn linked(&self, i: int) -> bool {
        &&& 0 <= i < self.data@.len()
        &&& i < self.rank@.len()
        &&& self.height_above(self.data@[i].parent) <= self.rank@[i]
    }

    spec fn hangs_ok(&self, i: int) -> bool {
        match self.data@[i].parent {
            Attach::Unattached => true,
            Attach::Host => self.windows@.contains(i as usize),
            Attach::Window(p) => {
                &&& p < self.data@.len()
                &&& self.rank@[p as int] < self.rank@[i]
                &&& self.data@[p as int].subwindows@.contains(i as usize)
            },
        }
    }

    spec fn kid_ok(&self, p: int, k: int) -> bool {
        let c = self.data@[p].subwindows@[k];
        c < self.data@.len() && self.data@[c as int].parent == Attach::Window(p as usize)
    }

    spec fn top_ok(&self, k: int) -> bool {
        let c = self.windows@[k];
        c < self.data@.len() && self.data@[c as int].parent == Attach::Host
    }

    /// Every window is well-formed, and the windows form a forest: a window
    /// is in the list of the place it hangs at and in no other, once; and
    /// no window hangs under itself.
    pub closed spec fn wf(&self) -> bool {
        &&& self.rank@.len() == self.data@.len()
        &&& self.data@.len() <= usize::MAX
        &&& forall|i: int| 0 <= i < self.data@.len() ==> (#[trigger] self.data@[i]).wf()
        &&& forall|i: int| 0 <= i < self.data@.len() ==> (#[trigger] self.rank@[i]) < self.bound@
        &&& forall|i: int| 0 <= i < self.data@.len() ==> #[trigger] self.hangs_ok(i)
        &&& forall|p: int, k: int|
            0 <= p < self.data@.len() && 0 <= k < self.data@[p].subwindows@.len()
                ==> #[trigger] self.kid_ok(p, k)
        &&& forall|k: int| 0 <= k < self.windows@.len() ==> #[trigger] self.top_ok(k)
        &&& self.windows@.no_duplicates()
        &&& forall|p: int|
            0 <= p < self.data@.len() ==> (#[trigger] self.data@[p]).subwindows@.no_duplicates()
    }

    /// What well-formedness says of a window and of the lists.
    pub proof fn lemma_wf(&self)
        requires
            self.wf(),
        ensures
            self.count() <= usize::MAX,
            forall|i: int| 0 <= i < self.count() ==> (#[trigger] self.window(i)).wf(),
            forall|i: int|
                0 <= i < self.count() ==> match (#[trigger] self.window(i)).attach() {
                    Attach::Unattached => true,
                    Attach::Host => self.top().contains(i as usize),
                    Attach::Window(p) => p < self.count() && self.window(p as int).children().contains(
                        i as usize,
                    ),
                },
            forall|k: int|
                0 <= k < self.top().len() ==> (#[trigger] self.top()[k]) < self.count()
                    && self.window(self.top()[k] as int).attach() == Attach::Host,
            forall|p: int, k: int|
                0 <= p < self.count() && 0 <= k < self.window(p).children().len() ==> (
                #[trigger] self.window(p).children()[k]) < self.count() && self.window(
                    self.window(p).children()[k] as int,
                ).attach() == Attach::Window(p as usize),
            self.top().no_duplicates(),
            forall|p: int| 0 <= p < self.count() ==> (#[trigger] self.window(p)).children().no_duplicates(),
    {
        assert forall|i: int| 0 <= i < self.count() implies match (#[trigger] self.window(i)).attach() {
            Attach::Unattached => true,
            Attach::Host => self.top().contains(i as usize),
            Attach::Window(p) => p < self.count() && self.window(p as int).children().contains(
                i as usize,
            ),
        } by {
            assert(self.hangs_ok(i));
        }
        assert forall|k: int| 0 <= k < self.top().len() implies (#[trigger] self.top()[k])
            < self.count() && self.window(self.top()[k] as int).attach() == Attach::Host by {
            assert(self.top_ok(k));
        }
        assert forall|p: int, k: int|
            0 <= p < self.count() && 0 <= k < self.window(p).children().len() implies (
        #[trigger] self.window(p).children()[k]) < self.count() && self.window(
            self.window(p).children()[k] as int,
        ).attach() == Attach::Window(p as usize) by {
            assert(self.kid_ok(p, k));
        }
    }

    /// Where the origin of the coordinates lies in which a window with the
    /// given place has its bounds: the sum of the corners of the windows
    /// above it.
    pub closed spec fn origin_of(&self, a: Attach) -> Origin
        decreases self.height_above(a),
    {
        match a {
            Attach::Unattached => Origin::Hidden,
            Attach::Host => Origin::At(0, 0),
            Attach::Window(p) => if !self.linked(p as int) {
                Origin::Hidden
            } else {
                match self.data@[p as int].bounds@ {
                    None => Origin::Hidden,
                    Some(b) => match self.origin_of(self.data@[p as int].parent) {
                        Origin::Hidden => Origin::Hidden,
                        Origin::Beyond => Origin::Beyond,
                        Origin::At(y, x) => if isize::MIN <= y + b.top <= isize::MAX && isize::MIN
                            <= x + b.left <= isize::MAX {
                            Origin::At((y + b.top) as isize, (x + b.left) as isize)
                        } else {
                            Origin::Beyond
                        },
                    },
                }
            },
        }
    }

    /// How `origin_of` goes from a window to the one above it.
    pub proof fn lemma_origin_of(&self, a: Attach)
        requires
            self.wf(),
            a matches Attach::Window(p) ==> p < self.count(),
        ensures
            self.origin_of(a) == match a {
                Attach::Unattached => Origin::Hidden,
                Attach::Host => Origin::At(0, 0),
                Attach::Window(p) => match self.window(p as int).bounds_model() {
                    None => Origin::Hidden,
                    Some(b) => match self.origin_of(self.window(p as int).attach()) {
                        Origin::Hidden => Origin::Hidden,
                        Origin::Beyond => Origin::Beyond,
                        Origin::At(y, x) => if isize::MIN <= y + b.top <= isize::MAX && isize::MIN
                            <= x + b.left <= isize::MAX {
                            Origin::At((y + b.top) as isize, (x + b.left) as isize)
                        } else {
                            Origin::Beyond
                        },
                    },
                },
            },
    {
        if let Attach::Window(p) = a {
            assert(self.hangs_ok(p as int));
        }
    }

    /// Whether the window `i` is the window `c` or hangs under it.
    pub closed spec fn under(&self, c: usize, i: usize) -> bool
        decreases self.height_above(Attach::Window(i)),
    {
        if i == c {
            true
        } else if !self.linked(i as int) {
            false
        } else {
            match self.data@[i as int].parent {
                Attach::Window(p) => self.under(c, p),
                _ => false,
            }
        }
    }

    /// How `under` goes from a window to the one above it.
    pub proof fn lemma_under(&self, c: usize, i: usize)
        requires
            self.wf(),
            i < self.count(),
        ensures
            self.under(c, i) == (i == c || match self.window(i as int).attach() {
                Attach::Window(p) => self.under(c, p),
                _ => false,
            }),
    {
        assert(self.hangs_ok(i as int));
    }

    /// Whether a window hangs under the window `c` does not depend on where
    /// `c` hangs.
    pub proof fn lemma_under_kept(&self, old: &WindowsHost, c: usize, i: usize)
        requires
            self.wf(),
            old.wf(),
            self.count() == old.count(),
            i < old.count(),
            forall|j: int|
                0 <= j < old.count() && j != c ==> (#[trigger] self.window(j)).attach()
                    == old.window(j).attach(),
        ensures
            self.under(c, i) == old.under(c, i),
        decreases old.height_above(Attach::Window(i)),
    {
        self.lemma_under(c, i);
        old.lemma_under(c, i);
        if i != c {
            assert(self.window(i as int).attach() == old.window(i as int).attach());
            assert(old.hangs_ok(i as int));
            if let Attach::Window(p) = old.window(i as int).attach() {
                self.lemma_under_kept(old, c, p);
            }
        }
    }

    /// Whether the window hangs under no host: neither it nor a window above
    /// it is in the host's list.
    pub closed spec fn detached(&self, a: Attach) -> bool
        decreases self.height_above(a),
    {
        match a {
            Attach::Unattached => true,
            Attach::Host => false,
            Attach::Window(p) => if !self.linked(p as int) {
                true
            } else {
                self.detached(self.data@[p as int].parent)
            },
        }
    }

    /// How `detached` goes from a window to the one above it.
    pub proof fn lemma_detached(&self, a: Attach)
        requires
            self.wf(),
            a matches Attach::Window(p) ==> p < self.count(),
        ensures
            self.detached(a) == match a {
                Attach::Unattached => true,
                Attach::Host => false,
                Attach::Window(p) => self.detached(self.window(p as int).attach()),
            },
    {
        if let Attach::Window(p) = a {
            assert(self.hangs_ok(p as int));
        }
    }

    /// A host without windows.
    pub fn new() -> (host: WindowsHost)
        ensures
            host.wf(),
            host.count() == 0,
            host.top() == Seq::<usize>::empty(),
            host.invalid_model() is None,
    {
        WindowsHost {
            data: Vec::new(),
            windows: Vec::new(),
            invalid: Rect::empty(),
            rank: Ghost(Seq::empty()),
            bound: Ghost(0),
        }
    }

    /// Makes a window with empty bounds that hangs nowhere.
    pub fn new_window(&mut self) -> (w: Window)
        requires
            old(self).wf(),
        ensures
            final(self).wf(),
            w.index() == old(self).count(),
            final(self).count() == old(self).count() + 1,
            final(self).top() == old(self).top(),
            final(self).invalid_model() == old(self).invalid_model(),
            forall|i: int| 0 <= i < old(self).count() ==> final(self).window(i) == old(self).window(i),
            final(self).window(w.index()).wf(),
            final(self).window(w.index()).bounds_model() is None,
            final(self).window(w.index()).invalid_model() is None,
            final(self).window(w.index()).grid() == Seq::<Seq<Texel>>::empty(),
            final(self).window(w.index()).attach() == Attach::Unattached,
            final(self).window(w.index()).children() == Seq::<usize>::empty(),
    {
        self.data.push(WindowData::new());
        let id = self.data.len() - 1;
        proof {
            self.rank@ = self.rank@.push(0);
            self.bound@ = self.bound@ + 1;
            assert forall|i: int| 0 <= i < self.data@.len() implies #[trigger] self.hangs_ok(i) by {
                if i < id {
                    assert(old(self).hangs_ok(i));
                }
            }
            assert forall|p: int, k: int|
                0 <= p < self.data@.len() && 0 <= k < self.data@[p].subwindows@.len()
                    implies #[trigger] self.kid_ok(p, k) by {
                assert(old(self).kid_ok(p, k));
            }
            assert forall|k: int| 0 <= k < self.windows@.len() implies #[trigger] self.top_ok(k) by {
                assert(old(self).top_ok(k));
            }
        }
        Window { id }
    }

    /// The part of the screen that is to be redrawn.
    pub fn invalid(&self) -> (r: Rect)
        ensures
            r@ == self.invalid_model(),
    {
        self.invalid
    }

    /// Number of windows the host has made.
    pub fn len(&self) -> (n: usize)
        ensures
            n == self.count(),
    {
        self.data.len()
    }

    /// The top-level windows by number, from back to front.
    pub fn windows(&self) -> (r: Vec<usize>)
        ensures
            r@ == self.top(),
    {
        self.windows.clone()
    }

    /// The subwindows of the window with the number `i`, from back to
    /// front.
    pub fn subwindows(&self, i: usize) -> (r: Vec<usize>)
        requires
            i < self.count(),
        ensures
            r@ == self.window(i as int).children(),
    {
        self.data[i].subwindows.clone()
    }

    /// Where the window with the number `i` hangs.
    pub fn attach_of(&self, i: usize) -> (r: Attach)
        requires
            i < self.count(),
        ensures
            r == self.window(i as int).attach(),
    {
        self.data[i].parent
    }

    /// Where the origin of the coordinates lies in which a window with the
    /// given place has its bounds.
    fn origin(&self, a: Attach) -> (o: Origin)
        requires
            self.wf(),
            a matches Attach::Window(p) ==> p < self.count(),
        ensures
            o == self.origin_of(a),
        decreases self.height_above(a),
    {
        match a {
            Attach::Unattached => Origin::Hidden,
            Attach::Host => Origin::At(0, 0),
            Attach::Window(p) => {
                proof {
                    assert(self.hangs_ok(p as int));
                    assert(self.data@[p as int].wf());
                }
                match self.data[p].bounds.loc() {
                    None => Origin::Hidden,
                    Some((top, left)) => match self.origin(self.data[p].parent) {
                        Origin::Hidden => Origin::Hidden,
                        Origin::Beyond => Origin::Beyond,
                        Origin::At(y, x) => match (y.checked_add(top), x.checked_add(left)) {
                            (Some(gy), Some(gx)) => Origin::At(gy, gx),
                            _ => Origin::Beyond,
                        },
                    },
                }
            },
        }
    }
}

/// In a list without duplicates an element is found where it stands.
pub proof fn lemma_list_place(list: Seq<usize>, k: int)
    requires
        list.no_duplicates(),
        0 <= k < list.len(),
    ensures
        list.index_of(list[k]) == k,
        list.contains(list[k]),
{
    let j = list.index_of(list[k]);
    assert(list.contains(list[k]));
    assert(0 <= j < list.len() && list[j] == list[k]);
}

/// Removing the element at `k` from a list without duplicates removes its
/// value and no other.
pub proof fn lemma_list_remove(list: Seq<usize>, k: int)
    requires
        list.no_duplicates(),
        0 <= k < list.len(),
    ensures
        list.remove(k).no_duplicates(),
        list.remove(k).len() == list.len() - 1,
        !list.remove(k).contains(list[k]),
        forall|x: usize| x != list[k] ==> list.remove(k).contains(x) == list.contains(x),
{
    let r = list.remove(k);
    assert forall|i: int, j: int| 0 <= i < r.len() && 0 <= j < r.len() && i != j implies r[i]
        != r[j] by {
        let a = if i < k { i } else { i + 1 };
        let b = if j < k { j } else { j + 1 };
        assert(r[i] == list[a] && r[j] == list[b]);
    }
    if r.contains(list[k]) {
        let i = r.index_of(list[k]);
        let a = if i < k { i } else { i + 1 };
        assert(r[i] == list[a]);
    }
    assert forall|x: usize| x != list[k] implies r.contains(x) == list.contains(x) by {
        if list.contains(x) {
            let a = list.index_of(x);
            let i = if a < k { a } else { a - 1 };
            assert(r[i] == x);
        }
        if r.contains(x) {
            let i = r.index_of(x);
            let a = if i < k { i } else { i + 1 };
            assert(list[a] == x);
        }
    }
}

/// Inserting a new value at `k` into a list without duplicates adds it and
/// no other.
pub proof fn lemma_list_insert(list: Seq<usize>, k: int, id: usize)
    requires
        list.no_duplicates(),
        !list.contains(id),
        0 <= k <= list.len(),
    ensures
        list.insert(k, id).no_duplicates(),
        list.insert(k, id).len() == list.len() + 1,
        list.insert(k, id)[k] == id,
        forall|x: usize| list.insert(k, id).contains(x) == (x == id || list.contains(x)),
{
    let r = list.insert(k, id);
    assert forall|i: int, j: int| 0 <= i < r.len() && 0 <= j < r.len() && i != j implies r[i]
        != r[j] by {
        if i != k && j != k {
            let a = if i < k { i } else { i - 1 };
            let b = if j < k { j } else { j - 1 };
            assert(r[i] == list[a] && r[j] == list[b]);
        } else if i == k {
            let b = if j < k { j } else { j - 1 };
            assert(r[j] == list[b]);
        } else {
            let a = if i < k { i } else { i - 1 };
            assert(r[i] == list[a]);
        }
    }
    assert forall|x: usize| r.contains(x) == (x == id || list.contains(x)) by {
        if x == id {
            assert(r[k] == id);
        }
        if list.contains(x) {
            let a = list.index_of(x);
            let i = if a < k { a } else { a + 1 };
            assert(r[i] == x);
        }
        if r.contains(x) && x != id {
            let i = r.index_of(x);
            let a = if i < k { i } else { i - 1 };
            assert(list[a] == x);
        }
    }
}

impl WindowsHost {
    /// Compositing reaches every window: a window has less room below it
    /// than the window it hangs under, and than the limit.
    pub proof fn lemma_room_below(&self, w: usize)
        requires
            self.wf(),
            w < self.count(),
        ensures
            self.room_below(w) < self.depth_limit(),
            forall|k: int|
                0 <= k < self.window(w as int).children().len() ==> self.room_below(
                    #[trigger] self.window(w as int).children()[k],
                ) < self.room_below(w),
    {
        assert forall|k: int| 0 <= k < self.window(w as int).children().len() implies self.room_below(
            #[trigger] self.window(w as int).children()[k],
        ) < self.room_below(w) by {
            assert(self.kid_ok(w as int, k));
            let c = self.data@[w as int].subwindows@[k];
            assert(self.hangs_ok(c as int));
        }
    }

    /// The windows hang as they did, and every window is well-formed.
    proof fn lemma_tree_kept(&self, old: &WindowsHost)
        requires
            old.wf(),
            self.rank@ == old.rank@,
            self.bound@ == old.bound@,
            self.windows@ == old.windows@,
            self.data@.len() == old.data@.len(),
            forall|i: int|
                0 <= i < self.data@.len() ==> (#[trigger] self.data@[i]).parent == old.data@[i].parent
                    && self.data@[i].subwindows@ == old.data@[i].subwindows@ && self.data@[i].wf(),
        ensures
            self.wf(),
    {
        assert forall|i: int| 0 <= i < self.data@.len() implies #[trigger] self.hangs_ok(i) by {
            assert(old.hangs_ok(i));
            assert(self.data@[i].parent == old.data@[i].parent);
            if let Attach::Window(p) = self.data@[i].parent {
                assert(self.data@[p as int].subwindows@ == old.data@[p as int].subwindows@);
            }
        }
        assert forall|p: int, k: int|
            0 <= p < self.data@.len() && 0 <= k < self.data@[p].subwindows@.len()
                implies #[trigger] self.kid_ok(p, k) by {
            assert(self.data@[p].subwindows@ == old.data@[p].subwindows@);
            assert(old.kid_ok(p, k));
            let c = old.data@[p].subwindows@[k];
            assert(self.data@[c as int].parent == old.data@[c as int].parent);
        }
        assert forall|k: int| 0 <= k < self.windows@.len() implies #[trigger] self.top_ok(k) by {
            assert(old.top_ok(k));
            let c = old.windows@[k];
            assert(self.data@[c as int].parent == old.data@[c as int].parent);
        }
        assert forall|p: int| 0 <= p < self.data@.len() implies (
        #[trigger] self.data@[p]).subwindows@.no_duplicates() by {
            assert(self.data@[p].subwindows@ == old.data@[p].subwindows@);
        }
    }

    /// Nothing but the grid and the invalid part of the window `w` differs
    /// from `old`.
    pub open spec fn drawn(&self, old: &WindowsHost, w: int) -> bool {
        &&& self.others_same(old, w)
        &&& self.top() == old.top()
        &&& self.invalid_model() == old.invalid_model()
        &&& self.window(w).bounds_model() == old.window(w).bounds_model()
        &&& self.window(w).attach() == old.window(w).attach()
        &&& self.window(w).children() == old.window(w).children()
    }

    /// The window `i` hangs where it hung in `old`, and has the bounds, the
    /// grid and the invalid part that it had.
    pub open spec fn same_content(&self, old: &WindowsHost, i: int) -> bool {
        &&& self.window(i).attach() == old.window(i).attach()
        &&& self.window(i).bounds_model() == old.window(i).bounds_model()
        &&& self.window(i).invalid_model() == old.window(i).invalid_model()
        &&& self.window(i).grid() == old.window(i).grid()
    }

    /// The state of a host after the window `w` got the given bounds: its
    /// grid is resized with them, what was invalid of it stays so where it
    /// still lies in the window, its old and its new bounds are invalid on
    /// the screen, and all else is as in `old`.
    pub open spec fn rebounded(&self, old: &WindowsHost, w: int, bounds: Option<Area>) -> bool {
        &&& self.others_same(old, w)
        &&& self.top() == old.top()
        &&& self.invalid_model() == area_invalidated(
            area_invalidated(
                old.invalid_model(),
                old.window(w).bounds_model(),
                old.origin_of(old.window(w).attach()),
            ),
            bounds,
            old.origin_of(old.window(w).attach()),
        )
        &&& self.window(w).bounds_model() == bounds
        &&& match bounds {
            None => self.window(w).grid() == Seq::<Seq<Texel>>::empty(),
            Some(b) => self.window(w).grid() == grid_resized(old.window(w).grid(), b.height, b.width),
        }
        &&& self.window(w).invalid_model() == area_inters(
            old.window(w).invalid_model(),
            self.window(w).area_model(),
        )
        &&& self.window(w).attach() == old.window(w).attach()
        &&& self.window(w).children() == old.window(w).children()
    }

    /// The state of a host after the window `w`, which hung nowhere in
    /// `old`, was put in front of the subwindows of the window `p`: it is
    /// the last of them, and all else is as in `old`.
    pub open spec fn hung_under(&self, old: &WindowsHost, w: int, p: int) -> bool {
        &&& self.count() == old.count()
        &&& forall|i: int|
            0 <= i < old.count() && i != w && i != p ==> self.window(i) == old.window(i)
        &&& self.top() == old.top()
        &&& self.invalid_model() == old.invalid_model()
        &&& self.window(w).attach() == Attach::Window(p as usize)
        &&& self.window(w).bounds_model() == old.window(w).bounds_model()
        &&& self.window(w).invalid_model() == old.window(w).invalid_model()
        &&& self.window(w).grid() == old.window(w).grid()
        &&& self.window(w).children() == old.window(w).children()
        &&& self.window(p).children() == old.window(p).children().push(w as usize)
        &&& self.window(p).attach() == old.window(p).attach()
        &&& self.window(p).bounds_model() == old.window(p).bounds_model()
        &&& self.window(p).invalid_model() == old.window(p).invalid_model()
        &&& self.window(p).grid() == old.window(p).grid()
    }

    /// The window `i` has the bounds, the grid, the invalid part and the
    /// subwindows that it had in `old`.
    pub open spec fn same_content_but_place(&self, old: &WindowsHost, i: int) -> bool {
        &&& self.window(i).bounds_model() == old.window(i).bounds_model()
        &&& self.window(i).invalid_model() == old.window(i).invalid_model()
        &&& self.window(i).grid() == old.window(i).grid()
        &&& self.window(i).children() == old.window(i).children()
    }

    /// Every window but `w` is as it was in `old`.
    pub open spec fn others_same(&self, old: &WindowsHost, w: int) -> bool {
        &&& self.count() == old.count()
        &&& forall|i: int| 0 <= i < old.count() && i != w ==> self.window(i) == old.window(i)
    }

    /// Whether the window `i` is the window `c` or hangs under it.
    pub fn is_under(&self, c: &Window, i: &Window) -> (r: bool)
        requires
            self.wf(),
            self.owns(i),
        ensures
            r == self.under(c.index() as usize, i.index() as usize),
    {
        self.under_at(c.id, i.id)
    }

    /// Whether the window with the number `i` is the window with the number
    /// `c` or hangs under it.
    pub fn under_at(&self, c: usize, i: usize) -> (r: bool)
        requires
            self.wf(),
            i < self.count(),
        ensures
            r == self.under(c, i),
        decreases self.height_above(Attach::Window(i)),
    {
        proof {
            assert(self.hangs_ok(i as int));
        }
        if i == c {
            true
        } else {
            match self.data[i].parent {
                Attach::Window(p) => self.under_at(c, p),
                _ => false,
            }
        }
    }

    fn detached_at(&self, a: Attach) -> (r: bool)
        requires
            self.wf(),
            a matches Attach::Window(p) ==> p < self.count(),
        ensures
            r == self.detached(a),
        decreases self.height_above(a),
    {
        match a {
            Attach::Unattached => true,
            Attach::Host => false,
            Attach::Window(p) => {
                proof {
                    assert(self.hangs_ok(p as int));
                }
                self.detached_at(self.data[p].parent)
            },
        }
    }
}

impl Window {
    /// Writes a cell of the window and marks it invalid.
    pub fn out(&self, host: &mut WindowsHost, y: isize, x: isize, c: Texel)
        requires
            old(host).wf(),
            old(host).owns(self),
            area_has(old(host).window(self.index()).area_model(), y as int, x as int),
        ensures
            final(host).wf(),
            final(host).others_same(old(host), self.index()),
            final(host).top() == old(host).top(),
            final(host).invalid_model() == old(host).invalid_model(),
            final(host).window(self.index()).bounds_model() == old(host).window(
                self.index(),
            ).bounds_model(),
            final(host).window(self.index()).invalid_model() == area_include(
                old(host).window(self.index()).invalid_model(),
                y as int,
                x as int,
            ),
            final(host).window(self.index()).grid() == old(host).window(self.index()).grid().update(
                y as int,
                old(host).window(self.index()).grid()[y as int].update(x as int, c),
            ),
            final(host).window(self.index()).attach() == old(host).window(self.index()).attach(),
            final(host).window(self.index()).children() == old(host).window(
                self.index(),
            ).children(),
    {
        proof {
            assert(host.data@[self.id as int].wf());
        }
        host.data[self.id].out(y, x, c);
        proof {
            host.lemma_tree_kept(old(host));
        }
    }

    /// The bounds of the window in the coordinates of its parent.
    pub fn bounds(&self, host: &WindowsHost) -> (r: Rect)
        requires
            host.owns(self),
        ensures
            r@ == host.window(self.index()).bounds_model(),
    {
        host.data[self.id].bounds
    }

    /// The window's own area: its bounds moved to the origin.
    pub fn area(&self, host: &WindowsHost) -> (r: Rect)
        requires
            host.owns(self),
        ensures
            r@ == host.window(self.index()).area_model(),
    {
        host.data[self.id].area()
    }

    /// The part of the window written since it was last composited.
    pub fn invalid(&self, host: &WindowsHost) -> (r: Rect)
        requires
            host.owns(self),
        ensures
            r@ == host.window(self.index()).invalid_model(),
    {
        host.data[self.id].invalid
    }

    /// The cell at row `y` and column `x` of the window.
    pub fn cell(&self, host: &WindowsHost, y: isize, x: isize) -> (t: Texel)
        requires
            host.wf(),
            host.owns(self),
            area_has(host.window(self.index()).area_model(), y as int, x as int),
        ensures
            t == host.window(self.index()).grid()[y as int][x as int],
    {
        proof {
            assert(host.data@[self.id as int].wf());
        }
        host.data[self.id].cell(y, x)
    }

    /// Changes the bounds of the window. Its grid is resized with them, and
    /// both the old and the new bounds become invalid on the screen.
    pub fn set_bounds(&self, host: &mut WindowsHost, bounds: Rect)
        requires
            old(host).wf(),
            old(host).owns(self),
        ensures
            final(host).wf(),
            final(host).rebounded(old(host), self.index(), bounds@),
            final(host).others_same(old(host), self.index()),
            final(host).top() == old(host).top(),
            final(host).invalid_model() == area_invalidated(
                area_invalidated(
                    old(host).invalid_model(),
                    old(host).window(self.index()).bounds_model(),
                    old(host).origin_of(old(host).window(self.index()).attach()),
                ),
                bounds@,
                old(host).origin_of(old(host).window(self.index()).attach()),
            ),
            final(host).window(self.index()).bounds_model() == bounds@,
            match bounds@ {
                None => final(host).window(self.index()).grid() == Seq::<Seq<Texel>>::empty(),
                Some(b) => final(host).window(self.index()).grid() == grid_resized(
                    old(host).window(self.index()).grid(),
                    b.height,
                    b.width,
                ),
            },
            final(host).window(self.index()).invalid_model() == area_inters(
                old(host).window(self.index()).invalid_model(),
                final(host).window(self.index()).area_model(),
            ),
            final(host).window(self.index()).attach() == old(host).window(self.index()).attach(),
            final(host).window(self.index()).children() == old(host).window(
                self.index(),
            ).children(),
    {
        proof {
            assert(host.data@[self.id as int].wf());
            assert(host.hangs_ok(self.id as int));
        }
        let origin = host.origin(host.data[self.id].parent);
        let former = host.data[self.id].set_bounds(bounds);
        invalidate(&mut host.invalid, &former, origin);
        invalidate(&mut host.invalid, &bounds, origin);
        proof {
            host.lemma_tree_kept(old(host));
        }
    }

    /// Puts the window in front of the host's top-level windows: at the end
    /// of their list.
    pub fn attach(&self, host: &mut WindowsHost)
        requires
            old(host).wf(),
            old(host).owns(self),
            old(host).window(self.index()).attach() == Attach::Unattached,
        ensures
            final(host).wf(),
            final(host).others_same(old(host), self.index()),
            final(host).top() == old(host).top().push(self.index() as usize),
            final(host).invalid_model() == old(host).invalid_model(),
            final(host).window(self.index()).attach() == Attach::Host,
            final(host).window(self.index()).bounds_model() == old(host).window(
                self.index(),
            ).bounds_model(),
            final(host).window(self.index()).invalid_model() == old(host).window(
                self.index(),
            ).invalid_model(),
            final(host).window(self.index()).grid() == old(host).window(self.index()).grid(),
            final(host).window(self.index()).children() == old(host).window(
                self.index(),
            ).children(),
    {
        host.windows.push(self.id);
        host.data[self.id].parent = Attach::Host;
        proof {
            let id = self.id;
            assert(old(host).data@[id as int].wf());
            assert(host.data@[id as int].wf());
            assert forall|i: int| 0 <= i < host.data@.len() implies (#[trigger] host.data@[i]).wf() by {
                if i != id {
                    assert(old(host).data@[i].wf());
                }
            }
            assert forall|i: int| 0 <= i < host.data@.len() implies #[trigger] host.hangs_ok(i) by {
                assert(old(host).hangs_ok(i));
                if i == id {
                    assert(host.windows@[old(host).windows@.len() as int] == id);
                } else {
                    if old(host).data@[i].parent == Attach::Host {
                        let k = old(host).windows@.index_of(i as usize);
                        assert(host.windows@[k] == i as usize);
                    }
                }
            }
            assert forall|p: int, k: int|
                0 <= p < host.data@.len() && 0 <= k < host.data@[p].subwindows@.len()
                    implies #[trigger] host.kid_ok(p, k) by {
                assert(old(host).kid_ok(p, k));
            }
            assert forall|k: int| 0 <= k < host.windows@.len() implies #[trigger] host.top_ok(k) by {
                if k < old(host).windows@.len() {
                    assert(old(host).top_ok(k));
                }
            }
            assert(host.windows@.no_duplicates()) by {
                assert forall|i: int, j: int|
                    0 <= i < host.windows@.len() && 0 <= j < host.windows@.len() && i
                        != j implies host.windows@[i] != host.windows@[j] by {
                    if i < old(host).windows@.len() {
                        assert(old(host).top_ok(i));
                    }
                    if j < old(host).windows@.len() {
                        assert(old(host).top_ok(j));
                    }
                }
            }
            assert forall|p: int| 0 <= p < host.data@.len() implies (
            #[trigger] host.data@[p]).subwindows@.no_duplicates() by {
                assert(old(host).data@[p].subwindows@.no_duplicates());
            }
        }
    }

    /// Whether the window hangs under no host.
    pub fn is_detached(&self, host: &WindowsHost) -> (r: bool)
        requires
            host.wf(),
            host.owns(self),
        ensures
            r == host.detached(host.window(self.index()).attach()),
    {
        proof {
            assert(host.hangs_ok(self.id as int));
        }
        host.detached_at(host.data[self.id].parent)
    }
}

impl Window {
    /// Puts the window in front of the subwindows of `parent`, at the end of
    /// their list; `parent` must not hang under this window.
    pub fn attach_to(&self, host: &mut WindowsHost, parent: &Window)
        requires
            old(host).wf(),
            old(host).owns(self),
            old(host).owns(parent),
            old(host).window(self.index()).attach() == Attach::Unattached,
            !old(host).under(self.index() as usize, parent.index() as usize),
        ensures
            final(host).wf(),
            final(host).count() == old(host).count(),
            forall|i: int|
                0 <= i < old(host).count() && i != self.index() && i != parent.index()
                    ==> final(host).window(i) == old(host).window(i),
            final(host).top() == old(host).top(),
            final(host).invalid_model() == old(host).invalid_model(),
            final(host).window(self.index()).attach() == Attach::Window(parent.index() as usize),
            final(host).window(self.index()).bounds_model() == old(host).window(
                self.index(),
            ).bounds_model(),
            final(host).window(self.index()).invalid_model() == old(host).window(
                self.index(),
            ).invalid_model(),
            final(host).window(self.index()).grid() == old(host).window(self.index()).grid(),
            final(host).window(self.index()).children() == old(host).window(
                self.index(),
            ).children(),
            final(host).window(parent.index()).children() == old(host).window(
                parent.index(),
            ).children().push(self.index() as usize),
            final(host).window(parent.index()).attach() == old(host).window(parent.index()).attach(),
            final(host).window(parent.index()).bounds_model() == old(host).window(
                parent.index(),
            ).bounds_model(),
            final(host).window(parent.index()).invalid_model() == old(host).window(
                parent.index(),
            ).invalid_model(),
            final(host).window(parent.index()).grid() == old(host).window(parent.index()).grid(),
    {
        self.attach_under(host, parent.id);
    }

    /// Puts the window in front of the subwindows of the window with the
    /// number `parent`, at the end of their list; that window must not hang
    /// under this one.
    pub fn attach_under(&self, host: &mut WindowsHost, parent: usize)
        requires
            old(host).wf(),
            old(host).owns(self),
            parent < old(host).count(),
            old(host).window(self.index()).attach() == Attach::Unattached,
            !old(host).under(self.index() as usize, parent),
        ensures
            final(host).wf(),
            final(host).count() == old(host).count(),
            forall|i: int|
                0 <= i < old(host).count() && i != self.index() && i != parent as int
                    ==> final(host).window(i) == old(host).window(i),
            final(host).top() == old(host).top(),
            final(host).invalid_model() == old(host).invalid_model(),
            final(host).window(self.index()).attach() == Attach::Window(parent),
            final(host).window(self.index()).bounds_model() == old(host).window(
                self.index(),
            ).bounds_model(),
            final(host).window(self.index()).invalid_model() == old(host).window(
                self.index(),
            ).invalid_model(),
            final(host).window(self.index()).grid() == old(host).window(self.index()).grid(),
            final(host).window(self.index()).children() == old(host).window(
                self.index(),
            ).children(),
            final(host).window(parent as int).children() == old(host).window(
                parent as int,
            ).children().push(self.index() as usize),
            final(host).window(parent as int).attach() == old(host).window(parent as int).attach(),
            final(host).window(parent as int).bounds_model() == old(host).window(
                parent as int,
            ).bounds_model(),
            final(host).window(parent as int).invalid_model() == old(host).window(
                parent as int,
            ).invalid_model(),
            final(host).window(parent as int).grid() == old(host).window(parent as int).grid(),
    {
        let id = self.id;
        let pid = parent;
        proof {
            old(host).lemma_under(id, pid);
            assert(id != pid);
        }
        host.data[pid].subwindows.push(id);
        host.data[id].parent = Attach::Window(pid);
        proof {
            let before = *old(host);
            let shift = before.bound@;
            host.rank@ = Seq::new(
                before.rank@.len(),
                |i: int|
                    if before.under(id, i as usize) {
                        before.rank@[i] + shift
                    } else {
                        before.rank@[i]
                    },
            );
            host.bound@ = shift + shift;
            assert(before.data@[id as int].wf());
            assert(before.data@[pid as int].wf());
            assert forall|i: int| 0 <= i < host.data@.len() implies (#[trigger] host.data@[i]).wf() by {
                assert(before.data@[i].wf());
            }
            assert(before.under(id, id));
            assert forall|i: int| 0 <= i < host.data@.len() implies #[trigger] host.hangs_ok(i) by {
                assert(before.hangs_ok(i));
                before.lemma_under(id, i as usize);
                if i == id {
                    let list = host.data@[pid as int].subwindows@;
                    assert(list[list.len() - 1] == id);
                } else {
                    match before.data@[i].parent {
                        Attach::Window(q) => {
                            assert(host.data@[i].parent == Attach::Window(q));
                            let k = before.data@[q as int].subwindows@.index_of(i as usize);
                            assert(host.data@[q as int].subwindows@[k] == i as usize);
                        },
                        _ => {},
                    }
                }
            }
            assert forall|p: int, k: int|
                0 <= p < host.data@.len() && 0 <= k < host.data@[p].subwindows@.len()
                    implies #[trigger] host.kid_ok(p, k) by {
                if p == pid && k == before.data@[p].subwindows@.len() {
                } else {
                    assert(before.kid_ok(p, k));
                }
            }
            assert forall|k: int| 0 <= k < host.windows@.len() implies #[trigger] host.top_ok(k) by {
                assert(before.top_ok(k));
            }
            assert forall|p: int| 0 <= p < host.data@.len() implies (
            #[trigger] host.data@[p]).subwindows@.no_duplicates() by {
                assert(before.data@[p].subwindows@.no_duplicates());
                if p == pid {
                    let list = host.data@[p].subwindows@;
                    assert forall|i: int, j: int|
                        0 <= i < list.len() && 0 <= j < list.len() && i != j implies list[i]
                        != list[j] by {
                        if i < list.len() - 1 {
                            assert(before.kid_ok(p, i));
                        }
                        if j < list.len() - 1 {
                            assert(before.kid_ok(p, j));
                        }
                    }
                }
            }
        }
    }

    /// Place of the window in the list it hangs in: `0` for the window
    /// that is drawn first.
    pub fn z_index(&self, host: &WindowsHost) -> (r: usize)
        requires
            host.wf(),
            host.owns(self),
            host.window(self.index()).attach() != Attach::Unattached,
        ensures
            r == host.list_of(host.window(self.index()).attach()).index_of(self.index() as usize),
            r < host.list_of(host.window(self.index()).attach()).len(),
            host.list_of(host.window(self.index()).attach())[r as int] == self.index(),
    {
        proof {
            assert(host.hangs_ok(self.id as int));
        }
        let found = match host.data[self.id].parent {
            Attach::Window(p) => position(&host.data[p].subwindows, self.id),
            _ => position(&host.windows, self.id),
        };
        proof {
            let list = host.list_of(host.window(self.index()).attach());
            assert(list.no_duplicates());
            if let Some(k) = found {
                lemma_list_place(list, k as int);
            }
        }
        match found {
            Some(k) => k,
            None => 0,
        }
    }

    /// Moves the window to the place `index` of the list it hangs in, or to
    /// its end where `index` is beyond it, and makes the bounds of the
    /// window invalid on the screen.
    pub fn set_z_index(&self, host: &mut WindowsHost, index: usize)
        requires
            old(host).wf(),
            old(host).owns(self),
            old(host).window(self.index()).attach() != Attach::Unattached,
        ensures
            final(host).wf(),
            final(host).count() == old(host).count(),
            forall|i: int|
                0 <= i < old(host).count() ==> #[trigger] final(host).same_content(old(host), i),
            final(host).invalid_model() == area_invalidated(
                old(host).invalid_model(),
                old(host).window(self.index()).bounds_model(),
                old(host).origin_of(old(host).window(self.index()).attach()),
            ),
            ({
                let a = old(host).window(self.index()).attach();
                let list = old(host).list_of(a);
                let rest = list.remove(list.index_of(self.index() as usize));
                let place = if index <= rest.len() {
                    index as int
                } else {
                    rest.len() as int
                };
                &&& final(host).list_of(a) == rest.insert(place, self.index() as usize)
                &&& forall|b: Attach|
                    b != a && (b matches Attach::Window(p) ==> p < old(host).count())
                        ==> final(host).list_of(b) == old(host).list_of(b)
            }),
    {
        let id = self.id;
        proof {
            assert(host.hangs_ok(id as int));
            assert(host.data@[id as int].wf());
        }
        let at = host.data[id].parent;
        let origin = host.origin(at);
        let bounds = host.data[id].bounds;
        invalidate(&mut host.invalid, &bounds, origin);
        let ghost before = *old(host);
        let ghost list = before.list_of(at);
        proof {
            assert(list.no_duplicates());
            assert(list.contains(id));
        }
        match at {
            Attach::Window(p) => {
                if let Some(k) = position(&host.data[p].subwindows, id) {
                    proof {
                        lemma_list_place(list, k as int);
                        lemma_list_remove(list, k as int);
                    }
                    host.data[p].subwindows.remove(k);
                    let len = host.data[p].subwindows.len();
                    let place = if index <= len {
                        index
                    } else {
                        len
                    };
                    proof {
                        lemma_list_insert(list.remove(k as int), place as int, id);
                    }
                    host.data[p].subwindows.insert(place, id);
                }
            },
            _ => {
                if let Some(k) = position(&host.windows, id) {
                    proof {
                        lemma_list_place(list, k as int);
                        lemma_list_remove(list, k as int);
                    }
                    host.windows.remove(k);
                    let len = host.windows.len();
                    let place = if index <= len {
                        index
                    } else {
                        len
                    };
                    proof {
                        lemma_list_insert(list.remove(k as int), place as int, id);
                    }
                    host.windows.insert(place, id);
                }
            },
        }
        proof {
            host.lemma_relisted(&before, at);
        }
    }
}

impl WindowsHost {
    /// The windows hang where they did, and the list of the place `a` holds
    /// what it held, in another order.
    proof fn lemma_relisted(&self, old: &WindowsHost, a: Attach)
        requires
            old.wf(),
            a != Attach::Unattached,
            a matches Attach::Window(p) ==> p < old.data@.len(),
            self.rank@ == old.rank@,
            self.bound@ == old.bound@,
            self.data@.len() == old.data@.len(),
            forall|i: int|
                0 <= i < self.data@.len() ==> (#[trigger] self.data@[i]).parent == old.data@[i].parent
                    && self.data@[i].wf(),
            forall|i: int|
                0 <= i < self.data@.len() && a != Attach::Window(i as usize) ==> (
                #[trigger] self.data@[i]).subwindows@ == old.data@[i].subwindows@,
            a != Attach::Host ==> self.windows@ == old.windows@,
            self.list_of(a).no_duplicates(),
            self.list_of(a).len() == old.list_of(a).len(),
            forall|x: usize| self.list_of(a).contains(x) == old.list_of(a).contains(x),
        ensures
            self.wf(),
    {
        assert forall|i: int| 0 <= i < self.data@.len() implies #[trigger] self.hangs_ok(i) by {
            assert(old.hangs_ok(i));
            assert(self.data@[i].parent == old.data@[i].parent);
            match self.data@[i].parent {
                Attach::Window(p) => {
                    if a == Attach::Window(p) {
                        assert(self.list_of(a).contains(i as usize) == old.list_of(a).contains(
                            i as usize,
                        ));
                    } else {
                        assert(self.data@[p as int].subwindows@ == old.data@[p as int].subwindows@);
                    }
                },
                Attach::Host => {
                    if a == Attach::Host {
                        assert(self.list_of(a).contains(i as usize) == old.list_of(a).contains(
                            i as usize,
                        ));
                    }
                },
                Attach::Unattached => {},
            }
        }
        assert forall|p: int, k: int|
            0 <= p < self.data@.len() && 0 <= k < self.data@[p].subwindows@.len()
                implies #[trigger] self.kid_ok(p, k) by {
            if a == Attach::Window(p as usize) {
                let c = self.data@[p].subwindows@[k];
                assert(self.list_of(a).contains(c));
                assert(old.list_of(a).contains(c));
                let j = old.list_of(a).index_of(c);
                assert(old.kid_ok(p, j));
                assert(self.data@[c as int].parent == old.data@[c as int].parent);
            } else {
                assert(self.data@[p].subwindows@ == old.data@[p].subwindows@);
                assert(old.kid_ok(p, k));
                let c = old.data@[p].subwindows@[k];
                assert(self.data@[c as int].parent == old.data@[c as int].parent);
            }
        }
        assert forall|k: int| 0 <= k < self.windows@.len() implies #[trigger] self.top_ok(k) by {
            if a == Attach::Host {
                let c = self.windows@[k];
                assert(self.list_of(a).contains(c));
                assert(old.list_of(a).contains(c));
                let j = old.list_of(a).index_of(c);
                assert(old.top_ok(j));
                assert(self.data@[c as int].parent == old.data@[c as int].parent);
            } else {
                assert(old.top_ok(k));
                let c = old.windows@[k];
                assert(self.data@[c as int].parent == old.data@[c as int].parent);
            }
        }
        assert forall|p: int| 0 <= p < self.data@.len() implies (
        #[trigger] self.data@[p]).subwindows@.no_duplicates() by {
            if a == Attach::Window(p as usize) {
                assert(self.list_of(a) == self.data@[p].subwindows@);
            } else {
                assert(self.data@[p].subwindows@ == old.data@[p].subwindows@);
            }
        }
        assert(self.windows@.no_duplicates()) by {
            if a == Attach::Host {
                assert(self.list_of(a) == self.windows@);
            }
        }
    }
}

impl WindowsHost {
    /// The window `id` left the list of the place `a` and hangs nowhere;
    /// the other windows hang where they did.
    proof fn lemma_unlisted(&self, old: &WindowsHost, a: Attach, id: usize)
        requires
            old.wf(),
            id < old.data@.len(),
            a != Attach::Unattached,
            a matches Attach::Window(p) ==> p < old.data@.len(),
            self.rank@ == old.rank@,
            self.bound@ == old.bound@,
            self.data@.len() == old.data@.len(),
            self.data@[id as int].parent == Attach::Unattached,
            forall|i: int| 0 <= i < self.data@.len() ==> (#[trigger] self.data@[i]).wf(),
            forall|i: int|
                0 <= i < self.data@.len() && i != id ==> (#[trigger] self.data@[i]).parent
                    == old.data@[i].parent,
            forall|i: int|
                0 <= i < self.data@.len() && a != Attach::Window(i as usize) ==> (
                #[trigger] self.data@[i]).subwindows@ == old.data@[i].subwindows@,
            a != Attach::Host ==> self.windows@ == old.windows@,
            self.list_of(a).no_duplicates(),
            forall|x: usize|
                self.list_of(a).contains(x) == (x != id && old.list_of(a).contains(x)),
            forall|b: Attach|
                b != a && (b matches Attach::Window(p) ==> p < old.data@.len()) ==> !old.list_of(b).contains(id),
        ensures
            self.wf(),
    {
        assert forall|i: int| 0 <= i < self.data@.len() implies #[trigger] self.hangs_ok(i) by {
            assert(old.hangs_ok(i));
            if i != id {
                assert(self.data@[i].parent == old.data@[i].parent);
                match self.data@[i].parent {
                    Attach::Window(p) => {
                        if a == Attach::Window(p) {
                            assert(old.list_of(a).contains(i as usize));
                        } else {
                            assert(self.data@[p as int].subwindows@ == old.data@[p as int].subwindows@);
                        }
                    },
                    Attach::Host => {
                        if a == Attach::Host {
                            assert(old.list_of(a).contains(i as usize));
                        }
                    },
                    Attach::Unattached => {},
                }
            }
        }
        assert forall|p: int, k: int|
            0 <= p < self.data@.len() && 0 <= k < self.data@[p].subwindows@.len()
                implies #[trigger] self.kid_ok(p, k) by {
            let c = self.data@[p].subwindows@[k];
            if a == Attach::Window(p as usize) {
                assert(self.list_of(a).contains(c));
                let j = old.list_of(a).index_of(c);
                assert(old.kid_ok(p, j));
            } else {
                assert(self.data@[p].subwindows@ == old.data@[p].subwindows@);
                assert(old.kid_ok(p, k));
                assert(old.list_of(Attach::Window(p as usize)).contains(c));
            }
            assert(self.data@[c as int].parent == old.data@[c as int].parent);
        }
        assert forall|k: int| 0 <= k < self.windows@.len() implies #[trigger] self.top_ok(k) by {
            let c = self.windows@[k];
            if a == Attach::Host {
                assert(self.list_of(a).contains(c));
                let j = old.list_of(a).index_of(c);
                assert(old.top_ok(j));
            } else {
                assert(old.top_ok(k));
                assert(old.list_of(Attach::Host).contains(c));
            }
            assert(self.data@[c as int].parent == old.data@[c as int].parent);
        }
        assert forall|p: int| 0 <= p < self.data@.len() implies (
        #[trigger] self.data@[p]).subwindows@.no_duplicates() by {
            if a == Attach::Window(p as usize) {
                assert(self.list_of(a) == self.data@[p].subwindows@);
            } else {
                assert(self.data@[p].subwindows@ == old.data@[p].subwindows@);
            }
        }
        assert(self.windows@.no_duplicates()) by {
            if a == Attach::Host {
                assert(self.list_of(a) == self.windows@);
            }
        }
    }

    /// A window stands in the list of the place it hangs at and in no other.
    proof fn lemma_one_list(&self, id: usize, b: Attach)
        requires
            self.wf(),
            id < self.data@.len(),
            b matches Attach::Window(p) ==> p < self.data@.len(),
            self.list_of(b).contains(id),
        ensures
            self.data@[id as int].parent == b,
    {
        let k = self.list_of(b).index_of(id);
        match b {
            Attach::Window(p) => {
                assert(self.kid_ok(p as int, k));
            },
            Attach::Host => {
                assert(self.top_ok(k));
            },
            Attach::Unattached => {},
        }
    }
}

impl Window {
    /// Takes the window out of the list it hangs in, after its bounds
    /// became empty, which makes its former bounds invalid on the screen.
    /// Returns `false`, and changes nothing, where the window hangs nowhere.
    pub fn detach_core(&self, host: &mut WindowsHost) -> (done: bool)
        requires
            old(host).wf(),
            old(host).owns(self),
        ensures
            final(host).wf(),
            done == (old(host).window(self.index()).attach() != Attach::Unattached),
            done ==> final(host).without(old(host), self.index()),
            !done ==> *final(host) == *old(host),
    {
        let id = self.id;
        proof {
            assert(host.hangs_ok(id as int));
        }
        let at = host.data[id].parent;
        if let Attach::Unattached = at {
            return false;
        }
        self.set_bounds(host, Rect::empty());
        let ghost before = *host;
        let ghost list = before.list_of(at);
        proof {
            assert(before.hangs_ok(id as int));
            assert(list.no_duplicates());
            assert(list.contains(id));
            assert(list == old(host).list_of(at));
            assert forall|b: Attach|
                b != at && (b matches Attach::Window(p) ==> p < before.data@.len())
                    implies !before.list_of(b).contains(id) by {
                if before.list_of(b).contains(id) {
                    before.lemma_one_list(id, b);
                }
            }
        }
        match at {
            Attach::Window(p) => {
                if let Some(k) = position(&host.data[p].subwindows, id) {
                    proof {
                        lemma_list_place(list, k as int);
                        lemma_list_remove(list, k as int);
                    }
                    host.data[p].subwindows.remove(k);
                }
            },
            _ => {
                if let Some(k) = position(&host.windows, id) {
                    proof {
                        lemma_list_place(list, k as int);
                        lemma_list_remove(list, k as int);
                    }
                    host.windows.remove(k);
                }
            },
        }
        host.data[id].parent = Attach::Unattached;
        proof {
            assert forall|i: int| 0 <= i < host.data@.len() implies (#[trigger] host.data@[i]).wf() by {
                assert(before.data@[i].wf());
            }
            host.lemma_unlisted(&before, at, id);
        }
        true
    }

    /// Takes the window, which hangs somewhere, out of the list it hangs in.
    pub fn detach(&self, host: &mut WindowsHost)
        requires
            old(host).wf(),
            old(host).owns(self),
            old(host).window(self.index()).attach() != Attach::Unattached,
        ensures
            final(host).wf(),
            final(host).without(old(host), self.index()),
    {
        self.detach_core(host);
    }

    /// Gives the window up: it is taken out of the list it hangs in, if
    /// any. Returns whether it hung somewhere.
    pub fn close(self, host: &mut WindowsHost) -> (done: bool)
        requires
            old(host).wf(),
            old(host).owns(&self),
        ensures
            final(host).wf(),
            done == (old(host).window(self.index()).attach() != Attach::Unattached),
            done ==> final(host).without(old(host), self.index()),
            !done ==> *final(host) == *old(host),
    {
        self.detach_core(host)
    }
}

impl WindowsHost {
    /// The state of a host after the window `w`, which hung somewhere in
    /// `old`, was taken out of the list it hung in: the window hangs
    /// nowhere, its bounds and its grid are empty, and its former bounds
    /// are invalid on the screen; the list holds the others in their
    /// order; all else is as in `old`.
    pub open spec fn without(&self, old: &WindowsHost, w: int) -> bool {
        let a = old.window(w).attach();
        let list = old.list_of(a);
        &&& self.count() == old.count()
        &&& self.window(w).attach() == Attach::Unattached
        &&& self.window(w).bounds_model() is None
        &&& self.window(w).invalid_model() is None
        &&& self.window(w).grid() == Seq::<Seq<Texel>>::empty()
        &&& self.window(w).children() == old.window(w).children()
        &&& forall|i: int| 0 <= i < old.count() && i != w ==> #[trigger] self.same_content(old, i)
        &&& self.invalid_model() == area_invalidated(
            old.invalid_model(),
            old.window(w).bounds_model(),
            old.origin_of(a),
        )
        &&& self.list_of(a) == list.remove(list.index_of(w as usize))
        &&& forall|b: Attach|
            b != a && (b matches Attach::Window(p) ==> p < old.count()) ==> self.list_of(b)
                == old.list_of(b)
    }

    /// The state of a host after the window `w` was taken out of the list
    /// it hung in, if it hung in one.
    pub open spec fn unhung(&self, old: &WindowsHost, w: int) -> bool {
        if old.window(w).attach() == Attach::Unattached {
            *self == *old
        } else {
            self.wf() && self.without(old, w)
        }
    }

    /// The state of a host after the window `w`, which hung nowhere in
    /// `old`, was put in front of the subwindows of the window `p` and then
    /// got `bounds`, if any, as its bounds.
    pub open spec fn hung(&self, old: &WindowsHost, w: int, p: int, bounds: Option<Rect>) -> bool {
        match bounds {
            Some(r) => exists|at: WindowsHost|
                at.wf() && #[trigger] at.hung_under(old, w, p) && self.rebounded(&at, w, r@),
            None => self.hung_under(old, w, p),
        }
    }
}

/// What compositing some windows, and what hangs under them, yields.
pub struct TreeFrame {
    /// The windows that were composited, in the order in which they are
    /// drawn.
    pub visited: Seq<usize>,
    /// For each of these windows the cells to write, in order.
    pub scans: Seq<Seq<CellWrite>>,
    /// The part of the screen that is to be redrawn, grown by what these
    /// windows had invalid.
    pub invalid: Option<Area>,
}

/// The cells of each scan, as sequences.
pub open spec fn scans_of(v: Seq<Vec<CellWrite>>) -> Seq<Seq<CellWrite>> {
    Seq::new(v.len(), |i: int| v[i]@)
}

impl WindowsHost {
    /// A number that is greater than `room_below` of every window.
    pub closed spec fn depth_limit(&self) -> nat {
        self.bound@ + 1
    }

    /// A number that is smaller for a window than for the window it hangs
    /// under. Compositing goes down the forest by it.
    pub closed spec fn room_below(&self, w: usize) -> nat {
        if w < self.rank@.len() && self.rank@[w as int] < self.bound@ {
            (self.bound@ - self.rank@[w as int]) as nat
        } else {
            0
        }
    }

    /// Compositing the window `w` and what hangs under it into `crop`, with
    /// the origin of the window's coordinates at `(origin_y, origin_x)`.
    /// The subwindows are composited into the window's viewport, back to
    /// front. The origin of their coordinates is the corner of the
    /// window's bounds, also where that corner lies outside the viewport:
    /// the place of a window on the screen is the sum of the corners of
    /// the bounds above it, for compositing as for invalidation.
    pub open spec fn frame_of(
        &self,
        w: usize,
        crop: Option<Area>,
        origin_y: int,
        origin_x: int,
        invalid: Option<Area>,
    ) -> TreeFrame
        decreases 2 * self.room_below(w) + 1, 0nat,
    {
        if w >= self.count() {
            TreeFrame { visited: Seq::empty(), scans: Seq::empty(), invalid }
        } else {
            let d = self.window(w as int);
            let m = d.frame_in(crop, origin_y, origin_x, invalid);
            let sub = match m.viewport {
                None => TreeFrame { visited: Seq::empty(), scans: Seq::empty(), invalid: m.invalid },
                Some(v) => self.frame_list(
                    d.children(),
                    0,
                    self.room_below(w),
                    m.viewport,
                    origin_y + d.bounds_model()->0.top,
                    origin_x + d.bounds_model()->0.left,
                    m.invalid,
                ),
            };
            TreeFrame {
                visited: seq![w] + sub.visited,
                scans: seq![m.cells] + sub.scans,
                invalid: sub.invalid,
            }
        }
    }

    /// Compositing the windows of `list` from the place `from` on, back to
    /// front, each with what hangs under it.
    pub open spec fn frame_list(
        &self,
        list: Seq<usize>,
        from: nat,
        limit: nat,
        crop: Option<Area>,
        origin_y: int,
        origin_x: int,
        invalid: Option<Area>,
    ) -> TreeFrame
        decreases 2 * limit, list.len() - from,
    {
        if from >= list.len() {
            TreeFrame { visited: Seq::empty(), scans: Seq::empty(), invalid }
        } else {
            let first = if self.room_below(list[from as int]) < limit {
                self.frame_of(list[from as int], crop, origin_y, origin_x, invalid)
            } else {
                TreeFrame { visited: Seq::empty(), scans: Seq::empty(), invalid }
            };
            let rest = self.frame_list(list, from + 1, limit, crop, origin_y, origin_x, first.invalid);
            TreeFrame {
                visited: first.visited + rest.visited,
                scans: first.scans + rest.scans,
                invalid: rest.invalid,
            }
        }
    }

    /// Compositing every window that hangs under the host into a screen of
    /// the given size.
    pub open spec fn frame_model(&self, height: int, width: int) -> TreeFrame {
        self.frame_list(
            self.top(),
            0,
            self.depth_limit(),
            area_tlhw(0, 0, height, width),
            0,
            0,
            self.invalid_model(),
        )
    }

    fn collect(
        &self,
        w: usize,
        crop: &Rect,
        origin_y: i128,
        origin_x: i128,
        invalid: &mut Rect,
        scans: &mut Vec<Vec<CellWrite>>,
        visited: &mut Vec<usize>,
    )
        requires
            self.wf(),
            w < self.count(),
            2 * isize::MIN <= origin_y <= 2 * isize::MAX,
            2 * isize::MIN <= origin_x <= 2 * isize::MAX,
        ensures
            ({
                let f = self.frame_of(w, crop@, origin_y as int, origin_x as int, old(invalid)@);
                &&& final(invalid)@ == f.invalid
                &&& final(visited)@ == old(visited)@ + f.visited
                &&& scans_of(final(scans)@) == scans_of(old(scans)@) + f.scans
            }),
        decreases 2 * self.room_below(w) + 1, 0nat,
    {
        proof {
            assert(self.data@[w as int].wf());
        }
        let (viewport, cells, y, x) = self.data[w].peek(crop, origin_y, origin_x, invalid);
        let ghost m = self.data@[w as int].frame_in(
            crop@,
            origin_y as int,
            origin_x as int,
            old(invalid)@,
        );
        scans.push(cells);
        visited.push(w);
        let ghost scans1 = scans@;
        let ghost visited1 = visited@;
        assert(scans_of(scans1) =~= scans_of(old(scans)@) + seq![m.cells]);
        assert(visited1 =~= old(visited)@ + seq![w]);
        if viewport.loc().is_some() {
            proof {
                assert forall|k: int| 0 <= k < self.data@[w as int].subwindows@.len() implies (
                #[trigger] self.data@[w as int].subwindows@[k]) < self.data@.len()
                    && self.room_below(self.data@[w as int].subwindows@[k]) < self.room_below(w) by {
                    assert(self.kid_ok(w as int, k));
                    let c = self.data@[w as int].subwindows@[k];
                    assert(self.hangs_ok(c as int));
                }
            }
            self.collect_list(
                &self.data[w].subwindows,
                0,
                Ghost(self.room_below(w)),
                &viewport,
                y,
                x,
                invalid,
                scans,
                visited,
            );
            proof {
                let sub = self.frame_list(
                    self.data@[w as int].subwindows@,
                    0,
                    self.room_below(w),
                    m.viewport,
                    y as int,
                    x as int,
                    m.invalid,
                );
                assert(scans_of(scans@) =~= scans_of(old(scans)@) + (seq![m.cells] + sub.scans));
                assert(visited@ =~= old(visited)@ + (seq![w] + sub.visited));
            }
        } else {
            proof {
                assert(scans_of(scans@) =~= scans_of(old(scans)@) + (seq![m.cells]
                    + Seq::<Seq<CellWrite>>::empty()));
                assert(visited@ =~= old(visited)@ + (seq![w] + Seq::<usize>::empty()));
            }
        }
    }

    fn collect_list(
        &self,
        list: &Vec<usize>,
        from: usize,
        limit: Ghost<nat>,
        crop: &Rect,
        origin_y: i128,
        origin_x: i128,
        invalid: &mut Rect,
        scans: &mut Vec<Vec<CellWrite>>,
        visited: &mut Vec<usize>,
    )
        requires
            self.wf(),
            from <= list@.len(),
            2 * isize::MIN <= origin_y <= 2 * isize::MAX,
            2 * isize::MIN <= origin_x <= 2 * isize::MAX,
            forall|k: int|
                0 <= k < list@.len() ==> (#[trigger] list@[k]) < self.count() && self.room_below(list@[k]) < limit@,
        ensures
            ({
                let f = self.frame_list(
                    list@,
                    from as nat,
                    limit@,
                    crop@,
                    origin_y as int,
                    origin_x as int,
                    old(invalid)@,
                );
                &&& final(invalid)@ == f.invalid
                &&& final(visited)@ == old(visited)@ + f.visited
                &&& scans_of(final(scans)@) == scans_of(old(scans)@) + f.scans
            }),
        decreases 2 * limit@, list@.len() - from,
    {
        if from >= list.len() {
            proof {
                assert(scans_of(scans@) =~= scans_of(old(scans)@) + Seq::<Seq<CellWrite>>::empty());
                assert(visited@ =~= old(visited)@ + Seq::<usize>::empty());
            }
            return ;
        }
        let w = list[from];
        let ghost first = self.frame_of(w, crop@, origin_y as int, origin_x as int, old(invalid)@);
        self.collect(w, crop, origin_y, origin_x, invalid, scans, visited);
        let ghost scans1 = scans@;
        let ghost visited1 = visited@;
        self.collect_list(list, from + 1, limit, crop, origin_y, origin_x, invalid, scans, visited);
        proof {
            let rest = self.frame_list(
                list@,
                (from + 1) as nat,
                limit@,
                crop@,
                origin_y as int,
                origin_x as int,
                first.invalid,
            );
            assert(scans_of(scans@) =~= scans_of(old(scans)@) + (first.scans + rest.scans));
            assert(visited@ =~= old(visited)@ + (first.visited + rest.visited));
        }
    }

    /// The state of a host after what `old` held was composited into a
    /// screen of the given size: nothing of the screen is to be redrawn, no
    /// window that was composited has an invalid part, and all else is as
    /// it was.
    pub open spec fn composited(&self, old: &WindowsHost, height: int, width: int) -> bool {
        &&& self.invalid_model() is None
        &&& self.count() == old.count()
        &&& self.top() == old.top()
        &&& forall|i: int|
            0 <= i < old.count() ==> {
                &&& (#[trigger] self.window(i)).attach() == old.window(i).attach()
                &&& self.window(i).children() == old.window(i).children()
                &&& self.window(i).bounds_model() == old.window(i).bounds_model()
                &&& self.window(i).grid() == old.window(i).grid()
                &&& self.window(i).invalid_model() == if old.frame_model(height, width).visited.contains(
                    i as usize,
                ) {
                    None
                } else {
                    old.window(i).invalid_model()
                }
            }
    }

    /// Composites every window that hangs under the host into a screen of
    /// the given size. Returns, for each window that was composited, the
    /// cells to write, in the order in which the windows are drawn. Nothing
    /// of the screen is to be redrawn afterwards, and no composited window
    /// has an invalid part.
    pub fn frame(&mut self, height: isize, width: isize) -> (scans: Vec<Vec<CellWrite>>)
        requires
            old(self).wf(),
        ensures
            final(self).wf(),
            scans_of(scans@) == old(self).frame_model(height as int, width as int).scans,
            final(self).composited(old(self), height as int, width as int),
    {
        let mut scans: Vec<Vec<CellWrite>> = Vec::new();
        let mut visited: Vec<usize> = Vec::new();
        let mut invalid = self.invalid;
        let crop = Rect::tlhw(0, 0, height, width);
        proof {
            assert forall|k: int| 0 <= k < self.windows@.len() implies (#[trigger] self.windows@[k])
                < self.count() && self.room_below(self.windows@[k]) < self.bound@ + 1 by {
                assert(self.top_ok(k));
            }
            assert(scans_of(scans@) =~= Seq::<Seq<CellWrite>>::empty());
        }
        self.collect_list(
            &self.windows,
            0,
            Ghost(self.bound@ + 1),
            &crop,
            0,
            0,
            &mut invalid,
            &mut scans,
            &mut visited,
        );
        let ghost f = self.frame_model(height as int, width as int);
        proof {
            assert(scans_of(scans@) =~= f.scans);
            assert(visited@ =~= f.visited);
            self.lemma_visited(
                self.windows@,
                0,
                self.bound@ + 1,
                crop@,
                0,
                0,
                self.invalid@,
            );
        }
        self.invalid = Rect::empty();
        let mut k: usize = 0;
        while k < visited.len()
            invariant
                old(self).wf(),
                k <= visited.len(),
                visited@ == f.visited,
                forall|j: int| 0 <= j < visited@.len() ==> (#[trigger] visited@[j]) < old(self).count(),
                self.rank@ == old(self).rank@,
                self.bound@ == old(self).bound@,
                self.windows@ == old(self).windows@,
                self.invalid@ is None,
                self.data@.len() == old(self).data@.len(),
                forall|i: int|
                    0 <= i < self.data@.len() ==> {
                        &&& (#[trigger] self.data@[i]).parent == old(self).data@[i].parent
                        &&& self.data@[i].subwindows@ == old(self).data@[i].subwindows@
                        &&& self.data@[i].bounds == old(self).data@[i].bounds
                        &&& self.data@[i].content == old(self).data@[i].content
                        &&& self.data@[i].wf()
                        &&& self.data@[i].invalid@ == if visited@.subrange(0, k as int).contains(
                            i as usize,
                        ) {
                            None
                        } else {
                            old(self).data@[i].invalid@
                        }
                    },
            decreases visited.len() - k,
        {
            let w = visited[k];
            let ghost before = visited@.subrange(0, k as int);
            let ghost after = visited@.subrange(0, k + 1);
            proof {
                assert(after =~= before.push(w));
                assert forall|x: usize| after.contains(x) == (x == w || before.contains(x)) by {
                    if before.contains(x) {
                        let j = before.index_of(x);
                        assert(after[j] == x);
                    }
                    if x == w {
                        assert(after[k as int] == w);
                    }
                    if after.contains(x) {
                        let j = after.index_of(x);
                        if j < k {
                            assert(before[j] == x);
                        }
                    }
                }
            }
            self.data[w].invalid = Rect::empty();
            k = k + 1;
        }
        proof {
            assert(visited@.subrange(0, k as int) =~= visited@);
            self.lemma_tree_kept(old(self));
        }
        scans
    }

    /// The windows that compositing visits are windows of the host.
    proof fn lemma_visited(
        &self,
        list: Seq<usize>,
        from: nat,
        limit: nat,
        crop: Option<Area>,
        origin_y: int,
        origin_x: int,
        invalid: Option<Area>,
    )
        requires
            self.wf(),
        ensures
            forall|j: int|
                0 <= j < self.frame_list(
                    list,
                    from,
                    limit,
                    crop,
                    origin_y,
                    origin_x,
                    invalid,
                ).visited.len() ==> (#[trigger] self.frame_list(
                    list,
                    from,
                    limit,
                    crop,
                    origin_y,
                    origin_x,
                    invalid,
                ).visited[j]) < self.count(),
        decreases 2 * limit, list.len() - from,
    {
        if from < list.len() {
            let w = list[from as int];
            let first = if self.room_below(w) < limit {
                self.frame_of(w, crop, origin_y, origin_x, invalid)
            } else {
                TreeFrame { visited: Seq::empty(), scans: Seq::empty(), invalid }
            };
            if self.room_below(w) < limit && w < self.data@.len() {
                let d = self.data@[w as int];
                let m = d.frame_in(crop, origin_y, origin_x, invalid);
                if let Some(v) = m.viewport {
                    self.lemma_visited(
                        d.subwindows@,
                        0,
                        self.room_below(w),
                        m.viewport,
                        origin_y + d.bounds_model()->0.top,
                        origin_x + d.bounds_model()->0.left,
                        m.invalid,
                    );
                }
            }
            self.lemma_visited(list, from + 1, limit, crop, origin_y, origin_x, first.invalid);
        }
    }
}

/// What a repaint did: the size of the screen that was composited into, and
/// the number of windows whose writes the driver cut short by failing one.
#[derive(Debug, Clone, Copy, PartialEq, Eq)]
pub struct Painted {
    pub height: isize,
    pub width: isize,
    pub failed: usize,
}

/// Whether `after` is what the screen `before` can be after a repaint of
/// what `host` holds came to `r`. Where it succeeded, the screen told the
/// size, and the cells of each window that is composited into a screen of
/// that size were written to it, window after window in the order in which
/// they are drawn, with as many of them cut short as `r` says. Where it
/// failed, the screen did not tell its height or its width, and nothing was
/// written to it.
pub open spec fn repainted<S: Scr>(host: &WindowsHost, before: &S, after: &S, r: Result<Painted, ()>) -> bool {
    match r {
        Ok(p) => {
            &&& before.tells_height(Ok(p.height))
            &&& before.tells_width(Ok(p.width))
            &&& blitted_all(
                before,
                after,
                host.frame_model(p.height as int, p.width as int).scans,
                p.failed as int,
            )
        },
        Err(_) => {
            &&& *after == *before
            &&& before.tells_height(Err(())) || before.tells_width(Err(()))
        },
    }
}

impl WindowsHost {
    /// Repaints the screen: asks the driver for its size, composites every
    /// window that hangs under the host, and writes the cells of each window
    /// up to the first write that the driver fails. Nothing is presented:
    /// that is left to the caller. Fails, and changes nothing, where the
    /// driver does not tell its size.
    pub fn scr<S: Scr>(&mut self, s: &mut S) -> (r: Result<Painted, ()>)
        requires
            old(self).wf(),
        ensures
            final(self).wf(),
            match r {
                Ok(p) => final(self).composited(old(self), p.height as int, p.width as int)
                    && p.failed <= old(self).frame_model(p.height as int, p.width as int).scans.len(),
                Err(_) => *final(self) == *old(self),
            },
            repainted(old(self), old(s), final(s), r),
    {
        let height = match s.get_height() {
            Ok(h) => h,
            Err(e) => {
                proof {
                    assert(e == ());
                }
                return Err(());
            },
        };
        let width = match s.get_width() {
            Ok(w) => w,
            Err(e) => {
                proof {
                    assert(e == ());
                }
                return Err(());
            },
        };
        let scans = self.frame(height, width);
        let mut failed: usize = 0;
        let mut k: usize = 0;
        proof {
            assert(scans_of(scans@).subrange(0, 0) =~= Seq::<Seq<CellWrite>>::empty());
        }
        while k < scans.len()
            invariant
                k <= scans.len(),
                failed <= k,
                blitted_all(old(s), s, scans_of(scans@).subrange(0, k as int), failed as int),
            decreases scans.len() - k,
        {
            let ghost mid = *s;
            let ghost cut = failed;
            let complete = blit(s, &scans[k]);
            if !complete {
                failed = failed + 1;
            }
            proof {
                let part = scans_of(scans@).subrange(0, k + 1);
                assert(part.drop_last() =~= scans_of(scans@).subrange(0, k as int));
                assert(part.last() == scans@[k as int]@);
                assert(blitted(&mid, s, part.last(), complete));
                assert(blitted_all(old(s), &mid, part.drop_last(), cut as int));
            }
            k = k + 1;
        }
        proof {
            assert(scans_of(scans@).subrange(0, k as int) =~= scans_of(scans@));
        }
        Ok(Painted { height, width, failed })
    }
}

/// The screen after the cells were written to it in order: a cell holds
/// what was written to it last.
pub open spec fn painted(screen: Map<(int, int), Texel>, cells: Seq<CellWrite>) -> Map<
    (int, int),
    Texel,
>
    decreases cells.len(),
{
    if cells.len() == 0 {
        screen
    } else {
        painted(screen, cells.drop_last()).insert(
            (cells.last().y as int, cells.last().x as int),
            cells.last().texel,
        )
    }
}

/// The screen after the scans were written to it in order.
pub open spec fn painted_all(screen: Map<(int, int), Texel>, scans: Seq<Seq<CellWrite>>) -> Map<
    (int, int),
    Texel,
>
    decreases scans.len(),
{
    if scans.len() == 0 {
        screen
    } else {
        painted(painted_all(screen, scans.drop_last()), scans.last())
    }
}

/// Where the place of `r` on the screen, and the rectangle grown by it, fit
/// machine coordinates, what is invalid afterwards is the smallest
/// rectangle that encloses what was invalid and `r` at its place, not
/// clipped.
pub proof fn law_invalidated_union(invalid: Option<Area>, r: Option<Area>, y: isize, x: isize)
    requires
        area_fits(area_offset(r, y as int, x as int)),
        area_fits(area_union(invalid, area_offset(r, y as int, x as int))),
    ensures
        area_invalidated(invalid, r, Origin::At(y, x)) == area_union(
            invalid,
            area_offset(r, y as int, x as int),
        ),
{
}

/// After a window whose corner's origin lies at `(y, x)` on the screen got
/// new bounds, the invalid part of the screen is the smallest rectangle
/// that encloses what was invalid, the old bounds and the new bounds, both
/// at their place, wherever these rectangles fit machine coordinates.
pub proof fn law_bounds_invalidate(
    new: &WindowsHost,
    old: &WindowsHost,
    w: int,
    bounds: Option<Area>,
    y: isize,
    x: isize,
)
    requires
        new.rebounded(old, w, bounds),
        old.origin_of(old.window(w).attach()) == Origin::At(y, x),
        area_fits(area_offset(old.window(w).bounds_model(), y as int, x as int)),
        area_fits(area_offset(bounds, y as int, x as int)),
        area_fits(
            area_union(old.invalid_model(), area_offset(old.window(w).bounds_model(), y as int, x as int)),
        ),
        area_fits(
            area_union(
                area_union(
                    old.invalid_model(),
                    area_offset(old.window(w).bounds_model(), y as int, x as int),
                ),
                area_offset(bounds, y as int, x as int),
            ),
        ),
    ensures
        new.invalid_model() == area_union(
            area_union(
                old.invalid_model(),
                area_offset(old.window(w).bounds_model(), y as int, x as int),
            ),
            area_offset(bounds, y as int, x as int),
        ),
{
}

/// Whether one of the cells is written at `(y, x)`.
pub open spec fn writes_at(cells: Seq<CellWrite>, y: int, x: int) -> bool {
    exists|k: int| 0 <= k < cells.len() && (#[trigger] cells[k]).y == y && cells[k].x == x
}

/// Cells that are not written keep what they held.
pub proof fn law_painted_elsewhere(screen: Map<(int, int), Texel>, cells: Seq<CellWrite>, y: int, x: int)
    requires
        !writes_at(cells, y, x),
    ensures
        painted(screen, cells).dom().contains((y, x)) == screen.dom().contains((y, x)),
        painted(screen, cells)[(y, x)] == screen[(y, x)],
    decreases cells.len(),
{
    if cells.len() > 0 {
        let rest = cells.drop_last();
        assert(cells[cells.len() - 1] == cells.last());
        assert(!writes_at(rest, y, x)) by {
            if writes_at(rest, y, x) {
                let k = choose|k: int| 0 <= k < rest.len() && (#[trigger] rest[k]).y == y && rest[k].x
                    == x;
                assert(cells[k] == rest[k]);
            }
        }
        law_painted_elsewhere(screen, rest, y, x);
    }
}

/// A cell that is written holds what the last write to it wrote.
pub proof fn law_painted_last(screen: Map<(int, int), Texel>, cells: Seq<CellWrite>, k: int)
    requires
        0 <= k < cells.len(),
        forall|j: int| k < j < cells.len() ==> !((#[trigger] cells[j]).y == cells[k].y && cells[j].x
            == cells[k].x),
    ensures
        painted(screen, cells).dom().contains((cells[k].y as int, cells[k].x as int)),
        painted(screen, cells)[(cells[k].y as int, cells[k].x as int)] == cells[k].texel,
    decreases cells.len(),
{
    let rest = cells.drop_last();
    if k < cells.len() - 1 {
        assert(cells[cells.len() - 1] == cells.last());
        assert(rest[k] == cells[k]);
        assert forall|j: int| k < j < rest.len() implies !((#[trigger] rest[j]).y == rest[k].y
            && rest[j].x == rest[k].x) by {
            assert(rest[j] == cells[j]);
        }
        law_painted_last(screen, rest, k);
    }
}

/// Where scans overlap, the later one wins: a cell that the scan `b`
/// writes, and no later scan, holds what the scan `b` wrote to it last.
pub proof fn law_later_scan_wins(
    screen: Map<(int, int), Texel>,
    scans: Seq<Seq<CellWrite>>,
    b: int,
    k: int,
)
    requires
        0 <= b < scans.len(),
        0 <= k < scans[b].len(),
        forall|j: int|
            k < j < scans[b].len() ==> !((#[trigger] scans[b][j]).y == scans[b][k].y && scans[b][j].x
                == scans[b][k].x),
        forall|c: int|
            b < c < scans.len() ==> !writes_at(
                #[trigger] scans[c],
                scans[b][k].y as int,
                scans[b][k].x as int,
            ),
    ensures
        painted_all(screen, scans)[(scans[b][k].y as int, scans[b][k].x as int)] == scans[b][k].texel,
    decreases scans.len(),
{
    let rest = scans.drop_last();
    if b == scans.len() - 1 {
        law_painted_last(painted_all(screen, rest), scans.last(), k);
    } else {
        assert(rest[b] == scans[b]);
        assert forall|c: int| b < c < rest.len() implies !writes_at(
            #[trigger] rest[c],
            scans[b][k].y as int,
            scans[b][k].x as int,
        ) by {
            assert(rest[c] == scans[c]);
        }
        law_later_scan_wins(screen, rest, b, k);
        assert(scans[scans.len() - 1] == scans.last());
        law_painted_elsewhere(
            painted_all(screen, rest),
            scans.last(),
            scans[b][k].y as int,
            scans[b][k].x as int,
        );
    }
}

/// Every cell of a scan of a region writes, at a place of the region, what
/// the grid holds there.
pub proof fn law_scan_cells(grid: Seq<Seq<Texel>>, y0: int, x0: int, region: Option<Area>, k: int)
    requires
        area_fits(region),
        0 <= k < scan_region(grid, y0, x0, region).len(),
    ensures
        ({
            let cell = scan_region(grid, y0, x0, region)[k];
            &&& area_has(region, cell.y as int, cell.x as int)
            &&& cell.texel == grid[cell.y - y0][cell.x - x0]
        }),
{
    let v = region->0;
    lemma_scan_rows(grid, y0, x0, v, v.height, k);
}

proof fn lemma_scan_rows(grid: Seq<Seq<Texel>>, y0: int, x0: int, v: Area, n: int, k: int)
    requires
        area_fits(Some(v)),
        0 <= n <= v.height,
        0 <= k < scan_rows(grid, y0, x0, v, n).len(),
    ensures
        scan_rows(grid, y0, x0, v, n).len() == n * v.width,
        ({
            let cell = scan_rows(grid, y0, x0, v, n)[k];
            &&& v.top <= cell.y < v.top + n
            &&& v.left <= cell.x < v.left + v.width
            &&& cell.texel == grid[cell.y - y0][cell.x - x0]
        }),
    decreases n,
{
    lemma_scan_len(grid, y0, x0, v, n);
    if n > 0 {
        lemma_scan_len(grid, y0, x0, v, n - 1);
        let above = scan_rows(grid, y0, x0, v, n - 1);
        if k < above.len() {
            lemma_scan_rows(grid, y0, x0, v, n - 1, k);
        }
    }
}

proof fn lemma_scan_len(grid: Seq<Seq<Texel>>, y0: int, x0: int, v: Area, n: int)
    requires
        0 <= n,
        0 <= v.width,
    ensures
        scan_rows(grid, y0, x0, v, n).len() == n * v.width,
    decreases n,
{
    if n > 0 {
        lemma_scan_len(grid, y0, x0, v, n - 1);
        assert(n * v.width == (n - 1) * v.width + v.width) by (nonlinear_arith);
    } else {
        assert(0 * v.width == 0) by (nonlinear_arith);
    }
}

/// A scan of a region writes every cell of the region.
pub proof fn law_scan_covers(
    grid: Seq<Seq<Texel>>,
    y0: int,
    x0: int,
    region: Option<Area>,
    y: int,
    x: int,
)
    requires
        area_fits(region),
        area_has(region, y, x),
    ensures
        writes_at(scan_region(grid, y0, x0, region), y, x),
{
    let v = region->0;
    lemma_scan_covers(grid, y0, x0, v, v.height, y, x);
}

proof fn lemma_scan_covers(grid: Seq<Seq<Texel>>, y0: int, x0: int, v: Area, n: int, y: int, x: int)
    requires
        area_fits(Some(v)),
        0 <= n <= v.height,
        v.top <= y < v.top + n,
        v.left <= x < v.left + v.width,
    ensures
        writes_at(scan_rows(grid, y0, x0, v, n), y, x),
    decreases n,
{
    let all = scan_rows(grid, y0, x0, v, n);
    let above = scan_rows(grid, y0, x0, v, n - 1);
    if y < v.top + n - 1 {
        lemma_scan_covers(grid, y0, x0, v, n - 1, y, x);
        let k = choose|k: int| 0 <= k < above.len() && (#[trigger] above[k]).y == y && above[k].x == x;
        assert(all[k] == above[k]);
    } else {
        let row = scan_row(grid, y0, x0, y, v.left, v.width);
        let j = x - v.left;
        assert(row[j].y == y && row[j].x == x);
        assert(all[above.len() + j] == row[j]);
    }
}

impl WindowsHost {
    /// Compositing a window visits the window first.
    proof fn lemma_window_first(
        &self,
        w: usize,
        crop: Option<Area>,
        origin_y: int,
        origin_x: int,
        invalid: Option<Area>,
    )
        requires
            w < self.count(),
        ensures
            self.frame_of(w, crop, origin_y, origin_x, invalid).visited.len() >= 1,
            self.frame_of(w, crop, origin_y, origin_x, invalid).visited[0] == w,
            self.frame_of(w, crop, origin_y, origin_x, invalid).scans.len() == self.frame_of(
                w,
                crop,
                origin_y,
                origin_x,
                invalid,
            ).visited.len(),
    {
        let d = self.data@[w as int];
        let m = d.frame_in(crop, origin_y, origin_x, invalid);
        if let Some(v) = m.viewport {
            self.lemma_scans_match(
                d.subwindows@,
                0,
                self.room_below(w),
                m.viewport,
                origin_y + d.bounds_model()->0.top,
                origin_x + d.bounds_model()->0.left,
                m.invalid,
            );
        }
    }

    /// Compositing yields one scan for each window that it visits.
    proof fn lemma_scans_match(
        &self,
        list: Seq<usize>,
        from: nat,
        limit: nat,
        crop: Option<Area>,
        origin_y: int,
        origin_x: int,
        invalid: Option<Area>,
    )
        ensures
            self.frame_list(list, from, limit, crop, origin_y, origin_x, invalid).scans.len()
                == self.frame_list(list, from, limit, crop, origin_y, origin_x, invalid).visited.len(),
        decreases 2 * limit, list.len() - from,
    {
        if from < list.len() {
            let w = list[from as int];
            let first = if self.room_below(w) < limit {
                self.frame_of(w, crop, origin_y, origin_x, invalid)
            } else {
                TreeFrame { visited: Seq::empty(), scans: Seq::empty(), invalid }
            };
            if self.room_below(w) < limit && w < self.data@.len() {
                let d = self.data@[w as int];
                let m = d.frame_in(crop, origin_y, origin_x, invalid);
                if let Some(v) = m.viewport {
                    self.lemma_scans_match(
                        d.subwindows@,
                        0,
                        self.room_below(w),
                        m.viewport,
                        origin_y + d.bounds_model()->0.top,
                        origin_x + d.bounds_model()->0.left,
                        m.invalid,
                    );
                }
            }
            self.lemma_scans_match(list, from + 1, limit, crop, origin_y, origin_x, first.invalid);
        }
    }

    /// Compositing a list visits each of its windows from `from` on.
    proof fn lemma_list_visits(
        &self,
        list: Seq<usize>,
        from: nat,
        limit: nat,
        crop: Option<Area>,
        origin_y: int,
        origin_x: int,
        invalid: Option<Area>,
        k: int,
    ) -> (at: int)
        requires
            from <= k < list.len(),
            forall|i: int|
                from <= i < list.len() ==> (#[trigger] list[i]) < self.count() && self.room_below(list[i])
                    < limit,
        ensures
            0 <= at < self.frame_list(list, from, limit, crop, origin_y, origin_x, invalid).visited.len(),
            self.frame_list(list, from, limit, crop, origin_y, origin_x, invalid).visited[at] == list[k],
        decreases list.len() - from,
    {
        let w = list[from as int];
        let first = self.frame_of(w, crop, origin_y, origin_x, invalid);
        self.lemma_window_first(w, crop, origin_y, origin_x, invalid);
        if k == from {
            0
        } else {
            let rest = self.lemma_list_visits(
                list,
                from + 1,
                limit,
                crop,
                origin_y,
                origin_x,
                first.invalid,
                k,
            );
            first.visited.len() + rest
        }
    }

    /// The windows of a list are drawn in the order of the list, each with
    /// what hangs under it: a window that stands later in the list is
    /// visited later, and so is its scan written later.
    pub proof fn law_drawn_in_list_order(
        &self,
        list: Seq<usize>,
        from: nat,
        limit: nat,
        crop: Option<Area>,
        origin_y: int,
        origin_x: int,
        invalid: Option<Area>,
        i: int,
        j: int,
    ) -> (at: (int, int))
        requires
            from <= i < j < list.len(),
            forall|k: int|
                from <= k < list.len() ==> (#[trigger] list[k]) < self.count() && self.room_below(list[k])
                    < limit,
        ensures
            ({
                let f = self.frame_list(list, from, limit, crop, origin_y, origin_x, invalid);
                &&& f.scans.len() == f.visited.len()
                &&& 0 <= at.0 < at.1 < f.visited.len()
                &&& f.visited[at.0] == list[i]
                &&& f.visited[at.1] == list[j]
            }),
        decreases list.len() - from,
    {
        self.lemma_scans_match(list, from, limit, crop, origin_y, origin_x, invalid);
        let w = list[from as int];
        let first = self.frame_of(w, crop, origin_y, origin_x, invalid);
        self.lemma_window_first(w, crop, origin_y, origin_x, invalid);
        if i == from {
            let rest = self.lemma_list_visits(
                list,
                from + 1,
                limit,
                crop,
                origin_y,
                origin_x,
                first.invalid,
                j,
            );
            (0, first.visited.len() + rest)
        } else {
            let rest = self.law_drawn_in_list_order(
                list,
                from + 1,
                limit,
                crop,
                origin_y,
                origin_x,
                first.invalid,
                i,
                j,
            );
            (first.visited.len() + rest.0, first.visited.len() + rest.1)
        }
    }

    /// Whether the window `w`, composited into `crop` with the origin of
    /// its coordinates at `(origin_y, origin_x)`, shows the cell `(y, x)` of
    /// the screen: the cell lies in its bounds at their place, and in
    /// `crop`.
    pub open spec fn shows(
        &self,
        w: usize,
        crop: Option<Area>,
        origin_y: int,
        origin_x: int,
        y: int,
        x: int,
    ) -> bool {
        area_has(
            area_inters(area_offset(self.window(w as int).bounds_model(), origin_y, origin_x), crop),
            y,
            x,
        )
    }

    /// Whether the cells write to the cell `(y, x)` of the screen what the
    /// grid of the window `w` holds for it, the origin of the window's
    /// coordinates being at `(origin_y, origin_x)`.
    pub open spec fn draws(
        &self,
        cells: Seq<CellWrite>,
        w: usize,
        origin_y: int,
        origin_x: int,
        y: int,
        x: int,
    ) -> bool {
        self.window(w as int).bounds_model() matches Some(b) && exists|k: int|
            0 <= k < cells.len() && (#[trigger] cells[k]).y == y && cells[k].x == x && cells[k].texel
                == self.window(w as int).grid()[y - origin_y - b.top][x - origin_x - b.left]
    }

    /// A window that shows a cell that is to be redrawn draws it.
    proof fn lemma_draws(
        &self,
        w: usize,
        crop: Option<Area>,
        origin_y: int,
        origin_x: int,
        invalid: Option<Area>,
        y: int,
        x: int,
    )
        requires
            self.wf(),
            w < self.count(),
            area_fits(crop),
            area_has(invalid, y, x),
            area_has(area_everything(), y, x),
            self.shows(w, crop, origin_y, origin_x, y, x),
        ensures
            self.draws(
                self.window(w as int).frame_in(crop, origin_y, origin_x, invalid).cells,
                w,
                origin_y,
                origin_x,
                y,
                x,
            ),
    {
        let d = self.window(w as int);
        assert(self.data@[w as int].wf());
        d.lemma_wf();
        let b = d.bounds_model()->0;
        let m = d.frame_in(crop, origin_y, origin_x, invalid);
        let y0 = origin_y + b.top;
        let x0 = origin_x + b.left;
        assert(area_has(m.invalid, y, x));
        let region = area_inters(m.viewport, m.invalid);
        assert(area_has(region, y, x));
        law_scan_covers(d.grid(), y0, x0, region, y, x);
        let cells = scan_region(d.grid(), y0, x0, region);
        let k = choose|k: int| 0 <= k < cells.len() && (#[trigger] cells[k]).y == y && cells[k].x == x;
        law_scan_cells(d.grid(), y0, x0, region, k);
        assert(m.cells == cells);
        assert(m.cells[k].texel == d.grid()[y - origin_y - b.top][x - origin_x - b.left]);
    }

    /// What is to be redrawn never shrinks while windows are composited: a
    /// cell of the screen plane that is to be redrawn before a window is
    /// composited is so afterwards.
    proof fn lemma_frame_grows(
        &self,
        w: usize,
        crop: Option<Area>,
        origin_y: int,
        origin_x: int,
        invalid: Option<Area>,
        y: int,
        x: int,
    )
        requires
            area_has(invalid, y, x),
            area_has(area_everything(), y, x),
        ensures
            area_has(self.frame_of(w, crop, origin_y, origin_x, invalid).invalid, y, x),
        decreases 2 * self.room_below(w) + 1, 0nat,
    {
        if w < self.count() {
            let d = self.window(w as int);
            let m = d.frame_in(crop, origin_y, origin_x, invalid);
            assert(area_has(m.invalid, y, x));
            if let Some(v) = m.viewport {
                self.lemma_list_grows(
                    d.children(),
                    0,
                    self.room_below(w),
                    m.viewport,
                    origin_y + d.bounds_model()->0.top,
                    origin_x + d.bounds_model()->0.left,
                    m.invalid,
                    y,
                    x,
                );
            }
        }
    }

    proof fn lemma_list_grows(
        &self,
        list: Seq<usize>,
        from: nat,
        limit: nat,
        crop: Option<Area>,
        origin_y: int,
        origin_x: int,
        invalid: Option<Area>,
        y: int,
        x: int,
    )
        requires
            area_has(invalid, y, x),
            area_has(area_everything(), y, x),
        ensures
            area_has(self.frame_list(list, from, limit, crop, origin_y, origin_x, invalid).invalid, y, x),
        decreases 2 * limit, list.len() - from,
    {
        if from < list.len() {
            let w = list[from as int];
            let first = if self.room_below(w) < limit {
                self.frame_of(w, crop, origin_y, origin_x, invalid)
            } else {
                TreeFrame { visited: Seq::empty(), scans: Seq::empty(), invalid }
            };
            if self.room_below(w) < limit {
                self.lemma_frame_grows(w, crop, origin_y, origin_x, invalid, y, x);
            }
            self.lemma_list_grows(list, from + 1, limit, crop, origin_y, origin_x, first.invalid, y, x);
        }
    }

    /// Where the scan of the window at the place `i` of a list stands
    /// among the scans, and what was to be redrawn when the window was
    /// composited, which holds the cell `(y, x)` if it did at the start.
    proof fn lemma_list_scan(
        &self,
        list: Seq<usize>,
        from: nat,
        limit: nat,
        crop: Option<Area>,
        origin_y: int,
        origin_x: int,
        invalid: Option<Area>,
        i: int,
        y: int,
        x: int,
    ) -> (r: (int, Option<Area>))
        requires
            from <= i < list.len(),
            forall|k: int|
                from <= k < list.len() ==> (#[trigger] list[k]) < self.count() && self.room_below(list[k])
                    < limit,
            area_has(invalid, y, x),
            area_has(area_everything(), y, x),
        ensures
            ({
                let f = self.frame_list(list, from, limit, crop, origin_y, origin_x, invalid);
                &&& f.scans.len() == f.visited.len()
                &&& 0 <= r.0 < f.scans.len()
                &&& f.visited[r.0] == list[i]
                &&& f.scans[r.0] == self.window(list[i] as int).frame_in(crop, origin_y, origin_x, r.1).cells
                &&& area_has(r.1, y, x)
            }),
        decreases list.len() - from,
    {
        self.lemma_scans_match(list, from, limit, crop, origin_y, origin_x, invalid);
        let w = list[from as int];
        let first = self.frame_of(w, crop, origin_y, origin_x, invalid);
        self.lemma_window_first(w, crop, origin_y, origin_x, invalid);
        if i == from {
            (0, invalid)
        } else {
            self.lemma_frame_grows(w, crop, origin_y, origin_x, invalid, y, x);
            let rest = self.lemma_list_scan(
                list,
                from + 1,
                limit,
                crop,
                origin_y,
                origin_x,
                first.invalid,
                i,
                y,
                x,
            );
            (first.visited.len() + rest.0, rest.1)
        }
    }

    /// Of two windows of one list that both show a cell of the screen that
    /// is to be redrawn, the later one is drawn over the earlier one: the
    /// scans of both write the cell, each what the grid of its window
    /// holds there, and the scan of the window that stands later in the
    /// list comes later.
    pub proof fn law_later_window_drawn_over(
        &self,
        list: Seq<usize>,
        from: nat,
        limit: nat,
        crop: Option<Area>,
        origin_y: int,
        origin_x: int,
        invalid: Option<Area>,
        i: int,
        j: int,
        y: int,
        x: int,
    ) -> (at: (int, int))
        requires
            self.wf(),
            from <= i < j < list.len(),
            forall|k: int|
                from <= k < list.len() ==> (#[trigger] list[k]) < self.count() && self.room_below(list[k])
                    < limit,
            area_fits(crop),
            area_within(crop, area_everything()),
            area_has(invalid, y, x),
            self.shows(list[i], crop, origin_y, origin_x, y, x),
            self.shows(list[j], crop, origin_y, origin_x, y, x),
        ensures
            ({
                let f = self.frame_list(list, from, limit, crop, origin_y, origin_x, invalid);
                &&& 0 <= at.0 < at.1 < f.scans.len()
                &&& f.visited[at.0] == list[i]
                &&& f.visited[at.1] == list[j]
                &&& self.draws(f.scans[at.0], list[i], origin_y, origin_x, y, x)
                &&& self.draws(f.scans[at.1], list[j], origin_y, origin_x, y, x)
            }),
        decreases list.len() - from,
    {
        self.lemma_scans_match(list, from, limit, crop, origin_y, origin_x, invalid);
        let w = list[from as int];
        let first = self.frame_of(w, crop, origin_y, origin_x, invalid);
        self.lemma_window_first(w, crop, origin_y, origin_x, invalid);
        if i == from {
            self.lemma_frame_grows(w, crop, origin_y, origin_x, invalid, y, x);
            let rest = self.lemma_list_scan(
                list,
                from + 1,
                limit,
                crop,
                origin_y,
                origin_x,
                first.invalid,
                j,
                y,
                x,
            );
            self.lemma_draws(list[i], crop, origin_y, origin_x, invalid, y, x);
            self.lemma_draws(list[j], crop, origin_y, origin_x, rest.1, y, x);
            (0, first.visited.len() + rest.0)
        } else {
            self.lemma_frame_grows(w, crop, origin_y, origin_x, invalid, y, x);
            let rest = self.law_later_window_drawn_over(
                list,
                from + 1,
                limit,
                crop,
                origin_y,
                origin_x,
                first.invalid,
                i,
                j,
                y,
                x,
            );
            (first.visited.len() + rest.0, first.visited.len() + rest.1)
        }
    }

    /// The top-level windows are drawn back to front: of two of them, the
    /// one that stands later in the host's list is visited later, and its
    /// scan is written later.
    pub proof fn law_top_drawn_in_order(&self, height: int, width: int, i: int, j: int) -> (at: (
        int,
        int,
    ))
        requires
            self.wf(),
            0 <= i < j < self.top().len(),
        ensures
            ({
                let f = self.frame_model(height, width);
                &&& f.scans.len() == f.visited.len()
                &&& 0 <= at.0 < at.1 < f.visited.len()
                &&& f.visited[at.0] == self.top()[i]
                &&& f.visited[at.1] == self.top()[j]
            }),
    {
        assert forall|k: int| 0 <= k < self.windows@.len() implies (#[trigger] self.windows@[k])
            < self.count() && self.room_below(self.windows@[k]) < self.bound@ + 1 by {
            assert(self.top_ok(k));
        }
        self.law_drawn_in_list_order(
            self.windows@,
            0,
            self.bound@ + 1,
            area_tlhw(0, 0, height, width),
            0,
            0,
            self.invalid@,
            i,
            j,
        )
    }

    /// Every write of compositing a window, and what hangs under it, goes
    /// to a cell of `crop`.
    proof fn lemma_frame_in_crop(
        &self,
        w: usize,
        crop: Option<Area>,
        origin_y: int,
        origin_x: int,
        invalid: Option<Area>,
        s: int,
        k: int,
    )
        requires
            area_fits(crop),
            0 <= s < self.frame_of(w, crop, origin_y, origin_x, invalid).scans.len(),
            0 <= k < self.frame_of(w, crop, origin_y, origin_x, invalid).scans[s].len(),
        ensures
            ({
                let cell = self.frame_of(w, crop, origin_y, origin_x, invalid).scans[s][k];
                area_has(crop, cell.y as int, cell.x as int)
            }),
        decreases 2 * self.room_below(w) + 1, 0nat,
    {
        if w < self.count() {
            let d = self.window(w as int);
            let m = d.frame_in(crop, origin_y, origin_x, invalid);
            if s == 0 {
                let b = d.bounds_model()->0;
                let region = area_inters(m.viewport, m.invalid);
                law_scan_cells(d.grid(), origin_y + b.top, origin_x + b.left, region, k);
            } else {
                self.lemma_list_in_crop(
                    d.children(),
                    0,
                    self.room_below(w),
                    m.viewport,
                    origin_y + d.bounds_model()->0.top,
                    origin_x + d.bounds_model()->0.left,
                    m.invalid,
                    s - 1,
                    k,
                );
            }
        }
    }

    proof fn lemma_list_in_crop(
        &self,
        list: Seq<usize>,
        from: nat,
        limit: nat,
        crop: Option<Area>,
        origin_y: int,
        origin_x: int,
        invalid: Option<Area>,
        s: int,
        k: int,
    )
        requires
            area_fits(crop),
            0 <= s < self.frame_list(list, from, limit, crop, origin_y, origin_x, invalid).scans.len(),
            0 <= k < self.frame_list(list, from, limit, crop, origin_y, origin_x, invalid).scans[s].len(),
        ensures
            ({
                let cell = self.frame_list(list, from, limit, crop, origin_y, origin_x, invalid).scans[s][k];
                area_has(crop, cell.y as int, cell.x as int)
            }),
        decreases 2 * limit, list.len() - from,
    {
        if from < list.len() {
            let w = list[from as int];
            let first = if self.room_below(w) < limit {
                self.frame_of(w, crop, origin_y, origin_x, invalid)
            } else {
                TreeFrame { visited: Seq::empty(), scans: Seq::empty(), invalid }
            };
            if s < first.scans.len() {
                self.lemma_frame_in_crop(w, crop, origin_y, origin_x, invalid, s, k);
            } else {
                self.lemma_list_in_crop(
                    list,
                    from + 1,
                    limit,
                    crop,
                    origin_y,
                    origin_x,
                    first.invalid,
                    s - first.scans.len(),
                    k,
                );
            }
        }
    }

    /// A repaint writes to cells of the screen only: every write of
    /// compositing the host into a screen of the given size goes to a cell
    /// of that screen.
    pub proof fn law_drawn_on_screen(&self, height: int, width: int, s: int, k: int)
        requires
            height <= isize::MAX,
            width <= isize::MAX,
            0 <= s < self.frame_model(height, width).scans.len(),
            0 <= k < self.frame_model(height, width).scans[s].len(),
        ensures
            ({
                let cell = self.frame_model(height, width).scans[s][k];
                0 <= cell.y < height && 0 <= cell.x < width
            }),
    {
        self.lemma_list_in_crop(
            self.top(),
            0,
            self.depth_limit(),
            area_tlhw(0, 0, height, width),
            0,
            0,
            self.invalid_model(),
            s,
            k,
        );
    }

    /// Of two top-level windows that both show a cell of a screen of the
    /// given size that is to be redrawn, the one that stands later in the
    /// host's list is drawn over the other: a repaint writes the cell for
    /// both, each time what the grid of the window holds there, and for the
    /// later window later.
    pub proof fn law_top_window_drawn_over(
        &self,
        height: int,
        width: int,
        i: int,
        j: int,
        y: int,
        x: int,
    ) -> (at: (int, int))
        requires
            self.wf(),
            0 <= i < j < self.top().len(),
            height <= isize::MAX,
            width <= isize::MAX,
            area_has(self.invalid_model(), y, x),
            self.shows(self.top()[i], area_tlhw(0, 0, height, width), 0, 0, y, x),
            self.shows(self.top()[j], area_tlhw(0, 0, height, width), 0, 0, y, x),
        ensures
            ({
                let f = self.frame_model(height, width);
                &&& 0 <= at.0 < at.1 < f.scans.len()
                &&& f.visited[at.0] == self.top()[i]
                &&& f.visited[at.1] == self.top()[j]
                &&& self.draws(f.scans[at.0], self.top()[i], 0, 0, y, x)
                &&& self.draws(f.scans[at.1], self.top()[j], 0, 0, y, x)
            }),
    {
        assert forall|k: int| 0 <= k < self.windows@.len() implies (#[trigger] self.windows@[k])
            < self.count() && self.room_below(self.windows@[k]) < self.bound@ + 1 by {
            assert(self.top_ok(k));
        }
        self.law_later_window_drawn_over(
            self.windows@,
            0,
            self.bound@ + 1,
            area_tlhw(0, 0, height, width),
            0,
            0,
            self.invalid@,
            i,
            j,
            y,
            x,
        )
    }
}

/// A cell that was written to a window is drawn when the window is
/// composited, where it shows: if the cell `(y, x)` of the grid is invalid,
/// and its place on the screen lies in the window's viewport, then the
/// cells to write hold what the grid holds there, at that place.
pub proof fn law_invalid_cell_is_drawn(
    d: &WindowData,
    crop: Option<Area>,
    origin_y: int,
    origin_x: int,
    invalid: Option<Area>,
    y: int,
    x: int,
)
    requires
        d.wf(),
        area_fits(crop),
        area_within(crop, area_everything()),
        area_has(d.invalid_model(), y, x),
        d.bounds_model() matches Some(b) && area_has(
            d.frame_in(crop, origin_y, origin_x, invalid).viewport,
            origin_y + b.top + y,
            origin_x + b.left + x,
        ),
    ensures
        ({
            let b = d.bounds_model()->0;
            let cells = d.frame_in(crop, origin_y, origin_x, invalid).cells;
            exists|k: int|
                0 <= k < cells.len() && (#[trigger] cells[k]).y == origin_y + b.top + y && cells[k].x
                    == origin_x + b.left + x && cells[k].texel == d.grid()[y][x]
        }),
{
    d.lemma_wf();
    let b = d.bounds_model()->0;
    let m = d.frame_in(crop, origin_y, origin_x, invalid);
    let y0 = origin_y + b.top;
    let x0 = origin_x + b.left;
    let region = area_inters(m.viewport, m.invalid);
    assert(area_has(region, y0 + y, x0 + x));
    law_scan_covers(d.grid(), y0, x0, region, y0 + y, x0 + x);
    let cells = scan_region(d.grid(), y0, x0, region);
    let k = choose|k: int|
        0 <= k < cells.len() && (#[trigger] cells[k]).y == y0 + y && cells[k].x == x0 + x;
    law_scan_cells(d.grid(), y0, x0, region, k);
    assert(m.cells == cells);
    assert(cells[k].y - y0 == y && cells[k].x - x0 == x);
    assert(m.cells[k].y == origin_y + b.top + y && m.cells[k].x == origin_x + b.left + x
        && m.cells[k].texel == d.grid()[y][x]);
}

} // verus!
