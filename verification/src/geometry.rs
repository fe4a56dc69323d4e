//! Possibly-empty axis-aligned rectangles of character cells.
//!
//! A [`Rect`] is either empty or has a top-left corner and strictly positive
//! extents. Its mathematical model is an `Option<Area>` over unbounded
//! integers; every operation is specified over that model, and the algebraic
//! laws of union and intersection are proved at the end of this module.

use vstd::prelude::*;

verus! {

/// Model of a non-empty rectangle: the cells `(y, x)` with
/// `top <= y < top + height` and `left <= x < left + width`.
pub struct Area {
    pub top: int,
    pub left: int,
    pub height: int,
    pub width: int,
}

impl Area {
    /// First row below the area.
    pub open spec fn bottom(self) -> int {
        self.top + self.height
    }

    /// First column to the right of the area.
    pub open spec fn right(self) -> int {
        self.left + self.width
    }
}

/// Smaller of two integers.
pub open spec fn lo(a: int, b: int) -> int {
    if a <= b {
        a
    } else {
        b
    }
}

/// Larger of two integers.
pub open spec fn hi(a: int, b: int) -> int {
    if a >= b {
        a
    } else {
        b
    }
}

/// The rectangle with the given corner and extents; empty unless both
/// extents are positive.
pub open spec fn area_tlhw(top: int, left: int, height: int, width: int) -> Option<Area> {
    if height <= 0 || width <= 0 {
        None
    } else {
        Some(Area { top, left, height, width })
    }
}

/// The rectangle between two corners; empty unless `top < bottom` and
/// `left < right`.
pub open spec fn area_tlbr(top: int, left: int, bottom: int, right: int) -> Option<Area> {
    if bottom <= top || right <= left {
        None
    } else {
        Some(Area { top, left, height: bottom - top, width: right - left })
    }
}

/// Whether the cell `(y, x)` lies in the rectangle.
pub open spec fn area_has(a: Option<Area>, y: int, x: int) -> bool {
    match a {
        None => false,
        Some(v) => v.top <= y < v.bottom() && v.left <= x < v.right(),
    }
}

/// Smallest rectangle that encloses both arguments.
pub open spec fn area_union(a: Option<Area>, b: Option<Area>) -> Option<Area> {
    match (a, b) {
        (None, _) => b,
        (_, None) => a,
        (Some(v), Some(r)) => {
            let top = lo(v.top, r.top);
            let left = lo(v.left, r.left);
            Some(
                Area {
                    top,
                    left,
                    height: hi(v.bottom(), r.bottom()) - top,
                    width: hi(v.right(), r.right()) - left,
                },
            )
        },
    }
}

/// The common part of both arguments.
pub open spec fn area_inters(a: Option<Area>, b: Option<Area>) -> Option<Area> {
    match (a, b) {
        (Some(v), Some(r)) => area_tlbr(
            hi(v.top, r.top),
            hi(v.left, r.left),
            lo(v.bottom(), r.bottom()),
            lo(v.right(), r.right()),
        ),
        _ => None,
    }
}

/// Smallest rectangle that encloses the argument and the cell `(y, x)`.
pub open spec fn area_include(a: Option<Area>, y: int, x: int) -> Option<Area> {
    area_union(a, Some(Area { top: y, left: x, height: 1, width: 1 }))
}

/// The rectangle moved by `(dy, dx)`.
pub open spec fn area_offset(a: Option<Area>, dy: int, dx: int) -> Option<Area> {
    match a {
        None => None,
        Some(v) => Some(Area { top: v.top + dy, left: v.left + dx, height: v.height, width: v.width }),
    }
}

/// Whether every cell of `a` is a cell of `b`.
pub open spec fn area_within(a: Option<Area>, b: Option<Area>) -> bool {
    match (a, b) {
        (None, _) => true,
        (Some(_), None) => false,
        (Some(v), Some(r)) => r.top <= v.top && v.bottom() <= r.bottom() && r.left <= v.left
            && v.right() <= r.right(),
    }
}

/// Part of the horizontal segment `[x1, x2)` of row `y` that lies in the
/// rectangle, as a half-open column range.
pub open spec fn area_h_line(a: Option<Area>, y: int, x1: int, x2: int) -> Option<(int, int)> {
    match a {
        None => None,
        Some(v) => if y < v.top || y >= v.bottom() || hi(x1, v.left) >= lo(x2, v.right()) {
            None
        } else {
            Some((hi(x1, v.left), lo(x2, v.right())))
        },
    }
}

/// Part of the vertical segment `[y1, y2)` of column `x` that lies in the
/// rectangle, as a half-open row range.
pub open spec fn area_v_line(a: Option<Area>, y1: int, y2: int, x: int) -> Option<(int, int)> {
    match a {
        None => None,
        Some(v) => if x < v.left || x >= v.right() || hi(y1, v.top) >= lo(y2, v.bottom()) {
            None
        } else {
            Some((hi(y1, v.top), lo(y2, v.bottom())))
        },
    }
}

/// Whether a model rectangle can be held in machine coordinates: extents are
/// positive and fit in `isize`, and so do the corner and both far edges.
pub open spec fn area_fits(a: Option<Area>) -> bool {
    match a {
        None => true,
        Some(v) => {
            &&& isize::MIN <= v.top
            &&& isize::MIN <= v.left
            &&& 0 < v.height <= isize::MAX
            &&& 0 < v.width <= isize::MAX
            &&& v.bottom() <= isize::MAX
            &&& v.right() <= isize::MAX
        },
    }
}

/// The whole plane of screen coordinates that a rectangle can hold: every
/// cell with non-negative coordinates below `isize::MAX`.
pub open spec fn area_everything() -> Option<Area> {
    Some(Area { top: 0, left: 0, height: isize::MAX as int, width: isize::MAX as int })
}

/// Union that is defined for all arguments: the smallest rectangle that
/// encloses both, or the whole screen plane where that one cannot be held
/// in machine coordinates.
pub open spec fn area_join(a: Option<Area>, b: Option<Area>) -> Option<Area> {
    if area_fits(area_union(a, b)) {
        area_union(a, b)
    } else {
        area_everything()
    }
}

/// Whether cell `(y1, x1)` comes before cell `(y2, x2)` in row-major order.
pub open spec fn cell_before(y1: int, x1: int, y2: int, x2: int) -> bool {
    y1 < y2 || (y1 == y2 && x1 < x2)
}

#[derive(Debug, Clone, Copy, PartialEq, Eq)]
struct RectValue {
    top: isize,
    left: isize,
    height: isize,
    width: isize,
}

impl RectValue {
    fn bottom(&self) -> (r: isize)
        requires
            self.top + self.height <= isize::MAX,
            self.height >= 0,
        ensures
            r == self.top + self.height,
    {
        self.top + self.height
    }

    fn right(&self) -> (r: isize)
        requires
            self.left + self.width <= isize::MAX,
            self.width >= 0,
        ensures
            r == self.left + self.width,
    {
        self.left + self.width
    }
}

/// A possibly-empty rectangle of cells in machine coordinates.
#[derive(Debug, Clone, Copy, PartialEq, Eq)]
pub struct Rect {
    val: Option<RectValue>,
}

fn min_of(a: isize, b: isize) -> (r: isize)
    ensures
        r == lo(a as int, b as int),
{
    if a <= b {
        a
    } else {
        b
    }
}

fn max_of(a: isize, b: isize) -> (r: isize)
    ensures
        r == hi(a as int, b as int),
{
    if a >= b {
        a
    } else {
        b
    }
}

impl View for Rect {
    type V = Option<Area>;

    closed spec fn view(&self) -> Option<Area> {
        match self.val {
            None => None,
            Some(v) => Some(
                Area {
                    top: v.top as int,
                    left: v.left as int,
                    height: v.height as int,
                    width: v.width as int,
                },
            ),
        }
    }
}

impl Rect {
    /// Every rectangle held in machine coordinates fits them.
    #[verifier::type_invariant]
    pub open spec fn inv(self) -> bool {
        area_fits(self@)
    }

    /// Two rectangles with the same model are the same value.
    pub proof fn lemma_view_injective(a: Rect, b: Rect)
        requires
            a@ == b@,
        ensures
            a == b,
    {
    }

    /// The empty rectangle.
    pub fn empty() -> (r: Rect)
        ensures
            r@ is None,
    {
        Rect { val: None }
    }

    /// The rectangle with the given top-left corner and extents; empty when
    /// either extent is not positive.
    pub fn tlhw(top: isize, left: isize, height: isize, width: isize) -> (r: Rect)
        requires
            area_fits(area_tlhw(top as int, left as int, height as int, width as int)),
        ensures
            r@ == area_tlhw(top as int, left as int, height as int, width as int),
    {
        Rect {
            val: if height <= 0 || width <= 0 {
                None
            } else {
                Some(RectValue { top, left, height, width })
            },
        }
    }

    /// The rectangle between the top-left corner and the cell past the
    /// bottom-right one; empty when `bottom <= top` or `right <= left`.
    pub fn tlbr(top: isize, left: isize, bottom: isize, right: isize) -> (r: Rect)
        requires
            area_fits(area_tlbr(top as int, left as int, bottom as int, right as int)),
        ensures
            r@ == area_tlbr(top as int, left as int, bottom as int, right as int),
    {
        Rect {
            val: if bottom <= top || right <= left {
                None
            } else {
                Some(RectValue { top, left, height: bottom - top, width: right - left })
            },
        }
    }

    /// Top-left corner, or `None` for the empty rectangle.
    pub fn loc(&self) -> (r: Option<(isize, isize)>)
        ensures
            match self@ {
                None => r is None,
                Some(v) => r == Some((v.top as isize, v.left as isize)) && (r->0).0 == v.top
                    && (r->0).1 == v.left,
            },
    {
        match self.val {
            None => None,
            Some(val) => Some((val.top, val.left)),
        }
    }

    /// Height and width; both zero for the empty rectangle.
    pub fn size(&self) -> (r: (isize, isize))
        ensures
            match self@ {
                None => r == (0isize, 0isize),
                Some(v) => r.0 == v.height && r.1 == v.width,
            },
    {
        match self.val {
            None => (0, 0),
            Some(val) => (val.height, val.width),
        }
    }

    /// Whether the rectangle has no cell.
    pub fn is_empty(&self) -> (r: bool)
        ensures
            r == (self@ is None),
    {
        self.val.is_none()
    }

    /// Whether the cell `(y, x)` lies in the rectangle.
    pub fn contains(&self, y: isize, x: isize) -> (r: bool)
        ensures
            r == area_has(self@, y as int, x as int),
    {
        proof {
            use_type_invariant(self);
        }
        match self.val {
            None => false,
            Some(val) => y >= val.top && x >= val.left && y < val.bottom() && x < val.right(),
        }
    }

    /// Grows the rectangle to the smallest one that still holds its cells
    /// and the cell `(y, x)`; the empty rectangle becomes that single cell.
    pub fn include_cell(&mut self, y: isize, x: isize)
        requires
            area_fits(area_include(old(self)@, y as int, x as int)),
        ensures
            final(self)@ == area_include(old(self)@, y as int, x as int),
    {
        proof {
            use_type_invariant(&*self);
        }
        let next = match self.val {
            Some(val) => {
                let top = min_of(val.top, y);
                let left = min_of(val.left, x);
                let bottom = max_of(val.bottom(), y + 1);
                let right = max_of(val.right(), x + 1);
                RectValue { top, left, height: bottom - top, width: right - left }
            },
            None => RectValue { top: y, left: x, height: 1, width: 1 },
        };
        self.val = Some(next);
    }

    /// Moves a non-empty rectangle by `(dy, dx)`; the empty one stays empty.
    pub fn offset(&mut self, dy: isize, dx: isize)
        requires
            area_fits(area_offset(old(self)@, dy as int, dx as int)),
        ensures
            final(self)@ == area_offset(old(self)@, dy as int, dx as int),
    {
        proof {
            use_type_invariant(&*self);
        }
        if let Some(val) = self.val {
            self.val = Some(
                RectValue {
                    top: val.top + dy,
                    left: val.left + dx,
                    height: val.height,
                    width: val.width,
                },
            );
        }
    }

    /// Replaces the rectangle by the smallest one enclosing it and `r`.
    pub fn union(&mut self, r: Rect)
        requires
            area_fits(area_union(old(self)@, r@)),
        ensures
            final(self)@ == area_union(old(self)@, r@),
    {
        proof {
            use_type_invariant(&*self);
            use_type_invariant(&r);
        }
        if let Some(r) = r.val {
            if let Some(val) = self.val {
                let top = min_of(val.top, r.top);
                let left = min_of(val.left, r.left);
                let bottom = max_of(val.bottom(), r.bottom());
                let right = max_of(val.right(), r.right());
                self.val = Some(RectValue { top, left, height: bottom - top, width: right - left });
            } else {
                self.val = Some(r);
            }
        }
    }

    /// The whole plane of screen coordinates.
    pub fn everything() -> (r: Rect)
        ensures
            r@ == area_everything(),
    {
        Rect { val: Some(RectValue { top: 0, left: 0, height: isize::MAX, width: isize::MAX }) }
    }

    /// Replaces the rectangle by the smallest one enclosing it and `r`, or
    /// by the whole screen plane where that one cannot be held.
    pub fn join(&mut self, r: &Rect)
        ensures
            final(self)@ == area_join(old(self)@, r@),
    {
        proof {
            use_type_invariant(&*self);
            use_type_invariant(r);
        }
        if let Some(r) = r.val {
            if let Some(val) = self.val {
                let top = min_of(val.top, r.top);
                let left = min_of(val.left, r.left);
                let bottom = max_of(val.bottom(), r.bottom());
                let right = max_of(val.right(), r.right());
                let height = bottom as i128 - top as i128;
                let width = right as i128 - left as i128;
                if height <= isize::MAX as i128 && width <= isize::MAX as i128 {
                    self.val = Some(
                        RectValue { top, left, height: height as isize, width: width as isize },
                    );
                } else {
                    self.val = Rect::everything().val;
                }
            } else {
                self.val = Some(r);
            }
        }
    }

    /// The part of this rectangle, moved by `(dy, dx)`, that lies in `clip`.
    /// The offsets may be any sum of two machine coordinates.
    pub fn shift_clip(&self, dy: i128, dx: i128, clip: &Rect) -> (res: Rect)
        requires
            2 * isize::MIN <= dy <= 2 * isize::MAX,
            2 * isize::MIN <= dx <= 2 * isize::MAX,
        ensures
            res@ == area_inters(area_offset(self@, dy as int, dx as int), clip@),
    {
        proof {
            use_type_invariant(self);
            use_type_invariant(clip);
        }
        match (self.val, clip.val) {
            (Some(val), Some(c)) => {
                let t = val.top as i128 + dy;
                let l = val.left as i128 + dx;
                let b = t + val.height as i128;
                let r = l + val.width as i128;
                let top = if t >= c.top as i128 {
                    t
                } else {
                    c.top as i128
                };
                let left = if l >= c.left as i128 {
                    l
                } else {
                    c.left as i128
                };
                let bottom = if b <= c.bottom() as i128 {
                    b
                } else {
                    c.bottom() as i128
                };
                let right = if r <= c.right() as i128 {
                    r
                } else {
                    c.right() as i128
                };
                if bottom <= top || right <= left {
                    Rect::empty()
                } else {
                    Rect::tlbr(top as isize, left as isize, bottom as isize, right as isize)
                }
            },
            _ => Rect::empty(),
        }
    }

    /// The rectangle moved by `(dy, dx)`, or `None` where the moved
    /// rectangle cannot be held in machine coordinates.
    pub fn shifted(&self, dy: isize, dx: isize) -> (res: Option<Rect>)
        ensures
            res is Some <==> area_fits(area_offset(self@, dy as int, dx as int)),
            res is Some ==> (res->0)@ == area_offset(self@, dy as int, dx as int),
    {
        proof {
            use_type_invariant(self);
        }
        match self.val {
            None => Some(Rect::empty()),
            Some(val) => {
                let t = val.top as i128 + dy as i128;
                let l = val.left as i128 + dx as i128;
                let b = t + val.height as i128;
                let r = l + val.width as i128;
                if t < isize::MIN as i128 || l < isize::MIN as i128 || b > isize::MAX as i128 || r
                    > isize::MAX as i128 {
                    None
                } else {
                    Some(
                        Rect {
                            val: Some(
                                RectValue {
                                    top: t as isize,
                                    left: l as isize,
                                    height: val.height,
                                    width: val.width,
                                },
                            ),
                        },
                    )
                }
            },
        }
    }

    /// The common part of two rectangles.
    pub fn inters_rect(&self, r: &Rect) -> (res: Rect)
        ensures
            res@ == area_inters(self@, r@),
    {
        proof {
            use_type_invariant(self);
            use_type_invariant(r);
        }
        match (self.val, r.val) {
            (Some(val), Some(r)) => Rect::tlbr(
                max_of(val.top, r.top),
                max_of(val.left, r.left),
                min_of(val.bottom(), r.bottom()),
                min_of(val.right(), r.right()),
            ),
            _ => Rect::empty(),
        }
    }

    /// Visits the cells in row-major order, from the top-left one to the
    /// bottom-right one, and stops at the first cell for which `it` returns
    /// a value, which is then returned; `None` when `it` returned `None` for
    /// every cell.
    pub fn scan<F, R>(&self, it: F) -> (res: Option<R>) where F: Fn(isize, isize) -> Option<R>
        requires
            forall|y: isize, x: isize|
                area_has(self@, y as int, x as int) ==> #[trigger] call_requires(it, (y, x)),
        ensures
            match res {
                Some(r) => exists|y: isize, x: isize|
                    {
                        &&& area_has(self@, y as int, x as int)
                        &&& #[trigger] call_ensures(it, (y, x), Some(r))
                        &&& forall|y1: isize, x1: isize|
                            area_has(self@, y1 as int, x1 as int) && cell_before(
                                y1 as int,
                                x1 as int,
                                y as int,
                                x as int,
                            ) ==> #[trigger] call_ensures(it, (y1, x1), None)
                    },
                None => forall|y: isize, x: isize|
                    area_has(self@, y as int, x as int) ==> #[trigger] call_ensures(
                        it,
                        (y, x),
                        None,
                    ),
            },
    {
        proof {
            use_type_invariant(self);
        }
        if let Some(val) = self.val {
            let bottom = val.bottom();
            let right = val.right();
            let mut y = val.top;
            while y < bottom
                invariant
                    self.val == Some(val),
                    bottom == val.top + val.height,
                    right == val.left + val.width,
                    val.width > 0,
                    val.top <= y <= bottom,
                    forall|y: isize, x: isize|
                        area_has(self@, y as int, x as int) ==> #[trigger] call_requires(it, (y, x)),
                    forall|y1: isize, x1: isize|
                        area_has(self@, y1 as int, x1 as int) && y1 < y ==> #[trigger] call_ensures(
                            it,
                            (y1, x1),
                            None,
                        ),
                decreases bottom - y,
            {
                let mut x = val.left;
                while x < right
                    invariant
                        self.val == Some(val),
                        bottom == val.top + val.height,
                        right == val.left + val.width,
                        val.top <= y < bottom,
                        val.left <= x <= right,
                        forall|y: isize, x: isize|
                            area_has(self@, y as int, x as int) ==> #[trigger] call_requires(it, (y, x)),
                        forall|y1: isize, x1: isize|
                            area_has(self@, y1 as int, x1 as int) && cell_before(
                                y1 as int,
                                x1 as int,
                                y as int,
                                x as int,
                            ) ==> #[trigger] call_ensures(it, (y1, x1), None),
                    decreases right - x,
                {
                    assert(area_has(self@, y as int, x as int));
                    if let Some(r) = it(y, x) {
                        return Some(r);
                    }
                    x = x + 1;
                }
                y = y + 1;
            }
        }
        None
    }

    /// Clips the horizontal segment `[x1, x2)` of row `y` to the rectangle.
    pub fn inters_h_line(&self, y: isize, x1: isize, x2: isize) -> (res: Option<(isize, isize)>)
        ensures
            match area_h_line(self@, y as int, x1 as int, x2 as int) {
                None => res is None,
                Some(p) => res is Some && (res->0).0 == p.0 && (res->0).1 == p.1,
            },
    {
        proof {
            use_type_invariant(self);
        }
        match self.val {
            None => None,
            Some(v) => {
                if y < v.top || y >= v.bottom() {
                    return None;
                }
                let x1 = max_of(x1, v.left);
                let x2 = min_of(x2, v.right());
                if x1 >= x2 {
                    None
                } else {
                    Some((x1, x2))
                }
            },
        }
    }

    /// Clips the vertical segment `[y1, y2)` of column `x` to the rectangle.
    pub fn inters_v_line(&self, y1: isize, y2: isize, x: isize) -> (res: Option<(isize, isize)>)
        ensures
            match area_v_line(self@, y1 as int, y2 as int, x as int) {
                None => res is None,
                Some(p) => res is Some && (res->0).0 == p.0 && (res->0).1 == p.1,
            },
    {
        proof {
            use_type_invariant(self);
        }
        match self.val {
            None => None,
            Some(v) => {
                if x < v.left || x >= v.right() {
                    return None;
                }
                let y1 = max_of(y1, v.top);
                let y2 = min_of(y2, v.bottom());
                if y1 >= y2 {
                    None
                } else {
                    Some((y1, y2))
                }
            },
        }
    }
}

/// Union does not depend on the order of its arguments.
pub proof fn law_union_commutative(a: Rect, b: Rect)
    ensures
        area_union(a@, b@) == area_union(b@, a@),
{
}

/// Union may be grouped either way.
pub proof fn law_union_associative(a: Rect, b: Rect, c: Rect)
    ensures
        area_union(area_union(a@, b@), c@) == area_union(a@, area_union(b@, c@)),
{
}

/// Where the union of three rectangles fits machine coordinates, so does
/// the union of any two of them: `union` can then be called in either
/// order and with either grouping, and gives the same rectangle each way.
pub proof fn law_union_fits(a: Rect, b: Rect, c: Rect)
    requires
        a.inv(),
        b.inv(),
        c.inv(),
        area_fits(area_union(area_union(a@, b@), c@)),
    ensures
        area_fits(area_union(a@, b@)),
        area_fits(area_union(b@, a@)),
        area_fits(area_union(b@, c@)),
        area_fits(area_union(a@, area_union(b@, c@))),
        area_union(a@, b@) == area_union(b@, a@),
        area_union(area_union(a@, b@), c@) == area_union(a@, area_union(b@, c@)),
{
}

/// Two rectangles that `union` left, in either order of its arguments, are
/// the same value.
pub proof fn law_union_same(a: Rect, b: Rect, x: Rect, y: Rect)
    requires
        x@ == area_union(a@, b@),
        y@ == area_union(b@, a@),
    ensures
        x == y,
{
    Rect::lemma_view_injective(x, y);
}

/// The empty rectangle is the identity of union.
pub proof fn law_union_identity(a: Rect)
    ensures
        area_union(a@, None) == a@,
        area_union(None, a@) == a@,
{
}

/// Intersection does not depend on the order of its arguments.
pub proof fn law_inters_commutative(a: Rect, b: Rect)
    ensures
        area_inters(a@, b@) == area_inters(b@, a@),
{
}

/// Intersection may be grouped either way.
pub proof fn law_inters_associative(a: Rect, b: Rect, c: Rect)
    ensures
        area_inters(area_inters(a@, b@), c@) == area_inters(a@, area_inters(b@, c@)),
{
}

/// The empty rectangle is the zero of intersection.
pub proof fn law_inters_zero(a: Rect)
    ensures
        area_inters(a@, None) is None,
        area_inters(None, a@) is None,
{
}

/// A cell lies in an intersection exactly when it lies in both rectangles.
pub proof fn law_inters_contains(a: Rect, b: Rect, y: int, x: int)
    ensures
        area_has(area_inters(a@, b@), y, x) <==> area_has(a@, y, x) && area_has(b@, y, x),
{
}

/// A cell lies in the rectangle made from a corner and extents exactly when
/// both of its coordinates lie in the half-open ranges these span.
pub proof fn law_tlhw_contains(top: int, left: int, height: int, width: int, y: int, x: int)
    ensures
        area_has(area_tlhw(top, left, height, width), y, x) <==> top <= y < top + height && left
            <= x < left + width,
{
}

} // verus!
