//! Drawing into a window: single cells, lines, borders, text and filled
//! rectangles. Everything is clipped to the window's area, and what is
//! drawn is stated over a [`Canvas`], the grid of a window with its invalid
//! part.

use crate::geometry::{
    area_fits, area_h_line, area_has, area_inters, area_union, area_v_line, hi, lo, Area, Rect,
};
use crate::scr::{Attr, Color, Texel};
use crate::window::{Window, WindowData, WindowsHost};
use vstd::prelude::*;
use vstd::std_specs::iter::IteratorSpec;

verus! {

/// A symbol of the terminal's alternate character set.
#[derive(Debug, Copy, Clone, PartialEq, Eq, Hash, PartialOrd, Ord)]
pub enum Graph {
    ULCorner,
    URCorner,
    LLCorner,
    LRCorner,
    LTee,
    RTee,
    BTee,
    TTee,
    HLine,
    VLine,
    Plus,
    S1,
    S9,
    Diamond,
    CkBoard,
    Degree,
    PlMinus,
    Bullet,
    LArrow,
    RArrow,
    DArrow,
    UArrow,
    Board,
    Lantern,
    Block,
    S3,
    S7,
    LessEqual,
    GreaterEqual,
    Pi,
    NotEqual,
    Sterling,
}

impl Graph {
    /// The character that selects the symbol in the alternate character
    /// set.
    pub open spec fn spec_code(self) -> char {
        match self {
            Graph::ULCorner => 'l',
            Graph::URCorner => 'k',
            Graph::LLCorner => 'm',
            Graph::LRCorner => 'j',
            Graph::LTee => 't',
            Graph::RTee => 'u',
            Graph::BTee => 'v',
            Graph::TTee => 'w',
            Graph::HLine => 'q',
            Graph::VLine => 'x',
            Graph::Plus => 'n',
            Graph::S1 => 'o',
            Graph::S9 => 's',
            Graph::Diamond => '`',
            Graph::CkBoard => 'a',
            Graph::Degree => 'f',
            Graph::PlMinus => 'g',
            Graph::Bullet => '~',
            Graph::LArrow => ',',
            Graph::RArrow => '+',
            Graph::DArrow => '.',
            Graph::UArrow => '-',
            Graph::Board => 'h',
            Graph::Lantern => 'i',
            Graph::Block => '0',
            Graph::S3 => 'p',
            Graph::S7 => 'r',
            Graph::LessEqual => 'y',
            Graph::GreaterEqual => 'z',
            Graph::Pi => '{',
            Graph::NotEqual => '|',
            Graph::Sterling => '}',
        }
    }

    /// The character that selects the symbol in the alternate character
    /// set.
    pub fn code(self) -> (c: char)
        ensures
            c == self.spec_code(),
    {
        match self {
            Graph::ULCorner => 'l',
            Graph::URCorner => 'k',
            Graph::LLCorner => 'm',
            Graph::LRCorner => 'j',
            Graph::LTee => 't',
            Graph::RTee => 'u',
            Graph::BTee => 'v',
            Graph::TTee => 'w',
            Graph::HLine => 'q',
            Graph::VLine => 'x',
            Graph::Plus => 'n',
            Graph::S1 => 'o',
            Graph::S9 => 's',
            Graph::Diamond => '`',
            Graph::CkBoard => 'a',
            Graph::Degree => 'f',
            Graph::PlMinus => 'g',
            Graph::Bullet => '~',
            Graph::LArrow => ',',
            Graph::RArrow => '+',
            Graph::DArrow => '.',
            Graph::UArrow => '-',
            Graph::Board => 'h',
            Graph::Lantern => 'i',
            Graph::Block => '0',
            Graph::S3 => 'p',
            Graph::S7 => 'r',
            Graph::LessEqual => 'y',
            Graph::GreaterEqual => 'z',
            Graph::Pi => '{',
            Graph::NotEqual => '|',
            Graph::Sterling => '}',
        }
    }
}

/// What can be drawn as one cell. The cell is told twice: by `texel_model`
/// for contracts, and by `texel` for the program.
pub trait ToTexel {
    /// The cell that this is drawn as with the given attributes and
    /// colours.
    spec fn texel_model(&self, attr: Attr, fg: Color, bg: Option<Color>) -> Texel;

    /// The cell that this is drawn as with the given attributes and
    /// colours.
    fn texel(&self, attr: Attr, fg: Color, bg: Option<Color>) -> (t: Texel)
        ensures
            t == self.texel_model(attr, fg, bg),
    ;
}

/// A cell is drawn as it is, whatever the attributes and colours asked for.
impl ToTexel for Texel {
    open spec fn texel_model(&self, attr: Attr, fg: Color, bg: Option<Color>) -> Texel {
        *self
    }

    fn texel(&self, attr: Attr, fg: Color, bg: Option<Color>) -> (t: Texel) {
        *self
    }
}

/// A character is drawn with the attributes and colours asked for.
impl ToTexel for char {
    open spec fn texel_model(&self, attr: Attr, fg: Color, bg: Option<Color>) -> Texel {
        Texel { ch: *self, attr, fg, bg }
    }

    fn texel(&self, attr: Attr, fg: Color, bg: Option<Color>) -> (t: Texel) {
        Texel { ch: *self, attr, fg, bg }
    }
}

/// A symbol is drawn as its character in the alternate character set.
impl ToTexel for Graph {
    open spec fn texel_model(&self, attr: Attr, fg: Color, bg: Option<Color>) -> Texel {
        Texel {
            ch: self.spec_code(),
            attr: Attr { bits: attr.bits | Attr::ALTCHARSET },
            fg,
            bg,
        }
    }

    fn texel(&self, attr: Attr, fg: Color, bg: Option<Color>) -> (t: Texel) {
        Texel { ch: self.code(), attr: attr.union(Attr::altcharset()), fg, bg }
    }
}

/// What drawing changes of a window: its grid and its invalid part.
pub struct Canvas {
    pub grid: Seq<Seq<Texel>>,
    pub invalid: Option<Area>,
}

/// The canvas of a window.
pub open spec fn canvas_of(w: WindowData) -> Canvas {
    Canvas { grid: w.grid(), invalid: w.invalid_model() }
}

/// The canvas with the cell `t` in every cell of `region`, which is then
/// invalid.
pub open spec fn canvas_fill(c: Canvas, region: Option<Area>, t: Texel) -> Canvas {
    Canvas {
        grid: Seq::new(
            c.grid.len(),
            |y: int|
                Seq::new(
                    c.grid[y].len(),
                    |x: int|
                        if area_has(region, y, x) {
                            t
                        } else {
                            c.grid[y][x]
                        },
                ),
        ),
        invalid: area_union(c.invalid, region),
    }
}

/// The part of row `y` between the columns `x1` and `x2` that lies in
/// `area`.
pub open spec fn h_segment(area: Option<Area>, y: int, x1: int, x2: int) -> Option<Area> {
    match area_h_line(area, y, x1, x2) {
        None => None,
        Some(p) => Some(Area { top: y, left: p.0, height: 1, width: p.1 - p.0 }),
    }
}

/// The part of column `x` between the rows `y1` and `y2` that lies in
/// `area`.
pub open spec fn v_segment(area: Option<Area>, y1: int, y2: int, x: int) -> Option<Area> {
    match area_v_line(area, y1, y2, x) {
        None => None,
        Some(p) => Some(Area { top: p.0, left: x, height: p.1 - p.0, width: 1 }),
    }
}

/// The cell `(y, x)` where it lies in `area`.
pub open spec fn dot(area: Option<Area>, y: int, x: int) -> Option<Area> {
    if area_has(area, y, x) {
        Some(Area { top: y, left: x, height: 1, width: 1 })
    } else {
        None
    }
}

/// The cell that a line is drawn with: the given one, or else the symbol
/// `line` of the alternate character set.
pub open spec fn line_texel(
    ch: Option<&dyn ToTexel>,
    line: Graph,
    attr: Attr,
    fg: Color,
    bg: Option<Color>,
) -> Texel {
    match ch {
        Some(t) => t.texel_model(attr, fg, bg),
        None => line.texel_model(attr, fg, bg),
    }
}

/// Whether the window `w` of `new` shows the canvas `c`, and all else is
/// as in `old`.
pub open spec fn shows(new: &WindowsHost, old: &WindowsHost, w: int, c: Canvas) -> bool {
    &&& new.wf()
    &&& new.drawn(old, w)
    &&& canvas_of(new.window(w)) == c
}

/// Filling no cell changes nothing.
proof fn lemma_fill_nothing(c: Canvas, t: Texel)
    ensures
        canvas_fill(c, None, t) == c,
{
    assert(canvas_fill(c, None, t).grid =~~= c.grid);
}

/// Fills the cells of row `y` from column `x1` up to column `x2`, which lie
/// in the window.
fn fill_row(host: &mut WindowsHost, window: &Window, y: isize, x1: isize, x2: isize, t: Texel)
    requires
        old(host).wf(),
        old(host).owns(window),
        x1 <= x2,
        x1 < x2 ==> area_has(old(host).window(window.index()).area_model(), y as int, x1 as int)
            && area_has(old(host).window(window.index()).area_model(), y as int, x2 - 1),
    ensures
        shows(
            final(host),
            old(host),
            window.index(),
            canvas_fill(
                canvas_of(old(host).window(window.index())),
                if x1 < x2 {
                    Some(Area { top: y as int, left: x1 as int, height: 1, width: x2 - x1 })
                } else {
                    None
                },
                t,
            ),
        ),
{
    let ghost before = canvas_of(host.window(window.index()));
    let ghost w = window.index();
    proof {
        host.lemma_wf();
        host.window(w).lemma_wf();
        lemma_fill_nothing(before, t);
    }
    let mut x = x1;
    while x < x2
        invariant
            x1 <= x <= x2,
            w == window.index(),
            old(host).wf(),
            old(host).owns(window),
            x1 < x2 ==> area_has(old(host).window(w).area_model(), y as int, x1 as int),
            x1 < x2 ==> area_has(old(host).window(w).area_model(), y as int, x2 - 1),
            before == canvas_of(old(host).window(w)),
            shows(
                host,
                old(host),
                w,
                canvas_fill(
                    before,
                    if x1 < x {
                        Some(Area { top: y as int, left: x1 as int, height: 1, width: x - x1 })
                    } else {
                        None
                    },
                    t,
                ),
            ),
        decreases x2 - x,
    {
        let ghost prev = *host;
        proof {
            host.lemma_wf();
            host.window(w).lemma_wf();
            old(host).lemma_wf();
            old(host).window(w).lemma_wf();
        }
        window.out(host, y, x, t);
        proof {
            let done = canvas_fill(
                before,
                Some(Area { top: y as int, left: x1 as int, height: 1, width: x + 1 - x1 }),
                t,
            );
            assert(host.window(w).grid() =~~= done.grid);
            assert forall|i: int| 0 <= i < old(host).count() && i != w implies host.window(i)
                == old(host).window(i) by {
                assert(prev.window(i) == old(host).window(i));
            }
        }
        x = x + 1;
    }
}

/// Fills the cells of `region`, which lies in the window.
fn fill(host: &mut WindowsHost, window: &Window, region: &Rect, t: Texel)
    requires
        old(host).wf(),
        old(host).owns(window),
        area_inters(region@, old(host).window(window.index()).area_model()) == region@,
    ensures
        shows(
            final(host),
            old(host),
            window.index(),
            canvas_fill(canvas_of(old(host).window(window.index())), region@, t),
        ),
{
    let ghost before = canvas_of(host.window(window.index()));
    let ghost w = window.index();
    proof {
        use_type_invariant(region);
        host.lemma_wf();
        host.window(w).lemma_wf();
        lemma_fill_nothing(before, t);
    }
    if let Some((top, left)) = region.loc() {
        let (height, width) = region.size();
        let bottom = top + height;
        let right = left + width;
        let mut y = top;
        while y < bottom
            invariant
                top <= y <= bottom,
                w == window.index(),
                old(host).wf(),
                old(host).owns(window),
                region@ == Some(
                    Area { top: top as int, left: left as int, height: height as int, width: width as int },
                ),
                area_fits(region@),
                bottom == top + height,
                right == left + width,
                area_inters(region@, old(host).window(w).area_model()) == region@,
                before == canvas_of(old(host).window(w)),
                shows(
                    host,
                    old(host),
                    w,
                    canvas_fill(
                        before,
                        if top < y {
                            Some(
                                Area {
                                    top: top as int,
                                    left: left as int,
                                    height: y - top,
                                    width: width as int,
                                },
                            )
                        } else {
                            None
                        },
                        t,
                    ),
                ),
            decreases bottom - y,
        {
            let ghost prev = *host;
            proof {
                old(host).lemma_wf();
                old(host).window(w).lemma_wf();
            }
            fill_row(host, window, y, left, right, t);
            proof {
                let done = canvas_fill(
                    before,
                    Some(
                        Area {
                            top: top as int,
                            left: left as int,
                            height: y + 1 - top,
                            width: width as int,
                        },
                    ),
                    t,
                );
                assert(host.window(w).grid() =~~= done.grid);
                assert forall|i: int| 0 <= i < old(host).count() && i != w implies host.window(i)
                    == old(host).window(i) by {
                    assert(prev.window(i) == old(host).window(i));
                }
            }
            y = y + 1;
        }
    }
}

/// Draws one cell, where it lies in the window.
pub fn draw_texel(
    host: &mut WindowsHost,
    window: &Window,
    y: isize,
    x: isize,
    t: &dyn ToTexel,
    attr: Attr,
    fg: Color,
    bg: Option<Color>,
)
    requires
        old(host).wf(),
        old(host).owns(window),
    ensures
        shows(
            final(host),
            old(host),
            window.index(),
            canvas_fill(
                canvas_of(old(host).window(window.index())),
                dot(old(host).window(window.index()).area_model(), y as int, x as int),
                t.texel_model(attr, fg, bg),
            ),
        ),
{
    proof {
        host.lemma_wf();
        host.window(window.index()).lemma_wf();
    }
    if window.area(host).contains(y, x) {
        fill_row(host, window, y, x, x + 1, t.texel(attr, fg, bg));
    } else {
        proof {
            lemma_fill_nothing(canvas_of(host.window(window.index())), t.texel_model(attr, fg, bg));
        }
    }
}

/// Draws the cells of row `y` from column `x1` up to column `x2`, where
/// they lie in the window, with `ch` or else with the horizontal line
/// symbol.
pub fn draw_h_line(
    host: &mut WindowsHost,
    window: &Window,
    y: isize,
    x1: isize,
    x2: isize,
    ch: Option<&dyn ToTexel>,
    attr: Attr,
    fg: Color,
    bg: Option<Color>,
)
    requires
        old(host).wf(),
        old(host).owns(window),
    ensures
        shows(
            final(host),
            old(host),
            window.index(),
            canvas_fill(
                canvas_of(old(host).window(window.index())),
                h_segment(old(host).window(window.index()).area_model(), y as int, x1 as int, x2 as int),
                line_texel(ch, Graph::HLine, attr, fg, bg),
            ),
        ),
{
    proof {
        host.lemma_wf();
        host.window(window.index()).lemma_wf();
    }
    let t = match ch {
        Some(c) => c.texel(attr, fg, bg),
        None => Graph::HLine.texel(attr, fg, bg),
    };
    match window.area(host).inters_h_line(y, x1, x2) {
        Some((x1, x2)) => {
            fill_row(host, window, y, x1, x2, t);
        },
        None => {
            proof {
                lemma_fill_nothing(canvas_of(host.window(window.index())), t);
            }
        },
    }
}

/// Draws the cells of column `x` from row `y1` up to row `y2`, where they
/// lie in the window, with `ch` or else with the vertical line symbol.
pub fn draw_v_line(
    host: &mut WindowsHost,
    window: &Window,
    y1: isize,
    y2: isize,
    x: isize,
    ch: Option<&dyn ToTexel>,
    attr: Attr,
    fg: Color,
    bg: Option<Color>,
)
    requires
        old(host).wf(),
        old(host).owns(window),
    ensures
        shows(
            final(host),
            old(host),
            window.index(),
            canvas_fill(
                canvas_of(old(host).window(window.index())),
                v_segment(old(host).window(window.index()).area_model(), y1 as int, y2 as int, x as int),
                line_texel(ch, Graph::VLine, attr, fg, bg),
            ),
        ),
{
    proof {
        host.lemma_wf();
        host.window(window.index()).lemma_wf();
    }
    let t = match ch {
        Some(c) => c.texel(attr, fg, bg),
        None => Graph::VLine.texel(attr, fg, bg),
    };
    let region = match window.area(host).inters_v_line(y1, y2, x) {
        Some((y1, y2)) => Rect::tlbr(y1, x, y2, x + 1),
        None => Rect::empty(),
    };
    fill(host, window, &region, t);
}

/// Fills the part of `rect` that lies in the window with one cell.
pub fn fill_rect(
    host: &mut WindowsHost,
    window: &Window,
    rect: &Rect,
    c: &dyn ToTexel,
    attr: Attr,
    fg: Color,
    bg: Option<Color>,
)
    requires
        old(host).wf(),
        old(host).owns(window),
    ensures
        shows(
            final(host),
            old(host),
            window.index(),
            canvas_fill(
                canvas_of(old(host).window(window.index())),
                area_inters(old(host).window(window.index()).area_model(), rect@),
                c.texel_model(attr, fg, bg),
            ),
        ),
{
    let region = window.area(host).inters_rect(rect);
    let t = c.texel(attr, fg, bg);
    fill(host, window, &region, t);
}

/// What the edges and corners of a border are drawn with; what is `None`
/// is not drawn.
pub struct Border<'a> {
    pub upper_left: Option<&'a dyn ToTexel>,
    pub upper_right: Option<&'a dyn ToTexel>,
    pub lower_left: Option<&'a dyn ToTexel>,
    pub lower_right: Option<&'a dyn ToTexel>,
    pub upper: Option<&'a dyn ToTexel>,
    pub lower: Option<&'a dyn ToTexel>,
    pub left: Option<&'a dyn ToTexel>,
    pub right: Option<&'a dyn ToTexel>,
}

impl<'b> Border<'b> {
    /// The border of single lines, drawn with the symbols of the alternate
    /// character set.
    pub open spec fn lines() -> Border<'b> {
        Border {
            upper_left: Some(&Graph::ULCorner),
            upper_right: Some(&Graph::URCorner),
            lower_left: Some(&Graph::LLCorner),
            lower_right: Some(&Graph::LRCorner),
            upper: Some(&Graph::HLine),
            lower: Some(&Graph::HLine),
            left: Some(&Graph::VLine),
            right: Some(&Graph::VLine),
        }
    }

    /// The border of single lines.
    pub fn new() -> (r: Border<'b>)
        ensures
            r == Border::lines(),
    {
        Border {
            upper_left: Some(&Graph::ULCorner),
            upper_right: Some(&Graph::URCorner),
            lower_left: Some(&Graph::LLCorner),
            lower_right: Some(&Graph::LRCorner),
            upper: Some(&Graph::HLine),
            lower: Some(&Graph::HLine),
            left: Some(&Graph::VLine),
            right: Some(&Graph::VLine),
        }
    }

    /// The border without its upper left corner.
    pub fn no_ul(&self) -> (r: Border<'b>)
        ensures
            r == (Border { upper_left: None, ..*self }),
    {
        Border { upper_left: None, ..*self }
    }

    /// The border with the upper left corner drawn with `t`.
    pub fn ul(&self, t: &'b dyn ToTexel) -> (r: Border<'b>)
        ensures
            r == (Border { upper_left: Some(t), ..*self }),
    {
        Border { upper_left: Some(t), ..*self }
    }

    /// The border without its upper right corner.
    pub fn no_ur(&self) -> (r: Border<'b>)
        ensures
            r == (Border { upper_right: None, ..*self }),
    {
        Border { upper_right: None, ..*self }
    }

    /// The border with the upper right corner drawn with `t`.
    pub fn ur(&self, t: &'b dyn ToTexel) -> (r: Border<'b>)
        ensures
            r == (Border { upper_right: Some(t), ..*self }),
    {
        Border { upper_right: Some(t), ..*self }
    }

    /// The border without its lower left corner.
    pub fn no_ll(&self) -> (r: Border<'b>)
        ensures
            r == (Border { lower_left: None, ..*self }),
    {
        Border { lower_left: None, ..*self }
    }

    /// The border with the lower left corner drawn with `t`.
    pub fn ll(&self, t: &'b dyn ToTexel) -> (r: Border<'b>)
        ensures
            r == (Border { lower_left: Some(t), ..*self }),
    {
        Border { lower_left: Some(t), ..*self }
    }

    /// The border without its lower right corner.
    pub fn no_lr(&self) -> (r: Border<'b>)
        ensures
            r == (Border { lower_right: None, ..*self }),
    {
        Border { lower_right: None, ..*self }
    }

    /// The border with the lower right corner drawn with `t`.
    pub fn lr(&self, t: &'b dyn ToTexel) -> (r: Border<'b>)
        ensures
            r == (Border { lower_right: Some(t), ..*self }),
    {
        Border { lower_right: Some(t), ..*self }
    }

    /// The border without its upper edge; the corners stay.
    pub fn no_upper(&self) -> (r: Border<'b>)
        ensures
            r == (Border { upper: None, ..*self }),
    {
        Border { upper: None, ..*self }
    }

    /// The border with the upper edge drawn with `t`.
    pub fn upper(&self, t: &'b dyn ToTexel) -> (r: Border<'b>)
        ensures
            r == (Border { upper: Some(t), ..*self }),
    {
        Border { upper: Some(t), ..*self }
    }

    /// The border without its upper edge and upper corners.
    pub fn no_top(&self) -> (r: Border<'b>)
        ensures
            r == (Border { upper: None, upper_left: None, upper_right: None, ..*self }),
    {
        Border { upper: None, upper_left: None, upper_right: None, ..*self }
    }

    /// The border without its lower edge; the corners stay.
    pub fn no_lower(&self) -> (r: Border<'b>)
        ensures
            r == (Border { lower: None, ..*self }),
    {
        Border { lower: None, ..*self }
    }

    /// The border with the lower edge drawn with `t`.
    pub fn lower(&self, t: &'b dyn ToTexel) -> (r: Border<'b>)
        ensures
            r == (Border { lower: Some(t), ..*self }),
    {
        Border { lower: Some(t), ..*self }
    }

    /// The border without its lower edge and lower corners.
    pub fn no_bottom(&self) -> (r: Border<'b>)
        ensures
            r == (Border { lower: None, lower_left: None, lower_right: None, ..*self }),
    {
        Border { lower: None, lower_left: None, lower_right: None, ..*self }
    }

    /// The border without its left edge; the corners stay.
    pub fn no_left(&self) -> (r: Border<'b>)
        ensures
            r == (Border { left: None, ..*self }),
    {
        Border { left: None, ..*self }
    }

    /// The border with the left edge drawn with `t`.
    pub fn left(&self, t: &'b dyn ToTexel) -> (r: Border<'b>)
        ensures
            r == (Border { left: Some(t), ..*self }),
    {
        Border { left: Some(t), ..*self }
    }

    /// The border without its left edge and left corners.
    pub fn no_left_side(&self) -> (r: Border<'b>)
        ensures
            r == (Border { left: None, upper_left: None, lower_left: None, ..*self }),
    {
        Border { left: None, upper_left: None, lower_left: None, ..*self }
    }

    /// The border without its right edge; the corners stay.
    pub fn no_right(&self) -> (r: Border<'b>)
        ensures
            r == (Border { right: None, ..*self }),
    {
        Border { right: None, ..*self }
    }

    /// The border with the right edge drawn with `t`.
    pub fn right(&self, t: &'b dyn ToTexel) -> (r: Border<'b>)
        ensures
            r == (Border { right: Some(t), ..*self }),
    {
        Border { right: Some(t), ..*self }
    }

    /// The border without its right edge and right corners.
    pub fn no_right_side(&self) -> (r: Border<'b>)
        ensures
            r == (Border { right: None, upper_right: None, lower_right: None, ..*self }),
    {
        Border { right: None, upper_right: None, lower_right: None, ..*self }
    }

    /// Rows that the upper edge and corners take: one, or none where
    /// neither is drawn.
    pub open spec fn top_rows(&self) -> int {
        if self.upper is None && self.upper_left is None && self.upper_right is None {
            0
        } else {
            1
        }
    }

    /// Columns that the left edge and corners take.
    pub open spec fn left_cols(&self) -> int {
        if self.left is None && self.upper_left is None && self.lower_left is None {
            0
        } else {
            1
        }
    }

    /// Rows that the lower edge and corners take.
    pub open spec fn bottom_rows(&self) -> int {
        if self.lower is None && self.lower_left is None && self.lower_right is None {
            0
        } else {
            1
        }
    }

    /// Columns that the right edge and corners take.
    pub open spec fn right_cols(&self) -> int {
        if self.right is None && self.upper_right is None && self.lower_right is None {
            0
        } else {
            1
        }
    }
}

/// The canvas with `region` filled with what `ch` is drawn as, or as it is
/// where `ch` is absent.
pub open spec fn canvas_part(
    c: Canvas,
    region: Option<Area>,
    ch: Option<&dyn ToTexel>,
    attr: Attr,
    fg: Color,
    bg: Option<Color>,
) -> Canvas {
    match ch {
        None => c,
        Some(t) => canvas_fill(c, region, t.texel_model(attr, fg, bg)),
    }
}

/// The canvas of a window with the area `area` after the border was drawn
/// along the inside of `bounds`: first the four edges, between the corners
/// that are drawn, and then the four corners.
pub open spec fn canvas_border(
    c: Canvas,
    area: Option<Area>,
    bounds: Option<Area>,
    border: Border,
    attr: Attr,
    fg: Color,
    bg: Option<Color>,
) -> Canvas {
    match bounds {
        None => c,
        Some(b) => {
            let y = b.top;
            let x = b.left;
            let t = border.top_rows();
            let l = border.left_cols();
            let bt = border.bottom_rows();
            let r = border.right_cols();
            let c1 = canvas_part(c, h_segment(area, y, x + l, x + b.width - r), border.upper, attr, fg, bg);
            let c2 = canvas_part(
                c1,
                h_segment(area, y + b.height - bt, x + l, x + b.width - r),
                border.lower,
                attr,
                fg,
                bg,
            );
            let c3 = canvas_part(c2, v_segment(area, y + t, y + b.height - bt, x), border.left, attr, fg, bg);
            let c4 = canvas_part(
                c3,
                v_segment(area, y + t, y + b.height - bt, x + b.width - r),
                border.right,
                attr,
                fg,
                bg,
            );
            let c5 = canvas_part(c4, dot(area, y, x), border.upper_left, attr, fg, bg);
            let c6 = canvas_part(c5, dot(area, y, x + b.width - 1), border.upper_right, attr, fg, bg);
            let c7 = canvas_part(c6, dot(area, y + b.height - 1, x), border.lower_left, attr, fg, bg);
            canvas_part(
                c7,
                dot(area, y + b.height - 1, x + b.width - 1),
                border.lower_right,
                attr,
                fg,
                bg,
            )
        },
    }
}

/// What was drawn after what was drawn changed nothing but the window.
proof fn lemma_shows_twice(new: &WindowsHost, mid: &WindowsHost, old: &WindowsHost, w: int)
    requires
        new.wf(),
        new.drawn(mid, w),
        mid.drawn(old, w),
    ensures
        new.drawn(old, w),
{
    assert forall|i: int| 0 <= i < old.count() && i != w implies new.window(i) == old.window(i) by {
        assert(mid.window(i) == old.window(i));
    }
}

fn part_h(
    host: &mut WindowsHost,
    window: &Window,
    y: isize,
    x1: isize,
    x2: isize,
    ch: Option<&dyn ToTexel>,
    attr: Attr,
    fg: Color,
    bg: Option<Color>,
)
    requires
        old(host).wf(),
        old(host).owns(window),
    ensures
        shows(
            final(host),
            old(host),
            window.index(),
            canvas_part(
                canvas_of(old(host).window(window.index())),
                h_segment(old(host).window(window.index()).area_model(), y as int, x1 as int, x2 as int),
                ch,
                attr,
                fg,
                bg,
            ),
        ),
{
    if ch.is_some() {
        draw_h_line(host, window, y, x1, x2, ch, attr, fg, bg);
    }
}

fn part_v(
    host: &mut WindowsHost,
    window: &Window,
    y1: isize,
    y2: isize,
    x: isize,
    ch: Option<&dyn ToTexel>,
    attr: Attr,
    fg: Color,
    bg: Option<Color>,
)
    requires
        old(host).wf(),
        old(host).owns(window),
    ensures
        shows(
            final(host),
            old(host),
            window.index(),
            canvas_part(
                canvas_of(old(host).window(window.index())),
                v_segment(old(host).window(window.index()).area_model(), y1 as int, y2 as int, x as int),
                ch,
                attr,
                fg,
                bg,
            ),
        ),
{
    if ch.is_some() {
        draw_v_line(host, window, y1, y2, x, ch, attr, fg, bg);
    }
}

fn part_dot(
    host: &mut WindowsHost,
    window: &Window,
    y: isize,
    x: isize,
    ch: Option<&dyn ToTexel>,
    attr: Attr,
    fg: Color,
    bg: Option<Color>,
)
    requires
        old(host).wf(),
        old(host).owns(window),
    ensures
        shows(
            final(host),
            old(host),
            window.index(),
            canvas_part(
                canvas_of(old(host).window(window.index())),
                dot(old(host).window(window.index()).area_model(), y as int, x as int),
                ch,
                attr,
                fg,
                bg,
            ),
        ),
{
    proof {
        host.lemma_wf();
        host.window(window.index()).lemma_wf();
    }
    if let Some(c) = ch {
        let t = c.texel(attr, fg, bg);
        if window.area(host).contains(y, x) {
            fill_row(host, window, y, x, x + 1, t);
        } else {
            proof {
                lemma_fill_nothing(canvas_of(host.window(window.index())), t);
            }
        }
    }
}

/// Draws a border along the inside of `bounds`, where it lies in the
/// window: the edges and corners that `border` holds. An edge runs between
/// its corners; where neither the corner nor the edge that meets it there
/// is drawn, the edge runs to the end.
pub fn draw_border(
    host: &mut WindowsHost,
    window: &Window,
    bounds: &Rect,
    border: &Border,
    attr: Attr,
    fg: Color,
    bg: Option<Color>,
)
    requires
        old(host).wf(),
        old(host).owns(window),
    ensures
        shows(
            final(host),
            old(host),
            window.index(),
            canvas_border(
                canvas_of(old(host).window(window.index())),
                old(host).window(window.index()).area_model(),
                bounds@,
                *border,
                attr,
                fg,
                bg,
            ),
        ),
{
    proof {
        use_type_invariant(bounds);
    }
    if let Some((y, x)) = bounds.loc() {
        let (height, width) = bounds.size();
        let t: isize = if border.upper.is_none() && border.upper_left.is_none()
            && border.upper_right.is_none() {
            0
        } else {
            1
        };
        let l: isize = if border.left.is_none() && border.upper_left.is_none()
            && border.lower_left.is_none() {
            0
        } else {
            1
        };
        let b: isize = if border.lower.is_none() && border.lower_left.is_none()
            && border.lower_right.is_none() {
            0
        } else {
            1
        };
        let r: isize = if border.right.is_none() && border.upper_right.is_none()
            && border.lower_right.is_none() {
            0
        } else {
            1
        };
        let ghost area = host.window(window.index()).area_model();
        let ghost c0 = canvas_of(host.window(window.index()));
        let ghost h0 = *host;
        part_h(host, window, y, x + l, x + width - r, border.upper, attr, fg, bg);
        let ghost h1 = *host;
        part_h(host, window, y + height - b, x + l, x + width - r, border.lower, attr, fg, bg);
        proof {
            lemma_shows_twice(host, &h1, &h0, window.index());
        }
        let ghost h2 = *host;
        part_v(host, window, y + t, y + height - b, x, border.left, attr, fg, bg);
        proof {
            lemma_shows_twice(host, &h2, &h0, window.index());
        }
        let ghost h3 = *host;
        part_v(host, window, y + t, y + height - b, x + width - r, border.right, attr, fg, bg);
        proof {
            lemma_shows_twice(host, &h3, &h0, window.index());
        }
        let ghost h4 = *host;
        part_dot(host, window, y, x, border.upper_left, attr, fg, bg);
        proof {
            lemma_shows_twice(host, &h4, &h0, window.index());
        }
        let ghost h5 = *host;
        part_dot(host, window, y, x + width - 1, border.upper_right, attr, fg, bg);
        proof {
            lemma_shows_twice(host, &h5, &h0, window.index());
        }
        let ghost h6 = *host;
        part_dot(host, window, y + height - 1, x, border.lower_left, attr, fg, bg);
        proof {
            lemma_shows_twice(host, &h6, &h0, window.index());
        }
        let ghost h7 = *host;
        part_dot(host, window, y + height - 1, x + width - 1, border.lower_right, attr, fg, bg);
        proof {
            lemma_shows_twice(host, &h7, &h0, window.index());
        }
    }
}

/// The cell in column `col` of a text that starts in column `x`.
pub open spec fn text_texel(
    text: Seq<char>,
    x: int,
    col: int,
    attr: Attr,
    fg: Color,
    bg: Option<Color>,
) -> Texel {
    Texel { ch: text[col - x], attr, fg, bg }
}

/// The canvas of a window with the area `area` after `text` was written
/// in row `y` from column `x` on: one character to a cell, the characters
/// left of the window skipped, the writing ended at the right edge.
pub open spec fn canvas_text(
    c: Canvas,
    area: Option<Area>,
    y: int,
    x: int,
    text: Seq<char>,
    attr: Attr,
    fg: Color,
    bg: Option<Color>,
) -> Canvas {
    match area {
        None => c,
        Some(a) => {
            let first = hi(0, x);
            let end = lo(a.width, x + text.len());
            if y < 0 || y >= a.height || end <= first {
                c
            } else {
                Canvas {
                    grid: c.grid.update(
                        y,
                        Seq::new(
                            c.grid[y].len(),
                            |col: int|
                                if first <= col < end {
                                    text_texel(text, x, col, attr, fg, bg)
                                } else {
                                    c.grid[y][col]
                                },
                        ),
                    ),
                    invalid: area_union(
                        c.invalid,
                        Some(Area { top: y, left: first, height: 1, width: end - first }),
                    ),
                }
            }
        },
    }
}

/// Writes `text` in row `y` of the window from column `x` on.
pub fn draw_text(
    host: &mut WindowsHost,
    window: &Window,
    y: isize,
    x: isize,
    text: &str,
    attr: Attr,
    fg: Color,
    bg: Option<Color>,
)
    requires
        old(host).wf(),
        old(host).owns(window),
    ensures
        shows(
            final(host),
            old(host),
            window.index(),
            canvas_text(
                canvas_of(old(host).window(window.index())),
                old(host).window(window.index()).area_model(),
                y as int,
                x as int,
                text@,
                attr,
                fg,
                bg,
            ),
        ),
{
    let ghost w = window.index();
    let ghost before = canvas_of(host.window(w));
    let ghost area = host.window(w).area_model();
    proof {
        host.lemma_wf();
        host.window(w).lemma_wf();
    }
    if y < 0 {
        return ;
    }
    let (height, width) = window.bounds(host).size();
    if y >= height {
        return ;
    }
    let mut it = text.chars();
    let mut xi = x;
    let ghost mut done: int = 0;
    loop
        invariant
            w == window.index(),
            old(host).wf(),
            old(host).owns(window),
            before == canvas_of(old(host).window(w)),
            area == old(host).window(w).area_model(),
            area == Some(Area { top: 0, left: 0, height: height as int, width: width as int }),
            0 <= y < height,
            before.grid.len() == height,
            forall|row: int| 0 <= row < height ==> (#[trigger] before.grid[row]).len() == width,
            0 <= done <= text@.len(),
            xi == x + done,
            it.remaining() == text@.subrange(done, text@.len() as int),
            shows(
                host,
                old(host),
                w,
                canvas_text(before, area, y as int, x as int, text@.subrange(0, done), attr, fg, bg),
            ),
        ensures
            shows(
                host,
                old(host),
                w,
                canvas_text(before, area, y as int, x as int, text@, attr, fg, bg),
            ),
        decreases text@.len() - done,
    {
        if xi >= width {
            proof {
                let part = canvas_text(
                    before,
                    area,
                    y as int,
                    x as int,
                    text@.subrange(0, done),
                    attr,
                    fg,
                    bg,
                );
                let whole = canvas_text(before, area, y as int, x as int, text@, attr, fg, bg);
                let first = hi(0, x as int);
                assert(lo(width as int, x + done) == width);
                assert(lo(width as int, x + text@.len()) == width);
                if first < width {
                    assert forall|col: int| first <= col < width implies #[trigger] text_texel(
                        text@.subrange(0, done),
                        x as int,
                        col,
                        attr,
                        fg,
                        bg,
                    ) == text_texel(text@, x as int, col, attr, fg, bg) by {}
                    assert(part.grid[y as int] =~= whole.grid[y as int]);
                }
                assert(part.grid =~~= whole.grid);
            }
            break ;
        }
        match it.next() {
            None => {
                proof {
                    assert(text@.subrange(0, done) =~= text@);
                }
                break ;
            },
            Some(c) => {
                let ghost prev = *host;
                proof {
                    assert(c == text@[done]);
                    old(host).lemma_wf();
                    old(host).window(w).lemma_wf();
                }
                if xi >= 0 {
                    window.out(host, y, xi, Texel { ch: c, attr, fg, bg });
                }
                proof {
                    let part = canvas_text(
                        before,
                        area,
                        y as int,
                        x as int,
                        text@.subrange(0, done),
                        attr,
                        fg,
                        bg,
                    );
                    let next = canvas_text(
                        before,
                        area,
                        y as int,
                        x as int,
                        text@.subrange(0, done + 1),
                        attr,
                        fg,
                        bg,
                    );
                    let first = hi(0, x as int);
                    assert forall|col: int| first <= col < xi implies #[trigger] text_texel(
                        text@.subrange(0, done),
                        x as int,
                        col,
                        attr,
                        fg,
                        bg,
                    ) == text_texel(text@.subrange(0, done + 1), x as int, col, attr, fg, bg) by {}
                    if xi >= 0 {
                        assert(text_texel(text@.subrange(0, done + 1), x as int, xi as int, attr, fg, bg)
                            == Texel { ch: c, attr, fg, bg });
                        assert(host.window(w).grid()[y as int] =~= next.grid[y as int]);
                    }
                    assert(host.window(w).grid() =~~= next.grid);
                    assert forall|i: int| 0 <= i < old(host).count() && i != w implies host.window(i)
                        == old(host).window(i) by {
                        assert(prev.window(i) == old(host).window(i));
                    }
                    done = done + 1;
                }
                xi = xi + 1;
            },
        }
    }
}

} // verus!
