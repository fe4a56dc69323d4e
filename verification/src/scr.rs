//! What the compositor knows of a terminal: cells, their colours and
//! attributes, key codes, and the contract of a screen driver.

use either::Either;
use vstd::prelude::*;

verus! {

/// `either::Either`, the sum type in which a driver reports what was typed:
/// a value is either `Left` with a value of the first type or `Right` with
/// one of the second. The definition is taken as it stands in the crate, so
/// that both variants can be matched on; nothing is claimed of it.
#[verifier::external_type_specification]
#[verifier::reject_recursive_types(L)]
#[verifier::reject_recursive_types(R)]
pub struct ExEither<L, R>(Either<L, R>);

/// Code of a terminal special key.
#[derive(Debug, Copy, Clone, PartialEq, Eq, Structural, Hash, PartialOrd, Ord)]
pub struct Key {
    pub value: u32,
}

impl Key {
    /// Minimum curses key.
    pub const MIN: u32 = 0o401;

    /// Break key (unreliable).
    pub const BREAK: u32 = 0o401;

    /// Soft (partial) reset (unreliable).
    pub const SRESET: u32 = 0o530;

    /// Reset or hard reset (unreliable).
    pub const RESET: u32 = 0o531;

    /// Down-arrow key.
    pub const DOWN: u32 = 0o402;

    /// Up-arrow key.
    pub const UP: u32 = 0o403;

    /// Left-arrow key.
    pub const LEFT: u32 = 0o404;

    /// Right-arrow key.
    pub const RIGHT: u32 = 0o405;

    /// Home key.
    pub const HOME: u32 = 0o406;

    /// Backspace key.
    pub const BACKSPACE: u32 = 0o407;

    /// Function keys.  Space for 64.
    pub const F0: u32 = 0o410;

    /// Delete-line key.
    pub const DL: u32 = 0o510;

    /// Insert-line key.
    pub const IL: u32 = 0o511;

    /// Delete-character key.
    pub const DC: u32 = 0o512;

    /// Insert-character key.
    pub const IC: u32 = 0o513;

    /// Sent by rmir or smir in insert mode.
    pub const EIC: u32 = 0o514;

    /// Clear-screen or erase key.
    pub const CLEAR: u32 = 0o515;

    /// Clear-to-end-of-screen key.
    pub const EOS: u32 = 0o516;

    /// Clear-to-end-of-line key.
    pub const EOL: u32 = 0o517;

    /// Scroll-forward key.
    pub const SF: u32 = 0o520;

    /// Scroll-backward key.
    pub const SR: u32 = 0o521;

    /// Next-page key.
    pub const NPAGE: u32 = 0o522;

    /// Previous-page key.
    pub const PPAGE: u32 = 0o523;

    /// Set-tab key.
    pub const STAB: u32 = 0o524;

    /// Clear-tab key.
    pub const CTAB: u32 = 0o525;

    /// Clear-all-tabs key.
    pub const CATAB: u32 = 0o526;

    /// Enter/send key.
    pub const ENTER: u32 = 0o527;

    /// Print key.
    pub const PRINT: u32 = 0o532;

    /// Lower-left key (home down).
    pub const LL: u32 = 0o533;

    /// Upper left of keypad.
    pub const A1: u32 = 0o534;

    /// Upper right of keypad.
    pub const A3: u32 = 0o535;

    /// Center of keypad.
    pub const B2: u32 = 0o536;

    /// Lower left of keypad.
    pub const C1: u32 = 0o537;

    /// Lower right of keypad.
    pub const C3: u32 = 0o540;

    /// Back-tab key.
    pub const BTAB: u32 = 0o541;

    /// Begin key.
    pub const BEG: u32 = 0o542;

    /// Cancel key.
    pub const CANCEL: u32 = 0o543;

    /// Close key.
    pub const CLOSE: u32 = 0o544;

    /// Command key.
    pub const COMMAND: u32 = 0o545;

    /// Copy key.
    pub const COPY: u32 = 0o546;

    /// Create key.
    pub const CREATE: u32 = 0o547;

    /// End key.
    pub const END: u32 = 0o550;

    /// Exit key.
    pub const EXIT: u32 = 0o551;

    /// Find key.
    pub const FIND: u32 = 0o552;

    /// Help key.
    pub const HELP: u32 = 0o553;

    /// Mark key.
    pub const MARK: u32 = 0o554;

    /// Message key.
    pub const MESSAGE: u32 = 0o555;

    /// Move key.
    pub const MOVE: u32 = 0o556;

    /// Next key.
    pub const NEXT: u32 = 0o557;

    /// Open key.
    pub const OPEN: u32 = 0o560;

    /// Options key.
    pub const OPTIONS: u32 = 0o561;

    /// Previous key.
    pub const PREVIOUS: u32 = 0o562;

    /// Redo key.
    pub const REDO: u32 = 0o563;

    /// Reference key.
    pub const REFERENCE: u32 = 0o564;

    /// Refresh key.
    pub const REFRESH: u32 = 0o565;

    /// Replace key.
    pub const REPLACE: u32 = 0o566;

    /// Restart key.
    pub const RESTART: u32 = 0o567;

    /// Save key.
    pub const SAVE: u32 = 0o571;

    /// Shifted begin key.
    pub const SBEG: u32 = 0o572;

    /// Shifted cancel key.
    pub const SCANCEL: u32 = 0o573;

    /// Shifted command key.
    pub const SCOMMAND: u32 = 0o574;

    /// Shifted copy key.
    pub const SCOPY: u32 = 0o575;

    /// Shifted create key.
    pub const SCREATE: u32 = 0o576;

    /// Shifted delete-character key.
    pub const SDC: u32 = 0o577;

    /// Shifted delete-line key.
    pub const SDL: u32 = 0o600;

    /// Select key.
    pub const SELECT: u32 = 0o601;

    /// Shifted end key.
    pub const SEND: u32 = 0o602;

    /// Shifted clear-to-end-of-line key.
    pub const SEOL: u32 = 0o603;

    /// Shifted exit key.
    pub const SEXIT: u32 = 0o604;

    /// Shifted find key.
    pub const SFIND: u32 = 0o605;

    /// Shifted help key.
    pub const SHELP: u32 = 0o606;

    /// Shifted home key.
    pub const SHOME: u32 = 0o607;

    /// Shifted insert-character key.
    pub const SIC: u32 = 0o610;

    /// Shifted left-arrow key.
    pub const SLEFT: u32 = 0o611;

    /// Shifted message key.
    pub const SMESSAGE: u32 = 0o612;

    /// Shifted move key.
    pub const SMOVE: u32 = 0o613;

    /// Shifted next key.
    pub const SNEXT: u32 = 0o614;

    /// Shifted options key.
    pub const SOPTIONS: u32 = 0o615;

    /// Shifted previous key.
    pub const SPREVIOUS: u32 = 0o616;

    /// Shifted print key.
    pub const SPRINT: u32 = 0o617;

    /// Shifted redo key.
    pub const SREDO: u32 = 0o620;

    /// Shifted replace key.
    pub const SREPLACE: u32 = 0o621;

    /// Shifted right-arrow key.
    pub const SRIGHT: u32 = 0o622;

    /// Shifted resume key.
    pub const SRSUME: u32 = 0o623;

    /// Shifted save key.
    pub const SSAVE: u32 = 0o624;

    /// Shifted suspend key.
    pub const SSUSPEND: u32 = 0o625;

    /// Shifted undo key.
    pub const SUNDO: u32 = 0o626;

    /// Suspend key.
    pub const SUSPEND: u32 = 0o627;

    /// Undo key.
    pub const UNDO: u32 = 0o630;

    /// Mouse event has occurred.
    pub const MOUSE: u32 = 0o631;

    /// Terminal resize event.
    pub const RESIZE: u32 = 0o632;

    /// We were interrupted by an event.
    pub const EVENT: u32 = 0o633;

    /// Maximum key value.
    pub const MAX: u32 = 0o777;

    /// The key with the given code.
    pub fn new(value: u32) -> (r: Key)
        ensures
            r.value == value,
    {
        Key { value }
    }

    /// Function key `n`; there is room for 64 of them.
    pub fn f(n: u8) -> (r: Key)
        ensures
            r.value == Key::F0 + n,
    {
        Key { value: Key::F0 + (n as u32) }
    }
}

/// One of the eight terminal colours.
#[derive(Debug, Copy, Clone, PartialEq, Eq, Structural, Hash, PartialOrd, Ord)]
pub enum Color {
    Black,
    Red,
    Green,
    Yellow,
    Blue,
    Magenta,
    Cyan,
    White,
}

impl Color {
    /// Number of the colour, `0` for black to `7` for white.
    pub open spec fn spec_index(self) -> int {
        match self {
            Color::Black => 0,
            Color::Red => 1,
            Color::Green => 2,
            Color::Yellow => 3,
            Color::Blue => 4,
            Color::Magenta => 5,
            Color::Cyan => 6,
            Color::White => 7,
        }
    }

    /// Number of the colour, `0` for black to `7` for white.
    pub fn index(self) -> (r: i16)
        ensures
            r == self.spec_index(),
    {
        match self {
            Color::Black => 0,
            Color::Red => 1,
            Color::Green => 2,
            Color::Yellow => 3,
            Color::Blue => 4,
            Color::Magenta => 5,
            Color::Cyan => 6,
            Color::White => 7,
        }
    }
}

/// Number of the colour pair a driver uses for a foreground on a
/// background: eight pairs for each background, those on the terminal's
/// default background first.
pub open spec fn spec_color_pair(fg: Color, bg: Option<Color>) -> int {
    match bg {
        None => fg.spec_index(),
        Some(c) => (1 + c.spec_index()) * 8 + fg.spec_index(),
    }
}

/// Number of the colour pair for `fg` on `bg`.
pub fn color_pair(fg: Color, bg: Option<Color>) -> (r: i16)
    ensures
        r == spec_color_pair(fg, bg),
        0 <= r < 72,
{
    let base: i16 = match bg {
        Some(c) => (1 + c.index()) * 8,
        None => 0,
    };
    base + fg.index()
}

/// Set of display attributes of a cell, one bit each.
#[derive(Debug, Copy, Clone, PartialEq, Eq, Structural, Hash)]
pub struct Attr {
    pub bits: u32,
}

impl Attr {
    /// Bits of the attribute "no attribute".
    pub const NORMAL: u32 = 0x0;

    /// Bits of the attribute "best highlighting mode of the terminal".
    pub const STANDOUT: u32 = 0x1;

    /// Bits of the attribute "underlining".
    pub const UNDERLINE: u32 = 0x2;

    /// Bits of the attribute "reverse video".
    pub const REVERSE: u32 = 0x4;

    /// Bits of the attribute "blinking".
    pub const BLINK: u32 = 0x8;

    /// Bits of the attribute "half bright".
    pub const DIM: u32 = 0x10;

    /// Bits of the attribute "extra bright or bold".
    pub const BOLD: u32 = 0x20;

    /// Bits of the attribute "alternate character set".
    pub const ALTCHARSET: u32 = 0x40;

    /// Bits of the attribute "invisible or blank mode".
    pub const INVIS: u32 = 0x80;

    /// Bits of the attribute "protected mode".
    pub const PROTECT: u32 = 0x100;

    /// Bits of the attribute "horizontal highlight".
    pub const HORIZONTAL: u32 = 0x200;

    /// Bits of the attribute "left highlight".
    pub const LEFT: u32 = 0x400;

    /// Bits of the attribute "low highlight".
    pub const LOW: u32 = 0x800;

    /// Bits of the attribute "right highlight".
    pub const RIGHT: u32 = 0x1000;

    /// Bits of the attribute "top highlight".
    pub const TOP: u32 = 0x2000;

    /// Bits of the attribute "vertical highlight".
    pub const VERTICAL: u32 = 0x4000;

    /// Every bit that names an attribute.
    pub const ALL: u32 = 0x7fff;

    /// The bits of the set.
    pub fn bits(&self) -> (r: u32)
        ensures
            r == self.bits,
    {
        self.bits
    }

    /// Whether every attribute of `other` is in this set.
    pub open spec fn spec_contains(self, other: Attr) -> bool {
        self.bits & other.bits == other.bits
    }

    /// The set with exactly the given bits, or `None` when one of them
    /// names no attribute.
    pub fn from_bits(bits: u32) -> (r: Option<Attr>)
        ensures
            r is Some <==> bits & !Attr::ALL == 0,
            r is Some ==> (r->0).bits == bits,
    {
        if bits & !Attr::ALL == 0 {
            Some(Attr { bits })
        } else {
            None
        }
    }

    /// The set of the attributes that are in either set.
    pub fn union(self, other: Attr) -> (r: Attr)
        ensures
            r.bits == self.bits | other.bits,
    {
        Attr { bits: self.bits | other.bits }
    }

    /// Whether every attribute of `other` is in this set.
    pub fn contains(&self, other: Attr) -> (r: bool)
        ensures
            r == self.spec_contains(other),
    {
        self.bits & other.bits == other.bits
    }

    /// No attribute.
    pub fn normal() -> (r: Attr)
        ensures
            r.bits == Attr::NORMAL,
    {
        Attr { bits: Attr::NORMAL }
    }

    /// Best highlighting mode of the terminal.
    pub fn standout() -> (r: Attr)
        ensures
            r.bits == Attr::STANDOUT,
    {
        Attr { bits: Attr::STANDOUT }
    }

    /// Underlining.
    pub fn underline() -> (r: Attr)
        ensures
            r.bits == Attr::UNDERLINE,
    {
        Attr { bits: Attr::UNDERLINE }
    }

    /// Reverse video.
    pub fn reverse() -> (r: Attr)
        ensures
            r.bits == Attr::REVERSE,
    {
        Attr { bits: Attr::REVERSE }
    }

    /// Blinking.
    pub fn blink() -> (r: Attr)
        ensures
            r.bits == Attr::BLINK,
    {
        Attr { bits: Attr::BLINK }
    }

    /// Half bright.
    pub fn dim() -> (r: Attr)
        ensures
            r.bits == Attr::DIM,
    {
        Attr { bits: Attr::DIM }
    }

    /// Extra bright or bold.
    pub fn bold() -> (r: Attr)
        ensures
            r.bits == Attr::BOLD,
    {
        Attr { bits: Attr::BOLD }
    }

    /// Alternate character set.
    pub fn altcharset() -> (r: Attr)
        ensures
            r.bits == Attr::ALTCHARSET,
    {
        Attr { bits: Attr::ALTCHARSET }
    }

    /// Invisible or blank mode.
    pub fn invis() -> (r: Attr)
        ensures
            r.bits == Attr::INVIS,
    {
        Attr { bits: Attr::INVIS }
    }

    /// Protected mode.
    pub fn protect() -> (r: Attr)
        ensures
            r.bits == Attr::PROTECT,
    {
        Attr { bits: Attr::PROTECT }
    }

    /// Horizontal highlight.
    pub fn horizontal() -> (r: Attr)
        ensures
            r.bits == Attr::HORIZONTAL,
    {
        Attr { bits: Attr::HORIZONTAL }
    }

    /// Left highlight.
    pub fn left() -> (r: Attr)
        ensures
            r.bits == Attr::LEFT,
    {
        Attr { bits: Attr::LEFT }
    }

    /// Low highlight.
    pub fn low() -> (r: Attr)
        ensures
            r.bits == Attr::LOW,
    {
        Attr { bits: Attr::LOW }
    }

    /// Right highlight.
    pub fn right() -> (r: Attr)
        ensures
            r.bits == Attr::RIGHT,
    {
        Attr { bits: Attr::RIGHT }
    }

    /// Top highlight.
    pub fn top() -> (r: Attr)
        ensures
            r.bits == Attr::TOP,
    {
        Attr { bits: Attr::TOP }
    }

    /// Vertical highlight.
    pub fn vertical() -> (r: Attr)
        ensures
            r.bits == Attr::VERTICAL,
    {
        Attr { bits: Attr::VERTICAL }
    }

}

impl core::ops::BitOr for Attr {
    type Output = Attr;

    fn bitor(self, rhs: Attr) -> (r: Attr) {
        Attr { bits: self.bits | rhs.bits }
    }
}

impl vstd::std_specs::ops::BitOrSpecImpl for Attr {
    open spec fn obeys_bitor_spec() -> bool {
        true
    }

    open spec fn bitor_req(self, rhs: Attr) -> bool {
        true
    }

    open spec fn bitor_spec(self, rhs: Attr) -> Attr {
        Attr { bits: self.bits | rhs.bits }
    }
}

/// A terminal cell: a codepoint with its attributes and colours. A cell
/// without a background colour is drawn on the terminal's default one.
#[derive(Debug, Copy, Clone, PartialEq, Eq)]
pub struct Texel {
    pub ch: char,
    pub attr: Attr,
    pub fg: Color,
    pub bg: Option<Color>,
}

/// A screen driver: a grid of cells that is written one cell at a time and
/// presented on request, and a source of key presses.
///
/// A driver says in `tells_height`, `tells_width` and `wrote` what its
/// methods can answer and do. The compositor is proved for every driver,
/// whatever these say: no method promises success.
pub trait Scr {
    /// Whether the screen can answer `r` when it is asked for its number of
    /// rows.
    spec fn tells_height(&self, r: Result<isize, ()>) -> bool;

    /// Whether the screen can answer `r` when it is asked for its number of
    /// columns.
    spec fn tells_width(&self, r: Result<isize, ()>) -> bool;

    /// Whether `after` is what the screen can be after `out` was called on
    /// it with the cell `c` for row `y` and column `x`, and succeeded if
    /// `done`, failed if not.
    spec fn wrote(&self, after: &Self, y: isize, x: isize, c: &Texel, done: bool) -> bool;

    /// Number of rows of the screen.
    fn get_height(&self) -> (r: Result<isize, ()>)
        ensures
            self.tells_height(r),
    ;

    /// Number of columns of the screen.
    fn get_width(&self) -> (r: Result<isize, ()>)
        ensures
            self.tells_width(r),
    ;

    /// Writes one cell; a driver fails a write outside its bounds.
    fn out(&mut self, y: isize, x: isize, c: &Texel) -> (r: Result<(), ()>)
        ensures
            old(self).wrote(final(self), y, x, c, r is Ok),
    ;

    /// Presents what was written, with the cursor shown at the given cell
    /// or hidden.
    fn refresh(&mut self, cursor: Option<(isize, isize)>) -> Result<(), ()>;

    /// Waits for a key press: a special key or a character.
    fn getch(&mut self) -> Result<Either<Key, char>, ()>;
}

/// Where the reading of a character from the bytes of a terminal stands.
#[derive(Debug, Clone, Copy, PartialEq, Eq)]
pub enum Decode {
    /// The character with this code was read.
    Done(u32),
    /// This many bytes are to follow, after which `value` holds the code.
    More { left: u8, value: u32 },
    /// The bytes are no character.
    Malformed,
}

/// What the first byte of a character of a terminal says: the byte is the
/// character, or it tells how many bytes follow and holds the first bits of
/// the code, or it cannot start a character.
pub open spec fn spec_decode_first(b0: u8) -> Decode {
    if b0 & 0x80 == 0 {
        Decode::Done(b0 as u32)
    } else if b0 & 0x40 == 0 {
        Decode::Malformed
    } else if b0 & 0x20 == 0 {
        Decode::More { left: 1, value: (b0 & 0x1f) as u32 }
    } else if b0 & 0x10 == 0 {
        Decode::More { left: 2, value: (b0 & 0x0f) as u32 }
    } else if b0 & 0x08 == 0 {
        Decode::More { left: 3, value: (b0 & 0x07) as u32 }
    } else if b0 & 0x04 == 0 {
        Decode::More { left: 4, value: (b0 & 0x03) as u32 }
    } else if b0 & 0x02 == 0 {
        Decode::More { left: 5, value: (b0 & 0x01) as u32 }
    } else {
        Decode::Malformed
    }
}

/// What a byte after the first says: it holds the next six bits of the
/// code, or it cannot follow.
pub open spec fn spec_decode_next(left: u8, value: u32, b: u8) -> Decode {
    if left == 0 || b & 0xc0 != 0x80 {
        Decode::Malformed
    } else if left == 1 {
        Decode::Done((value << 6) | (b & 0x3f) as u32)
    } else {
        Decode::More { left: (left - 1) as u8, value: (value << 6) | (b & 0x3f) as u32 }
    }
}

/// Starts to read a character with its first byte.
pub fn decode_first(b0: u8) -> (r: Decode)
    ensures
        r == spec_decode_first(b0),
{
    if b0 & 0x80 == 0 {
        Decode::Done(b0 as u32)
    } else if b0 & 0x40 == 0 {
        Decode::Malformed
    } else if b0 & 0x20 == 0 {
        Decode::More { left: 1, value: (b0 & 0x1f) as u32 }
    } else if b0 & 0x10 == 0 {
        Decode::More { left: 2, value: (b0 & 0x0f) as u32 }
    } else if b0 & 0x08 == 0 {
        Decode::More { left: 3, value: (b0 & 0x07) as u32 }
    } else if b0 & 0x04 == 0 {
        Decode::More { left: 4, value: (b0 & 0x03) as u32 }
    } else if b0 & 0x02 == 0 {
        Decode::More { left: 5, value: (b0 & 0x01) as u32 }
    } else {
        Decode::Malformed
    }
}

/// Goes on to read a character with the byte that follows.
pub fn decode_next(left: u8, value: u32, b: u8) -> (r: Decode)
    ensures
        r == spec_decode_next(left, value, b),
{
    if left == 0 || b & 0xc0 != 0x80 {
        Decode::Malformed
    } else if left == 1 {
        Decode::Done((value << 6) | (b & 0x3f) as u32)
    } else {
        Decode::More { left: left - 1, value: (value << 6) | (b & 0x3f) as u32 }
    }
}

} // verus!
