use either::Either;
use ntfl::geometry::Rect;
use ntfl::scr::{Attr, Color, Key, Scr, Texel};
use ntfl::window::{blank_texel, blit, Attach, CellWrite, Window, WindowData, WindowsHost};

pub struct TestScr {
    pub height: isize,
    pub width: isize,
    pub invalid: bool,
    pub content: Vec<Texel>,
    pub cursor: Option<(isize, isize)>,
}

impl TestScr {
    pub fn new(height: isize, width: isize) -> TestScr {
        TestScr {
            height,
            width,
            invalid: false,
            content: vec![
                Texel { ch: 'T', attr: Attr::normal(), fg: Color::Cyan, bg: Some(Color::Red) };
                (height * width) as usize
            ],
            cursor: None,
        }
    }

    pub fn content(&self, y: isize, x: isize) -> &Texel {
        &self.content[(y * self.width + x) as usize]
    }
}

impl Scr for TestScr {
    fn tells_height(&self, r: Result<isize, ()>) -> bool {
        r == Ok(self.height)
    }

    fn tells_width(&self, r: Result<isize, ()>) -> bool {
        r == Ok(self.width)
    }

    fn wrote(&self, after: &Self, y: isize, x: isize, c: &Texel, done: bool) -> bool {
        done && after.content[(y * self.width + x) as usize] == *c
    }

    fn get_height(&self) -> Result<isize, ()> {
        Ok(self.height)
    }

    fn get_width(&self) -> Result<isize, ()> {
        Ok(self.width)
    }

    fn out(&mut self, y: isize, x: isize, c: &Texel) -> Result<(), ()> {
        self.invalid = true;
        self.content[(y * self.width + x) as usize] = c.clone();
        Ok(())
    }

    fn refresh(&mut self, cursor: Option<(isize, isize)>) -> Result<(), ()> {
        self.invalid = false;
        self.cursor = cursor;
        Ok(())
    }

    fn getch(&mut self) -> Result<Either<Key, char>, ()> {
        Err(())
    }
}

/// A screen that fails every write outside its bounds, and every write
/// after a given number of them.
struct FailingScr {
    inner: TestScr,
    left: usize,
    sizeless: bool,
}

impl Scr for FailingScr {
    fn tells_height(&self, r: Result<isize, ()>) -> bool {
        r == if self.sizeless { Err(()) } else { Ok(self.inner.height) }
    }

    fn tells_width(&self, r: Result<isize, ()>) -> bool {
        r == Ok(self.inner.width)
    }

    fn wrote(&self, after: &Self, _y: isize, _x: isize, _c: &Texel, done: bool) -> bool {
        done == (after.left < self.left)
    }

    fn get_height(&self) -> Result<isize, ()> {
        if self.sizeless { Err(()) } else { Ok(self.inner.height) }
    }

    fn get_width(&self) -> Result<isize, ()> {
        Ok(self.inner.width)
    }

    fn out(&mut self, y: isize, x: isize, c: &Texel) -> Result<(), ()> {
        if self.left == 0 || y < 0 || x < 0 || y >= self.inner.height || x >= self.inner.width {
            return Err(());
        }
        self.left -= 1;
        self.inner.out(y, x, c)
    }

    fn refresh(&mut self, cursor: Option<(isize, isize)>) -> Result<(), ()> {
        self.inner.refresh(cursor)
    }

    fn getch(&mut self) -> Result<Either<Key, char>, ()> {
        Ok(Either::Right('q'))
    }
}

fn texel(ch: char, attr: Attr, fg: Color, bg: Option<Color>) -> Texel {
    Texel { ch, attr, fg, bg }
}

#[test]
fn window_scr() {
    let mut w = WindowData::new();
    w.set_bounds(Rect::tlhw(3, 5, 1, 2));
    assert_eq!(Rect::empty(), w.invalid());
    w.out(0, 0, Texel { ch: '+', attr: Attr::normal(), fg: Color::Green, bg: Some(Color::Black) });
    w.out(0, 1, Texel { ch: '-', attr: Attr::normal(), fg: Color::Green, bg: Some(Color::Black) });
    let mut s = TestScr::new(100, 100);
    let mut invalid = Rect::empty();
    w.scr(&mut s, 0, 0, 100, 100, &mut invalid);
    assert!(Some((3, 5)) == invalid.loc());
    assert!((1, 2) == invalid.size(), "({}, {})", invalid.size().0, invalid.size().1);
    assert!('+' == s.content(3, 5).ch, "{}", s.content(3, 5).ch);
    assert!('-' == s.content(3, 6).ch, "{}", s.content(3, 6).ch);
}

#[test]
fn window_set_bounds() {
    let mut w = WindowData::new();
    w.set_bounds(Rect::tlhw(5, 7, 3, 500));
    assert!(Rect::tlhw(5, 7, 3, 500) == w.bounds());
}

#[test]
fn new_window_drop() {
    let mut host = WindowsHost::new();
    let id = {
        let window = host.new_window();
        let id = window.id();
        window.attach(&mut host);
        assert!(!window.is_detached(&host));
        assert_eq!(vec![id], host.windows());
        assert!(window.close(&mut host));
        id
    };
    assert_eq!(0, id);
    assert!(host.windows().is_empty());
    assert_eq!(Attach::Unattached, host.attach_of(id));
}

#[test]
fn windows_host_scr_works() {
    let mut s = TestScr::new(100, 100);
    let mut host = WindowsHost::new();
    let window = host.new_window();
    window.attach(&mut host);
    window.set_bounds(&mut host, Rect::tlhw(3, 5, 1, 2));
    host.scr(&mut s).unwrap();
}

#[test]
fn windows_host_scr() {
    let mut s = TestScr::new(100, 100);
    let mut host = WindowsHost::new();
    let window = host.new_window();
    window.attach(&mut host);
    window.set_bounds(&mut host, Rect::tlhw(3, 5, 1, 2));
    window.out(&mut host, 0, 0, Texel { ch: '+', attr: Attr::normal(), fg: Color::Green, bg: Some(Color::Black) });
    window.out(&mut host, 0, 1, Texel { ch: '-', attr: Attr::normal(), fg: Color::Green, bg: Some(Color::Black) });
    host.scr(&mut s).unwrap();
    assert!('+' == s.content(3, 5).ch, "{}", s.content(3, 5).ch);
    assert!('-' == s.content(3, 6).ch, "{}", s.content(3, 6).ch);
    assert_eq!(Rect::empty(), host.invalid());
}

#[test]
fn subwindow_bounds() {
    let mut host = WindowsHost::new();
    let window = host.new_window();
    window.attach(&mut host);
    let sub = host.new_window();
    sub.attach_to(&mut host, &window);
    sub.set_bounds(&mut host, Rect::tlhw(1, 1, 1, 1));
    assert_eq!(Rect::empty(), host.invalid());
}

#[test]
fn outscreen_window() {
    let mut s = TestScr::new(100, 100);
    let mut host = WindowsHost::new();
    let window = host.new_window();
    window.attach(&mut host);
    window.set_bounds(&mut host, Rect::tlhw(-1, -5, 1, 2));
    window.out(&mut host, 0, 0, Texel { ch: '+', attr: Attr::normal(), fg: Color::Green, bg: Some(Color::Black) });
    window.out(&mut host, 0, 1, Texel { ch: '-', attr: Attr::normal(), fg: Color::Green, bg: Some(Color::Black) });
    host.scr(&mut s).unwrap();
}

#[test]
fn set_window_bounds_invalid_crop() {
    let mut s = TestScr::new(100, 100);
    let mut host = WindowsHost::new();
    let window = host.new_window();
    window.attach(&mut host);
    window.set_bounds(&mut host, Rect::tlhw(-10, -20, 30, 40));
    {
        let sub = host.new_window();
        sub.attach_to(&mut host, &window);
        sub.set_bounds(&mut host, Rect::tlhw(10, 20, 10, 15));
        host.scr(&mut s).unwrap();
        assert_eq!(Rect::empty(), sub.invalid(&host));
        sub.out(&mut host, 0, 0, Texel { ch: '+', attr: Attr::normal(), fg: Color::Green, bg: Some(Color::Black) });
        assert_eq!(Rect::tlhw(0, 0, 1, 1), sub.invalid(&host));
        sub.set_bounds(&mut host, Rect::tlhw(10, 20, 9, 14));
        assert_eq!(Rect::tlhw(0, 0, 1, 1), sub.invalid(&host));
        assert_eq!(Rect::tlhw(0, 0, 10, 15), host.invalid());
        host.scr(&mut s).unwrap();
        assert_eq!(Rect::empty(), host.invalid());
        sub.close(&mut host);
    }
    assert_eq!(Rect::tlhw(0, 0, 9, 14), host.invalid());
}

fn fill3x3(host: &mut WindowsHost, window: &Window, fg: Color) {
    window.out(host, 0, 0, Texel { ch: '1', attr: Attr::normal(), fg, bg: Some(Color::Black) });
    window.out(host, 0, 1, Texel { ch: '2', attr: Attr::normal(), fg, bg: Some(Color::Black) });
    window.out(host, 0, 2, Texel { ch: '3', attr: Attr::normal(), fg, bg: Some(Color::Black) });
    window.out(host, 1, 0, Texel { ch: '4', attr: Attr::normal(), fg, bg: Some(Color::Black) });
    window.out(host, 1, 1, Texel { ch: '5', attr: Attr::normal(), fg, bg: Some(Color::Black) });
    window.out(host, 1, 2, Texel { ch: '6', attr: Attr::normal(), fg, bg: Some(Color::Black) });
    window.out(host, 2, 0, Texel { ch: '7', attr: Attr::normal(), fg, bg: Some(Color::Black) });
    window.out(host, 2, 1, Texel { ch: '8', attr: Attr::normal(), fg, bg: Some(Color::Black) });
    window.out(host, 2, 2, Texel { ch: '9', attr: Attr::normal(), fg, bg: Some(Color::Black) });
}

#[test]
fn window_z_index() {
    let mut scr = TestScr::new(4, 4);
    let mut host = WindowsHost::new();
    let window1 = host.new_window();
    window1.attach(&mut host);
    window1.set_bounds(&mut host, Rect::tlhw(0, 0, 3, 3));
    fill3x3(&mut host, &window1, Color::Green);
    let window2 = host.new_window();
    window2.attach(&mut host);
    window2.set_bounds(&mut host, Rect::tlhw(1, 1, 3, 3));
    fill3x3(&mut host, &window2, Color::Red);
    host.scr(&mut scr).unwrap();
    assert_eq!([
        Texel { ch: '1', attr: Attr::normal(), fg: Color::Green, bg: Some(Color::Black) },
        Texel { ch: '2', attr: Attr::normal(), fg: Color::Green, bg: Some(Color::Black) },
        Texel { ch: '3', attr: Attr::normal(), fg: Color::Green, bg: Some(Color::Black) },
        Texel { ch: 'T', attr: Attr::normal(), fg: Color::Cyan, bg: Some(Color::Red) },
        Texel { ch: '4', attr: Attr::normal(), fg: Color::Green, bg: Some(Color::Black) },
        Texel { ch: '1', attr: Attr::normal(), fg: Color::Red, bg: Some(Color::Black) },
        Texel { ch: '2', attr: Attr::normal(), fg: Color::Red, bg: Some(Color::Black) },
        Texel { ch: '3', attr: Attr::normal(), fg: Color::Red, bg: Some(Color::Black) },
        Texel { ch: '7', attr: Attr::normal(), fg: Color::Green, bg: Some(Color::Black) },
        Texel { ch: '4', attr: Attr::normal(), fg: Color::Red, bg: Some(Color::Black) },
        Texel { ch: '5', attr: Attr::normal(), fg: Color::Red, bg: Some(Color::Black) },
        Texel { ch: '6', attr: Attr::normal(), fg: Color::Red, bg: Some(Color::Black) },
        Texel { ch: 'T', attr: Attr::normal(), fg: Color::Cyan, bg: Some(Color::Red) },
        Texel { ch: '7', attr: Attr::normal(), fg: Color::Red, bg: Some(Color::Black) },
        Texel { ch: '8', attr: Attr::normal(), fg: Color::Red, bg: Some(Color::Black) },
        Texel { ch: '9', attr: Attr::normal(), fg: Color::Red, bg: Some(Color::Black) },
    ], &*scr.content);
    assert_eq!(0, window1.z_index(&host));
    assert_eq!(1, window2.z_index(&host));
    window1.set_z_index(&mut host, 5);
    assert_eq!(0, window2.z_index(&host));
    assert_eq!(1, window1.z_index(&host));
    host.scr(&mut scr).unwrap();
    assert_eq!([
        Texel { ch: '1', attr: Attr::normal(), fg: Color::Green, bg: Some(Color::Black) },
        Texel { ch: '2', attr: Attr::normal(), fg: Color::Green, bg: Some(Color::Black) },
        Texel { ch: '3', attr: Attr::normal(), fg: Color::Green, bg: Some(Color::Black) },
        Texel { ch: 'T', attr: Attr::normal(), fg: Color::Cyan, bg: Some(Color::Red) },
        Texel { ch: '4', attr: Attr::normal(), fg: Color::Green, bg: Some(Color::Black) },
        Texel { ch: '5', attr: Attr::normal(), fg: Color::Green, bg: Some(Color::Black) },
        Texel { ch: '6', attr: Attr::normal(), fg: Color::Green, bg: Some(Color::Black) },
        Texel { ch: '3', attr: Attr::normal(), fg: Color::Red, bg: Some(Color::Black) },
        Texel { ch: '7', attr: Attr::normal(), fg: Color::Green, bg: Some(Color::Black) },
        Texel { ch: '8', attr: Attr::normal(), fg: Color::Green, bg: Some(Color::Black) },
        Texel { ch: '9', attr: Attr::normal(), fg: Color::Green, bg: Some(Color::Black) },
        Texel { ch: '6', attr: Attr::normal(), fg: Color::Red, bg: Some(Color::Black) },
        Texel { ch: 'T', attr: Attr::normal(), fg: Color::Cyan, bg: Some(Color::Red) },
        Texel { ch: '7', attr: Attr::normal(), fg: Color::Red, bg: Some(Color::Black) },
        Texel { ch: '8', attr: Attr::normal(), fg: Color::Red, bg: Some(Color::Black) },
        Texel { ch: '9', attr: Attr::normal(), fg: Color::Red, bg: Some(Color::Black) },
    ], &*scr.content);
}

#[test]
fn double_scr() {
    let mut scr = TestScr::new(10, 136);
    let mut host = WindowsHost::new();
    let window = host.new_window();
    window.attach(&mut host);
    window.set_bounds(&mut host, Rect::tlhw(0, 0, 10, 136));
    window.out(&mut host, 6, 133, Texel { ch: 'A', attr: Attr::normal(), fg: Color::Green, bg: None });
    window.out(&mut host, 6, 134, Texel { ch: 'B', attr: Attr::normal(), fg: Color::Green, bg: None });
    window.out(&mut host, 6, 135, Texel { ch: 'c', attr: Attr::normal(), fg: Color::Green, bg: None });
    window.out(&mut host, 5, 5, Texel { ch: 'l', attr: Attr::altcharset() | Attr::reverse(), fg: Color::Green, bg: Some(Color::Black) });
    host.scr(&mut scr).unwrap();
    window.out(&mut host, 6, 2, Texel { ch: 'i', attr: Attr::underline(), fg: Color::Red, bg: None });
    host.scr(&mut scr).unwrap();
    assert_eq!(Texel { ch: 'i', attr: Attr::underline(), fg: Color::Red, bg: None }, scr.content[6 * 136 + 2]);
}

#[test]
fn windows_hierarchy() {
    let mut scr = TestScr::new(4, 4);
    let mut host = WindowsHost::new();
    let window1 = host.new_window();
    window1.attach(&mut host);
    window1.set_bounds(&mut host, Rect::tlhw(0, 0, 4, 2));
    let window2 = host.new_window();
    window2.attach(&mut host);
    window2.set_bounds(&mut host, Rect::tlhw(0, 2, 4, 2));
    let sub1 = host.new_window();
    sub1.attach_to(&mut host, &window1);
    sub1.set_bounds(&mut host, Rect::tlhw(1, 0, 3, 2));
    let sub2 = host.new_window();
    sub2.attach_to(&mut host, &window2);
    sub2.set_bounds(&mut host, Rect::tlhw(0, 0, 3, 2));
    let sub3 = host.new_window();
    sub3.attach_to(&mut host, &window2);
    sub3.set_bounds(&mut host, Rect::tlhw(0, 1, 3, 2));
    sub3.out(&mut host, 0, 0, Texel { ch: 'y', attr: Attr::normal(), fg: Color::Red, bg: Some(Color::Blue) });
    let subsub = host.new_window();
    subsub.attach_to(&mut host, &sub2);
    subsub.set_bounds(&mut host, Rect::tlhw(1, 1, 1, 1));
    window1.out(&mut host, 0, 0, Texel { ch: 'a', attr: Attr::normal(), fg: Color::Red, bg: Some(Color::Black) });
    window1.out(&mut host, 0, 1, Texel { ch: 'b', attr: Attr::normal(), fg: Color::Red, bg: Some(Color::Black) });
    sub2.out(&mut host, 0, 0, Texel { ch: 'D', attr: Attr::normal(), fg: Color::Green, bg: Some(Color::Black) });
    host.scr(&mut scr).unwrap();
    let x = Texel { ch: 'X', attr: Attr::bold(), fg: Color::Red, bg: None };
    assert_eq!(Texel { ch: 'a', attr: Attr::normal(), fg: Color::Red, bg: Some(Color::Black) }, scr.content[0 * 4 + 0]);
    assert_eq!(Texel { ch: 'b', attr: Attr::normal(), fg: Color::Red, bg: Some(Color::Black) }, scr.content[0 * 4 + 1]);
    assert_eq!(Texel { ch: 'D', attr: Attr::normal(), fg: Color::Green, bg: Some(Color::Black) }, scr.content[0 * 4 + 2]);
    assert_eq!(Texel { ch: 'y', attr: Attr::normal(), fg: Color::Red, bg: Some(Color::Blue) }, scr.content[0 * 4 + 3]);
    assert_eq!(x, scr.content[1 * 4 + 0]);
    assert_eq!(x, scr.content[1 * 4 + 1]);
    assert_eq!(x, scr.content[1 * 4 + 2]);
    assert_eq!(x, scr.content[1 * 4 + 3]);
    assert_eq!(x, scr.content[2 * 4 + 0]);
    assert_eq!(x, scr.content[2 * 4 + 1]);
    assert_eq!(x, scr.content[2 * 4 + 2]);
    assert_eq!(x, scr.content[2 * 4 + 3]);
    assert_eq!(x, scr.content[3 * 4 + 0]);
    assert_eq!(x, scr.content[3 * 4 + 1]);
    assert_eq!(x, scr.content[3 * 4 + 2]);
    assert_eq!(x, scr.content[3 * 4 + 3]);
    sub3.detach(&mut host);
    host.scr(&mut scr).unwrap();
    assert_eq!(Texel { ch: 'a', attr: Attr::normal(), fg: Color::Red, bg: Some(Color::Black) }, scr.content[0 * 4 + 0]);
    assert_eq!(Texel { ch: 'b', attr: Attr::normal(), fg: Color::Red, bg: Some(Color::Black) }, scr.content[0 * 4 + 1]);
    assert_eq!(Texel { ch: 'D', attr: Attr::normal(), fg: Color::Green, bg: Some(Color::Black) }, scr.content[0 * 4 + 2]);
    assert_eq!(x, scr.content[0 * 4 + 3]);
    assert_eq!(x, scr.content[1 * 4 + 0]);
    assert_eq!(x, scr.content[1 * 4 + 1]);
    assert_eq!(x, scr.content[1 * 4 + 2]);
    assert_eq!(x, scr.content[1 * 4 + 3]);
    assert_eq!(x, scr.content[2 * 4 + 0]);
    assert_eq!(x, scr.content[2 * 4 + 1]);
    assert_eq!(x, scr.content[2 * 4 + 2]);
    assert_eq!(x, scr.content[2 * 4 + 3]);
    assert_eq!(x, scr.content[3 * 4 + 0]);
    assert_eq!(x, scr.content[3 * 4 + 1]);
    assert_eq!(x, scr.content[3 * 4 + 2]);
    assert_eq!(x, scr.content[3 * 4 + 3]);
}

#[test]
fn frame_lists_cells_in_row_major_order() {
    let mut host = WindowsHost::new();
    let window = host.new_window();
    window.attach(&mut host);
    window.set_bounds(&mut host, Rect::tlhw(1, 2, 2, 2));
    let a = texel('a', Attr::normal(), Color::White, None);
    window.out(&mut host, 1, 0, a);
    let scans = host.frame(10, 10);
    let x = blank_texel();
    assert_eq!(
        vec![vec![
            CellWrite { y: 1, x: 2, texel: x },
            CellWrite { y: 1, x: 3, texel: x },
            CellWrite { y: 2, x: 2, texel: a },
            CellWrite { y: 2, x: 3, texel: x },
        ]],
        scans
    );
    assert_eq!(Rect::empty(), host.invalid());
    assert_eq!(Rect::empty(), window.invalid(&host));
    assert_eq!(vec![Vec::<CellWrite>::new()], host.frame(10, 10));
}

#[test]
fn frame_draws_only_what_is_invalid() {
    let mut host = WindowsHost::new();
    let window = host.new_window();
    window.attach(&mut host);
    window.set_bounds(&mut host, Rect::tlhw(0, 0, 3, 3));
    host.frame(3, 3);
    let b = texel('b', Attr::bold(), Color::Blue, Some(Color::White));
    window.out(&mut host, 1, 1, b);
    window.out(&mut host, 1, 2, b);
    assert_eq!(Rect::tlhw(1, 1, 1, 2), window.invalid(&host));
    assert_eq!(
        vec![vec![CellWrite { y: 1, x: 1, texel: b }, CellWrite { y: 1, x: 2, texel: b }]],
        host.frame(3, 3)
    );
}

#[test]
fn subwindow_of_a_clipped_parent_is_drawn_at_its_place() {
    let mut host = WindowsHost::new();
    let window = host.new_window();
    window.attach(&mut host);
    window.set_bounds(&mut host, Rect::tlhw(-1, -2, 4, 5));
    let sub = host.new_window();
    sub.attach_to(&mut host, &window);
    sub.set_bounds(&mut host, Rect::tlhw(2, 3, 1, 2));
    let a = texel('a', Attr::normal(), Color::White, None);
    let b = texel('b', Attr::normal(), Color::White, None);
    sub.out(&mut host, 0, 0, a);
    sub.out(&mut host, 0, 1, b);
    assert_eq!(Rect::tlhw(-1, -2, 4, 5), host.invalid());
    let scans = host.frame(3, 3);
    assert_eq!(2, scans.len());
    assert_eq!(
        vec![CellWrite { y: 1, x: 1, texel: a }, CellWrite { y: 1, x: 2, texel: b }],
        scans[1]
    );
    let mut s = TestScr::new(3, 3);
    sub.out(&mut host, 0, 0, b);
    host.scr(&mut s).unwrap();
    assert_eq!('b', s.content(1, 1).ch);
    assert_eq!('T', s.content(2, 2).ch);
}

#[test]
fn blit_writes_in_order_up_to_the_first_failure() {
    let a = texel('a', Attr::normal(), Color::Green, None);
    let b = texel('b', Attr::normal(), Color::Green, None);
    let c = texel('c', Attr::normal(), Color::Green, None);
    let cells = vec![
        CellWrite { y: 0, x: 0, texel: a },
        CellWrite { y: 0, x: 0, texel: b },
        CellWrite { y: 1, x: 1, texel: c },
    ];
    let mut s = FailingScr { inner: TestScr::new(2, 2), left: 3, sizeless: false };
    assert!(blit(&mut s, &cells));
    assert_eq!('b', s.inner.content(0, 0).ch);
    assert_eq!('c', s.inner.content(1, 1).ch);
    assert_eq!(0, s.left);
    let mut short = FailingScr { inner: TestScr::new(2, 2), left: 1, sizeless: false };
    assert!(!blit(&mut short, &cells));
    assert_eq!('a', short.inner.content(0, 0).ch);
    assert_eq!('T', short.inner.content(1, 1).ch);
    let mut none = FailingScr { inner: TestScr::new(2, 2), left: 0, sizeless: false };
    assert!(blit(&mut none, &Vec::new()));
}

#[test]
fn scr_reports_size_and_failed_windows() {
    let mut host = WindowsHost::new();
    let first = host.new_window();
    first.attach(&mut host);
    first.set_bounds(&mut host, Rect::tlhw(0, 0, 2, 2));
    let second = host.new_window();
    second.attach(&mut host);
    second.set_bounds(&mut host, Rect::tlhw(0, 0, 1, 1));
    let mut s = FailingScr { inner: TestScr::new(2, 2), left: 3, sizeless: false };
    let painted = host.scr(&mut s).unwrap();
    assert_eq!((2, 2, 2), (painted.height, painted.width, painted.failed));
    assert_eq!('X', s.inner.content(1, 0).ch);
    assert_eq!('T', s.inner.content(1, 1).ch);
    assert_eq!(Rect::empty(), host.invalid());
    let mut sizeless = FailingScr { inner: TestScr::new(2, 2), left: 3, sizeless: true };
    first.set_bounds(&mut host, Rect::tlhw(0, 0, 1, 2));
    assert_eq!(Err(()), host.scr(&mut sizeless));
    assert_eq!(Rect::tlhw(0, 0, 2, 2), host.invalid());
}

#[test]
fn attach_state_follows_the_tree() {
    let mut host = WindowsHost::new();
    let a = host.new_window();
    let b = host.new_window();
    let c = host.new_window();
    assert!(a.is_detached(&host) && b.is_detached(&host));
    b.attach_to(&mut host, &a);
    c.attach_to(&mut host, &b);
    assert!(c.is_detached(&host));
    assert!(host.is_under(&a, &c));
    assert!(host.is_under(&c, &c));
    assert!(!host.is_under(&c, &a));
    a.attach(&mut host);
    assert!(!a.is_detached(&host) && !b.is_detached(&host) && !c.is_detached(&host));
    assert_eq!(Attach::Window(b.id()), host.attach_of(c.id()));
    assert_eq!(vec![c.id()], host.subwindows(b.id()));
    assert!(!a.detach_core(&mut host) == false);
    assert!(!a.detach_core(&mut host));
    assert!(c.is_detached(&host));
}

#[test]
fn set_z_index_clamps_to_the_list() {
    let mut host = WindowsHost::new();
    let a = host.new_window();
    let b = host.new_window();
    let c = host.new_window();
    a.attach(&mut host);
    b.attach(&mut host);
    c.attach(&mut host);
    assert_eq!(vec![0, 1, 2], host.windows());
    c.set_z_index(&mut host, 0);
    assert_eq!(vec![2, 0, 1], host.windows());
    c.set_z_index(&mut host, 2);
    assert_eq!(vec![0, 1, 2], host.windows());
    a.set_z_index(&mut host, 1);
    assert_eq!(vec![1, 0, 2], host.windows());
    a.set_z_index(&mut host, usize::MAX);
    assert_eq!(vec![1, 2, 0], host.windows());
    assert_eq!(2, a.z_index(&host));
}

#[test]
fn set_bounds_keeps_the_overlap_and_blanks_the_rest() {
    let mut w = WindowData::new();
    w.set_bounds(Rect::tlhw(0, 0, 2, 2));
    let a = texel('a', Attr::normal(), Color::Green, None);
    w.out(0, 0, a);
    w.out(1, 1, a);
    assert_eq!(Rect::tlhw(0, 0, 2, 2), w.invalid());
    let former = w.set_bounds(Rect::tlhw(4, 4, 1, 3));
    assert_eq!(Rect::tlhw(0, 0, 2, 2), former);
    assert_eq!(Rect::tlhw(0, 0, 1, 2), w.invalid());
    assert_eq!(a, w.cell(0, 0));
    assert_eq!(blank_texel(), w.cell(0, 1));
    assert_eq!(blank_texel(), w.cell(0, 2));
    assert_eq!(Texel { ch: 'X', attr: Attr::bold(), fg: Color::Red, bg: None }, blank_texel());
}

#[test]
fn set_bounds_far_away_invalidates_the_whole_plane() {
    let mut host = WindowsHost::new();
    let top = host.new_window();
    top.attach(&mut host);
    top.set_bounds(&mut host, Rect::tlhw(isize::MAX - 1, 0, 1, 1));
    host.frame(5, 5);
    let sub = host.new_window();
    sub.attach_to(&mut host, &top);
    sub.set_bounds(&mut host, Rect::tlhw(5, 0, 1, 1));
    assert_eq!(Rect::everything(), host.invalid());
    assert_eq!(Rect::tlhw(0, 0, isize::MAX, isize::MAX), Rect::everything());
}
