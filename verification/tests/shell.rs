use either::{Either, Left, Right};
use ntfl::draw::{draw_border, draw_text, draw_texel, fill_rect, Border, Graph};
use ntfl::fw::{Fw, Obj, Type};
use ntfl::geometry::Rect;
use ntfl::scr::{Attr, Color, Key, Scr, Texel};
use ntfl::window::{Attach, WindowsHost};
use ntfl::{key_action, Action, Ntfl};

pub struct TestFw(());

struct Screen {
    height: isize,
    width: isize,
    content: Vec<Texel>,
    cursor: Option<(isize, isize)>,
    keys: Vec<Either<Key, char>>,
}

impl Screen {
    fn new(height: isize, width: isize, keys: Vec<Either<Key, char>>) -> Screen {
        Screen {
            height,
            width,
            content: vec![
                Texel { ch: 'T', attr: Attr::normal(), fg: Color::Cyan, bg: Some(Color::Red) };
                (height * width) as usize
            ],
            cursor: None,
            keys,
        }
    }

    fn row(&self, y: isize) -> String {
        (0..self.width).map(|x| self.content[(y * self.width + x) as usize].ch).collect()
    }

    fn cell(&self, y: isize, x: isize) -> Texel {
        self.content[(y * self.width + x) as usize]
    }
}

impl Scr for Screen {
    fn tells_height(&self, r: Result<isize, ()>) -> bool {
        r == Ok(self.height)
    }

    fn tells_width(&self, r: Result<isize, ()>) -> bool {
        r == Ok(self.width)
    }

    fn wrote(&self, _after: &Self, y: isize, x: isize, _c: &Texel, done: bool) -> bool {
        done == (0 <= y && y < self.height && 0 <= x && x < self.width)
    }

    fn get_height(&self) -> Result<isize, ()> {
        Ok(self.height)
    }

    fn get_width(&self) -> Result<isize, ()> {
        Ok(self.width)
    }

    fn out(&mut self, y: isize, x: isize, c: &Texel) -> Result<(), ()> {
        if y < 0 || x < 0 || y >= self.height || x >= self.width {
            return Err(());
        }
        self.content[(y * self.width + x) as usize] = c.clone();
        Ok(())
    }

    fn refresh(&mut self, cursor: Option<(isize, isize)>) -> Result<(), ()> {
        self.cursor = cursor;
        Ok(())
    }

    fn getch(&mut self) -> Result<Either<Key, char>, ()> {
        if self.keys.is_empty() {
            Err(())
        } else {
            Ok(self.keys.remove(0))
        }
    }
}

fn rect_obj(ntfl: &Ntfl<TestFw>, r: Rect) -> Obj<TestFw> {
    Obj::Val(ntfl.rect_type().box_(r))
}

#[test]
fn shell_value_types_read_and_write_text() {
    let mut fw = Fw::new(TestFw(()));
    let ntfl = Ntfl::new(&mut fw);
    let fw = &fw;
    assert!(fw.val_type("Str") == Some(ntfl.str_type()));
    assert!(fw.val_type("Bool") == Some(ntfl.bool_type()));
    assert!(fw.val_type("Rect") == Some(ntfl.rect_type()));
    let text = ntfl.str_type().parse(" any text ", fw).unwrap();
    assert_eq!(" any text ", text.unbox::<String>());
    assert_eq!(" any text ", text.to_string(fw));
    let yes = ntfl.bool_type().parse("True", fw).unwrap();
    assert_eq!(true, *yes.unbox::<bool>());
    assert_eq!("True", yes.to_string(fw));
    assert_eq!("False", ntfl.bool_type().box_(false).to_string(fw));
    assert!(ntfl.bool_type().parse("true", fw).is_none());
    let r = ntfl.rect_type().parse("5,7,10,70", fw).unwrap();
    assert_eq!(Rect::tlhw(5, 7, 10, 70), *r.unbox::<Rect>());
    assert_eq!("5,7,10,70", r.to_string(fw));
    assert!(ntfl.rect_type().parse("5,7,10", fw).is_none());
}

#[test]
fn create_visual() {
    let mut fw = Fw::new(TestFw(()));
    let mut ntfl = Ntfl::new(&mut fw);
    let fw = &fw;
    let mut r = ntfl.root_type().create(fw, &mut ntfl);
    let mut v = ntfl.visual_type().create(fw, &mut ntfl);
    let parent = ntfl.reference(&r).unwrap();
    v.set(ntfl.visual_parent_prop(), parent, fw, &mut ntfl).unwrap();
    let root_window = ntfl.window_of(&r).unwrap().id();
    let window = ntfl.window_of(&v).unwrap().id();
    assert_eq!(Attach::Host, ntfl.host().attach_of(root_window));
    assert_eq!(Attach::Window(root_window), ntfl.host().attach_of(window));
    let mut scr = Screen::new(4, 6, vec![Left(Key { value: Key::RESIZE }), Right('x'), Right('q')]);
    ntfl.set_root_bounds(&mut r, scr.get_height().unwrap(), scr.get_width().unwrap(), fw);
    let mut repaints = 0;
    loop {
        ntfl.scr(&mut scr).unwrap();
        repaints += 1;
        match key_action(&scr.getch().unwrap()) {
            Action::Resize => {
                scr = Screen::new(3, 5, scr.keys.clone());
                ntfl.set_root_bounds(&mut r, scr.get_height().unwrap(), scr.get_width().unwrap(), fw);
            }
            Action::Quit => break,
            Action::Repaint => {}
        }
    }
    assert_eq!(3, repaints);
    assert_eq!(Rect::tlhw(0, 0, 3, 5), ntfl.window_of(&r).unwrap().bounds(ntfl.host()));
    assert_eq!("XXXXX", scr.row(0));
    assert_eq!("XXXXX", scr.row(2));
}

#[test]
fn visuals_follow_their_properties() {
    let mut fw = Fw::new(TestFw(()));
    let mut ntfl = Ntfl::new(&mut fw);
    let fw = &fw;
    assert_eq!("Str", ntfl.str_type().name(fw));
    assert_eq!("Bool", ntfl.bool_type().name(fw));
    assert_eq!("Rect", ntfl.rect_type().name(fw));
    assert_eq!("Visual", ntfl.visual_type().name(fw));
    assert_eq!("Root", ntfl.root_type().name(fw));
    assert_eq!("Bounds", ntfl.visual_bounds_prop().name(fw));
    assert_eq!("Parent", ntfl.visual_parent_prop().name(fw));
    assert!(ntfl.root_type().is(ntfl.visual_type(), fw));
    assert!(fw.val_type("Rect") == Some(ntfl.rect_type()));
    assert!(fw.dep_prop(ntfl.visual_type(), "Parent") == Some(ntfl.visual_parent_prop()));
    assert!(ntfl.root_type().is_locked(ntfl.visual_bounds_prop(), fw));
    assert!(ntfl.root_type().is_locked(ntfl.visual_parent_prop(), fw));
    assert!(!ntfl.visual_type().is_locked(ntfl.visual_bounds_prop(), fw));
    let bounds = ntfl.visual_bounds_prop();
    let parent = ntfl.visual_parent_prop();
    let mut root = ntfl.root_type().create(fw, &mut ntfl);
    let mut a = ntfl.visual_type().create(fw, &mut ntfl);
    let mut b = ntfl.visual_type().create(fw, &mut ntfl);
    assert_eq!(3, ntfl.host().len());
    assert_eq!(&Rect::empty(), a.get(bounds, fw).unbox::<Rect>());
    assert!(matches!(a.get(parent, fw), Obj::Nil(Type::Dep(t)) if *t == ntfl.visual_type()));
    assert_eq!(Err(()), root.set(bounds, rect_obj(&ntfl, Rect::tlhw(0, 0, 1, 1)), fw, &mut ntfl));
    assert_eq!(Err(()), root.set(parent, ntfl.reference(&a).unwrap(), fw, &mut ntfl));
    ntfl.set_root_bounds(&mut root, 10, 20, fw);
    let wr = ntfl.window_of(&root).unwrap().id();
    let wa = ntfl.window_of(&a).unwrap().id();
    let wb = ntfl.window_of(&b).unwrap().id();
    assert_eq!(Rect::tlhw(0, 0, 10, 20), ntfl.window_of(&root).unwrap().bounds(ntfl.host()));
    a.set(bounds, rect_obj(&ntfl, Rect::tlhw(1, 2, 3, 4)), fw, &mut ntfl).unwrap();
    assert_eq!(Rect::empty(), ntfl.window_of(&a).unwrap().bounds(ntfl.host()));
    a.set(parent, ntfl.reference(&root).unwrap(), fw, &mut ntfl).unwrap();
    assert_eq!(Attach::Window(wr), ntfl.host().attach_of(wa));
    assert_eq!(Rect::tlhw(1, 2, 3, 4), ntfl.window_of(&a).unwrap().bounds(ntfl.host()));
    a.set(bounds, rect_obj(&ntfl, Rect::tlhw(2, 2, 3, 3)), fw, &mut ntfl).unwrap();
    assert_eq!(Rect::tlhw(2, 2, 3, 3), ntfl.window_of(&a).unwrap().bounds(ntfl.host()));
    b.set(parent, ntfl.reference(&a).unwrap(), fw, &mut ntfl).unwrap();
    assert_eq!(Attach::Window(wa), ntfl.host().attach_of(wb));
    a.set(parent, ntfl.reference(&b).unwrap(), fw, &mut ntfl).unwrap();
    assert_eq!(Attach::Unattached, ntfl.host().attach_of(wa));
    assert_eq!(Attach::Window(wa), ntfl.host().attach_of(wb));
    a.set(parent, ntfl.reference(&root).unwrap(), fw, &mut ntfl).unwrap();
    b.set(parent, Obj::Nil(Type::Dep(ntfl.visual_type())), fw, &mut ntfl).unwrap();
    assert_eq!(Attach::Unattached, ntfl.host().attach_of(wb));
    assert_eq!(vec![wa], ntfl.host().subwindows(wr));
    a.reset(parent, fw).unwrap();
    assert_eq!(Attach::Window(wr), ntfl.host().attach_of(wa));
}

#[test]
fn moved_visual_is_in_front_of_its_new_siblings() {
    let mut fw = Fw::new(TestFw(()));
    let mut ntfl = Ntfl::new(&mut fw);
    let fw = &fw;
    let bounds = ntfl.visual_bounds_prop();
    let parent = ntfl.visual_parent_prop();
    assert!(ntfl.root_type().subscribers(bounds, fw) == ntfl.visual_type().subscribers(bounds, fw));
    assert_eq!(1, ntfl.root_type().subscribers(parent, fw).len());
    let mut root = ntfl.root_type().create(fw, &mut ntfl);
    ntfl.set_root_bounds(&mut root, 10, 20, fw);
    let mut a = ntfl.visual_type().create(fw, &mut ntfl);
    let mut b = ntfl.visual_type().create(fw, &mut ntfl);
    let wr = ntfl.window_of(&root).unwrap().id();
    let wa = ntfl.window_of(&a).unwrap().id();
    let wb = ntfl.window_of(&b).unwrap().id();
    a.set(bounds, rect_obj(&ntfl, Rect::tlhw(1, 2, 3, 4)), fw, &mut ntfl).unwrap();
    a.set(parent, ntfl.reference(&root).unwrap(), fw, &mut ntfl).unwrap();
    b.set(parent, ntfl.reference(&root).unwrap(), fw, &mut ntfl).unwrap();
    assert_eq!(vec![wa, wb], ntfl.host().subwindows(wr));
    let mut scr = Screen::new(10, 20, Vec::new());
    ntfl.scr(&mut scr).unwrap();
    assert_eq!(Rect::empty(), ntfl.host().invalid());
    a.set(parent, ntfl.reference(&root).unwrap(), fw, &mut ntfl).unwrap();
    assert_eq!(vec![wb, wa], ntfl.host().subwindows(wr));
    assert_eq!(Rect::tlhw(1, 2, 3, 4), ntfl.window_of(&a).unwrap().bounds(ntfl.host()));
    assert_eq!(Rect::empty(), ntfl.window_of(&b).unwrap().bounds(ntfl.host()));
    assert_eq!(Rect::tlhw(1, 2, 3, 4), ntfl.host().invalid());
}

#[test]
fn it_works() {
    let mut scr = Screen::new(13, 40, vec![Left(Key { value: Key::UP }), Right('z'), Right('\n')]);
    let mut host = WindowsHost::new();
    let height = scr.get_height().unwrap();
    let width = scr.get_width().unwrap();
    let bg = host.new_window();
    bg.attach(&mut host);
    bg.set_bounds(&mut host, Rect::tlhw(0, 0, height, width));
    let bg_area = bg.area(&host);
    fill_rect(&mut host, &bg, &bg_area, &' ', Attr::normal(), Color::Black, None);
    let window = host.new_window();
    window.attach(&mut host);
    window.set_bounds(&mut host, Rect::tlhw(0, 0, 13, 40));
    let window_area = window.area(&host);
    fill_rect(&mut host, &window, &window_area, &' ', Attr::normal(), Color::Black, None);
    draw_border(&mut host, &window, &Rect::tlbr(10, 0, 13, 40), &Border::new().ul(&Graph::LTee).ur(&Graph::RTee), Attr::bold(), Color::Blue, None);
    draw_border(&mut host, &window, &Rect::tlbr(0, 0, 10, 40), &Border::new().no_bottom(), Attr::bold(), Color::Blue, None);
    draw_text(&mut host, &window, 1, 1, "A\u{44b}cdefgh", Attr::normal(), Color::Green, None);
    host.scr(&mut scr).unwrap();
    scr.refresh(Some((1, 1))).unwrap();
    assert_eq!(Some((1, 1)), scr.cursor);
    assert_eq!(format!("l{}k", "q".repeat(38)), scr.row(0));
    assert_eq!(format!("xA\u{44b}cdefgh{}x", " ".repeat(30)), scr.row(1));
    assert_eq!(format!("t{}u", "q".repeat(38)), scr.row(10));
    assert_eq!(format!("m{}j", "q".repeat(38)), scr.row(12));
    let mut n = false;
    loop {
        n = !n;
        match scr.getch().unwrap() {
            Left(_) => {
                let z_index = window.z_index(&host);
                window.set_z_index(&mut host, 1 - z_index);
                assert_eq!(0, window.z_index(&host));
            }
            Right('\n') => {
                break;
            }
            Right(c) => {
                fill_rect(&mut host, &bg, &bg_area, &' ', Attr::normal(), Color::Black, if n { Some(Color::Green) } else { None });
                draw_texel(&mut host, &window, 1, 1, &c, Attr::underline(), Color::Red, None);
            }
        }
        host.scr(&mut scr).unwrap();
        scr.refresh(None).unwrap();
    }
    assert_eq!(None, scr.cursor);
    assert_eq!(" ".repeat(40), scr.row(1));
    assert_eq!(Texel { ch: ' ', attr: Attr::normal(), fg: Color::Black, bg: None }, scr.cell(1, 1));
    assert_eq!(Texel { ch: 'z', attr: Attr::underline(), fg: Color::Red, bg: None }, window.cell(&host, 1, 1));
}
