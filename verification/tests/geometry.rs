use ntfl::geometry::Rect;
use std::cell::RefCell;

#[test]
fn rect_contains() {
    let r = Rect::tlhw(5, 7, 10, 70);
    assert!(r.contains(10, 10));
    assert!(r.contains(5, 10));
    assert!(!r.contains(10, 5));
    assert!(!r.contains(15, 77));
}

#[test]
fn rect_contains_is_half_open() {
    let r = Rect::tlhw(-2, 3, 2, 1);
    assert!(r.contains(-2, 3) && r.contains(-1, 3));
    assert!(!r.contains(0, 3) && !r.contains(-3, 3) && !r.contains(-1, 4) && !r.contains(-1, 2));
    assert!(!Rect::empty().contains(0, 0));
}

#[test]
fn rect_constructors() {
    assert_eq!(Rect::empty(), Rect::tlhw(1, 2, 0, 5));
    assert_eq!(Rect::empty(), Rect::tlhw(1, 2, 5, -1));
    assert_eq!(Rect::empty(), Rect::tlbr(3, 3, 3, 9));
    assert_eq!(Rect::empty(), Rect::tlbr(3, 3, 9, 2));
    assert_eq!(Rect::tlhw(1, 2, 3, 4), Rect::tlbr(1, 2, 4, 6));
    assert_eq!(Some((1, 2)), Rect::tlhw(1, 2, 3, 4).loc());
    assert_eq!((3, 4), Rect::tlhw(1, 2, 3, 4).size());
    assert_eq!(None, Rect::empty().loc());
    assert_eq!((0, 0), Rect::empty().size());
    assert!(Rect::empty().is_empty() && !Rect::tlhw(0, 0, 1, 1).is_empty());
}

#[test]
fn rect_include_cell() {
    let mut r = Rect::empty();
    r.include_cell(4, 9);
    assert_eq!(Rect::tlhw(4, 9, 1, 1), r);
    r.include_cell(6, 9);
    assert_eq!(Rect::tlhw(4, 9, 3, 1), r);
    r.include_cell(5, 3);
    assert_eq!(Rect::tlhw(4, 3, 3, 7), r);
    r.include_cell(1, 20);
    assert_eq!(Rect::tlbr(1, 3, 7, 21), r);
    r.include_cell(2, 4);
    assert_eq!(Rect::tlbr(1, 3, 7, 21), r);
    let mut column = Rect::tlhw(5, 0, 10, 1);
    column.include_cell(3, 0);
    assert_eq!(Rect::tlbr(3, 0, 15, 1), column);
}

#[test]
fn rect_offset() {
    let mut r = Rect::tlhw(1, 2, 3, 4);
    r.offset(-5, 10);
    assert_eq!(Rect::tlhw(-4, 12, 3, 4), r);
    let mut e = Rect::empty();
    e.offset(7, 7);
    assert_eq!(Rect::empty(), e);
    assert_eq!(Some(Rect::tlhw(2, 2, 3, 4)), Rect::tlhw(1, 2, 3, 4).shifted(1, 0));
    assert_eq!(Some(Rect::empty()), Rect::empty().shifted(isize::MAX, isize::MIN));
    assert_eq!(None, Rect::tlhw(1, 2, 3, 4).shifted(isize::MAX - 3, 0));
    assert_eq!(Some(Rect::tlhw(isize::MAX - 3, 2, 3, 4)), Rect::tlhw(1, 2, 3, 4).shifted(isize::MAX - 4, 0));
    assert_eq!(Some(Rect::tlhw(1, isize::MIN + 2, 3, 4)), Rect::tlhw(1, 2, 3, 4).shifted(0, isize::MIN));
    assert_eq!(None, Rect::tlhw(1, -2, 3, 4).shifted(0, isize::MIN));
}

fn union(a: Rect, b: Rect) -> Rect {
    let mut r = a;
    r.union(b);
    r
}

#[test]
fn rect_union_and_intersection_laws() {
    let a = Rect::tlhw(0, 0, 4, 4);
    let b = Rect::tlhw(2, 3, 5, 2);
    let c = Rect::tlhw(-3, 1, 4, 9);
    let e = Rect::empty();
    assert_eq!(Rect::tlbr(0, 0, 7, 5), union(a, b));
    assert_eq!(union(a, b), union(b, a));
    assert_eq!(union(union(a, b), c), union(a, union(b, c)));
    assert_eq!(a, union(a, e));
    assert_eq!(a, union(e, a));
    assert_eq!(Rect::tlbr(2, 3, 4, 4), a.inters_rect(&b));
    assert_eq!(a.inters_rect(&b), b.inters_rect(&a));
    assert_eq!(a.inters_rect(&b).inters_rect(&c), a.inters_rect(&b.inters_rect(&c)));
    assert_eq!(e, a.inters_rect(&e));
    assert_eq!(e, e.inters_rect(&a));
    assert_eq!(e, a.inters_rect(&Rect::tlhw(4, 0, 1, 1)));
    for y in -4..9 {
        for x in -1..11 {
            assert_eq!(a.contains(y, x) && b.contains(y, x), a.inters_rect(&b).contains(y, x));
            assert_eq!(b.contains(y, x) && c.contains(y, x), b.inters_rect(&c).contains(y, x));
        }
    }
}

#[test]
fn rect_join_is_union_where_it_can_be_held() {
    let mut r = Rect::tlhw(0, 0, 4, 4);
    r.join(&Rect::tlhw(2, 3, 5, 2));
    assert_eq!(Rect::tlbr(0, 0, 7, 5), r);
    r.join(&Rect::empty());
    assert_eq!(Rect::tlbr(0, 0, 7, 5), r);
    let mut far = Rect::tlhw(isize::MIN, 0, 1, 1);
    far.join(&Rect::tlhw(isize::MAX - 1, 0, 1, 1));
    assert_eq!(Rect::everything(), far);
    assert_eq!(Rect::tlhw(0, 0, isize::MAX, isize::MAX), Rect::everything());
    let mut from_empty = Rect::empty();
    from_empty.join(&Rect::tlhw(isize::MIN, isize::MIN, 1, 1));
    assert_eq!(Rect::tlhw(isize::MIN, isize::MIN, 1, 1), from_empty);
}

#[test]
fn rect_shift_clip() {
    let clip = Rect::tlhw(0, 0, 10, 10);
    assert_eq!(Rect::tlhw(0, 0, 2, 3), Rect::tlhw(5, 5, 4, 4).shift_clip(-7, -6, &clip));
    assert_eq!(Rect::tlhw(8, 9, 2, 1), Rect::tlhw(0, 0, 4, 4).shift_clip(8, 9, &clip));
    assert_eq!(Rect::empty(), Rect::tlhw(0, 0, 4, 4).shift_clip(10, 0, &clip));
    assert_eq!(Rect::empty(), Rect::empty().shift_clip(1, 1, &clip));
    assert_eq!(Rect::empty(), Rect::tlhw(0, 0, 4, 4).shift_clip(0, 0, &Rect::empty()));
    assert_eq!(
        Rect::tlhw(0, 0, 3, 10),
        Rect::tlhw(isize::MAX - 5, isize::MIN, 5, isize::MAX)
            .shift_clip(-(isize::MAX as i128) + 3, isize::MAX as i128, &clip)
    );
}

#[test]
fn rect_line_intersections() {
    let r = Rect::tlhw(2, 3, 4, 5);
    assert_eq!(Some((3, 8)), r.inters_h_line(2, -10, 10));
    assert_eq!(Some((4, 6)), r.inters_h_line(5, 4, 6));
    assert_eq!(None, r.inters_h_line(6, 0, 10));
    assert_eq!(None, r.inters_h_line(1, 0, 10));
    assert_eq!(None, r.inters_h_line(3, 8, 10));
    assert_eq!(None, r.inters_h_line(3, 5, 5));
    assert_eq!(Some((2, 6)), r.inters_v_line(-1, 100, 7));
    assert_eq!(Some((3, 4)), r.inters_v_line(3, 4, 3));
    assert_eq!(None, r.inters_v_line(0, 10, 8));
    assert_eq!(None, r.inters_v_line(0, 10, 2));
    assert_eq!(None, r.inters_v_line(0, 2, 4));
    assert_eq!(None, Rect::empty().inters_h_line(0, 0, 1));
    assert_eq!(None, Rect::empty().inters_v_line(0, 1, 0));
}

#[test]
fn rect_scan_is_row_major_and_stops_early() {
    let seen = RefCell::new(Vec::new());
    let r = Rect::tlhw(1, 5, 2, 3);
    let none: Option<()> = r.scan(|y, x| {
        seen.borrow_mut().push((y, x));
        None
    });
    assert_eq!(None, none);
    assert_eq!(vec![(1, 5), (1, 6), (1, 7), (2, 5), (2, 6), (2, 7)], *seen.borrow());
    seen.borrow_mut().clear();
    let found = r.scan(|y, x| {
        seen.borrow_mut().push((y, x));
        if x == 6 { Some(y * 10 + x) } else { None }
    });
    assert_eq!(Some(16), found);
    assert_eq!(vec![(1, 5), (1, 6)], *seen.borrow());
    assert_eq!(None, Rect::empty().scan(|_, _| Some(1)));
}
