use ntfl::draw::{
    draw_border, draw_h_line, draw_text, draw_texel, draw_v_line, fill_rect, Border, Graph, ToTexel,
};
use ntfl::geometry::Rect;
use ntfl::scr::{Attr, Color, Texel};
use ntfl::window::{blank_texel, Window, WindowsHost};

fn window(height: isize, width: isize) -> (WindowsHost, Window) {
    let mut host = WindowsHost::new();
    let w = host.new_window();
    w.set_bounds(&mut host, Rect::tlhw(10, 20, height, width));
    (host, w)
}

fn rows(host: &WindowsHost, w: &Window) -> Vec<String> {
    let (height, width) = w.bounds(host).size();
    (0..height).map(|y| (0..width).map(|x| w.cell(host, y, x).ch).collect()).collect()
}

#[test]
fn glyphs_become_cells() {
    let t = Texel { ch: 'z', attr: Attr::dim(), fg: Color::Cyan, bg: Some(Color::Blue) };
    assert_eq!(t, t.texel(Attr::bold(), Color::Red, None));
    assert_eq!(
        Texel { ch: 'c', attr: Attr::bold(), fg: Color::Red, bg: None },
        'c'.texel(Attr::bold(), Color::Red, None)
    );
    assert_eq!(
        Texel { ch: 'q', attr: Attr::bold() | Attr::altcharset(), fg: Color::Red, bg: Some(Color::White) },
        Graph::HLine.texel(Attr::bold(), Color::Red, Some(Color::White))
    );
    let codes = [
        (Graph::ULCorner, 'l'), (Graph::URCorner, 'k'), (Graph::LLCorner, 'm'), (Graph::LRCorner, 'j'),
        (Graph::LTee, 't'), (Graph::RTee, 'u'), (Graph::BTee, 'v'), (Graph::TTee, 'w'),
        (Graph::HLine, 'q'), (Graph::VLine, 'x'), (Graph::Plus, 'n'), (Graph::S1, 'o'),
        (Graph::S9, 's'), (Graph::Diamond, '`'), (Graph::CkBoard, 'a'), (Graph::Degree, 'f'),
        (Graph::PlMinus, 'g'), (Graph::Bullet, '~'), (Graph::LArrow, ','), (Graph::RArrow, '+'),
        (Graph::DArrow, '.'), (Graph::UArrow, '-'), (Graph::Board, 'h'), (Graph::Lantern, 'i'),
        (Graph::Block, '0'), (Graph::S3, 'p'), (Graph::S7, 'r'), (Graph::LessEqual, 'y'),
        (Graph::GreaterEqual, 'z'), (Graph::Pi, '{'), (Graph::NotEqual, '|'), (Graph::Sterling, '}'),
    ];
    for (graph, code) in codes {
        assert_eq!(code, graph.code());
    }
}

#[test]
fn draw_texel_is_clipped() {
    let (mut host, w) = window(2, 3);
    draw_texel(&mut host, &w, 1, 2, &'a', Attr::normal(), Color::Green, None);
    draw_texel(&mut host, &w, 2, 0, &'b', Attr::normal(), Color::Green, None);
    draw_texel(&mut host, &w, 0, 3, &'c', Attr::normal(), Color::Green, None);
    draw_texel(&mut host, &w, -1, 0, &'d', Attr::normal(), Color::Green, None);
    assert_eq!(vec!["XXX", "XXa"], rows(&host, &w));
    assert_eq!(Rect::tlhw(1, 2, 1, 1), w.invalid(&host));
    assert_eq!(Texel { ch: 'a', attr: Attr::normal(), fg: Color::Green, bg: None }, w.cell(&host, 1, 2));
}

#[test]
fn lines_are_clipped_and_have_default_glyphs() {
    let (mut host, w) = window(3, 5);
    draw_h_line(&mut host, &w, 1, -2, 3, Some(&'-'), Attr::normal(), Color::Red, None);
    assert_eq!(vec!["XXXXX", "---XX", "XXXXX"], rows(&host, &w));
    assert_eq!(Rect::tlhw(1, 0, 1, 3), w.invalid(&host));
    draw_v_line(&mut host, &w, 1, 9, 4, Some(&'|'), Attr::normal(), Color::Red, None);
    assert_eq!(vec!["XXXXX", "---X|", "XXXX|"], rows(&host, &w));
    assert_eq!(Rect::tlhw(1, 0, 2, 5), w.invalid(&host));
    draw_h_line(&mut host, &w, 0, 1, 4, None, Attr::bold(), Color::Red, None);
    draw_v_line(&mut host, &w, 0, 1, 0, None, Attr::bold(), Color::Red, None);
    assert_eq!(vec!["xqqqX", "---X|", "XXXX|"], rows(&host, &w));
    assert_eq!(Attr::bold() | Attr::altcharset(), w.cell(&host, 0, 1).attr);
    draw_h_line(&mut host, &w, 3, 0, 5, Some(&'!'), Attr::normal(), Color::Red, None);
    draw_h_line(&mut host, &w, 2, 3, 3, Some(&'!'), Attr::normal(), Color::Red, None);
    draw_v_line(&mut host, &w, 0, 3, 5, Some(&'!'), Attr::normal(), Color::Red, None);
    draw_v_line(&mut host, &w, 2, 1, 1, Some(&'!'), Attr::normal(), Color::Red, None);
    assert_eq!(vec!["xqqqX", "---X|", "XXXX|"], rows(&host, &w));
}

#[test]
fn fill_rect_is_clipped() {
    let (mut host, w) = window(3, 4);
    fill_rect(&mut host, &w, &Rect::tlhw(1, 2, 10, 10), &'#', Attr::normal(), Color::Blue, None);
    assert_eq!(vec!["XXXX", "XX##", "XX##"], rows(&host, &w));
    assert_eq!(Rect::tlhw(1, 2, 2, 2), w.invalid(&host));
    fill_rect(&mut host, &w, &Rect::tlhw(5, 5, 1, 1), &'!', Attr::normal(), Color::Blue, None);
    fill_rect(&mut host, &w, &Rect::empty(), &'!', Attr::normal(), Color::Blue, None);
    assert_eq!(vec!["XXXX", "XX##", "XX##"], rows(&host, &w));
    let area = w.area(&host);
    fill_rect(&mut host, &w, &area, &' ', Attr::normal(), Color::Black, None);
    assert_eq!(vec!["    ", "    ", "    "], rows(&host, &w));
    assert_eq!(Rect::tlhw(0, 0, 3, 4), w.invalid(&host));
}

#[test]
fn text_is_clipped_on_both_sides() {
    let (mut host, w) = window(2, 5);
    draw_text(&mut host, &w, 0, 1, "ab", Attr::normal(), Color::Green, None);
    assert_eq!(vec!["XabXX", "XXXXX"], rows(&host, &w));
    assert_eq!(Rect::tlhw(0, 1, 1, 2), w.invalid(&host));
    draw_text(&mut host, &w, 1, -3, "A\u{44b}cdefgh", Attr::normal(), Color::Green, None);
    assert_eq!(vec!["XabXX", "defgh"], rows(&host, &w));
    draw_text(&mut host, &w, 0, 3, "wxyz", Attr::bold(), Color::Red, Some(Color::Blue));
    assert_eq!(vec!["Xabwx", "defgh"], rows(&host, &w));
    assert_eq!(Texel { ch: 'x', attr: Attr::bold(), fg: Color::Red, bg: Some(Color::Blue) }, w.cell(&host, 0, 4));
    draw_text(&mut host, &w, 2, 0, "no", Attr::normal(), Color::Green, None);
    draw_text(&mut host, &w, -1, 0, "no", Attr::normal(), Color::Green, None);
    draw_text(&mut host, &w, 0, 5, "no", Attr::normal(), Color::Green, None);
    draw_text(&mut host, &w, 0, -2, "no", Attr::normal(), Color::Green, None);
    draw_text(&mut host, &w, 0, isize::MIN, "no", Attr::normal(), Color::Green, None);
    draw_text(&mut host, &w, 0, 0, "", Attr::normal(), Color::Green, None);
    assert_eq!(vec!["Xabwx", "defgh"], rows(&host, &w));
}

#[test]
fn border_runs_along_the_inside() {
    let (mut host, w) = window(4, 6);
    let area = w.area(&host);
    draw_border(&mut host, &w, &area, &Border::new(), Attr::bold(), Color::Blue, None);
    assert_eq!(vec!["lqqqqk", "xXXXXx", "xXXXXx", "mqqqqj"], rows(&host, &w));
    assert_eq!(Attr::bold() | Attr::altcharset(), w.cell(&host, 0, 0).attr);
    assert_eq!(blank_texel(), w.cell(&host, 1, 1));
    assert_eq!(Rect::tlhw(0, 0, 4, 6), w.invalid(&host));
}

#[test]
fn border_parts() {
    let (mut host, w) = window(3, 5);
    let area = w.area(&host);
    draw_border(&mut host, &w, &area, &Border::new().no_bottom(), Attr::normal(), Color::Blue, None);
    assert_eq!(vec!["lqqqk", "xXXXx", "xXXXx"], rows(&host, &w));
    let (mut host, w) = window(3, 5);
    draw_border(&mut host, &w, &area, &Border::new().no_top().no_left_side(), Attr::normal(), Color::Blue, None);
    assert_eq!(vec!["XXXXx", "XXXXx", "qqqqj"], rows(&host, &w));
    let (mut host, w) = window(3, 5);
    draw_border(&mut host, &w, &area, &Border::new().no_right_side(), Attr::normal(), Color::Blue, None);
    assert_eq!(vec!["lqqqq", "xXXXX", "mqqqq"], rows(&host, &w));
    let (mut host, w) = window(3, 5);
    draw_border(&mut host, &w, &area, &Border::new().no_ul().no_lr(), Attr::normal(), Color::Blue, None);
    assert_eq!(vec!["Xqqqk", "xXXXx", "mqqqX"], rows(&host, &w));
    let (mut host, w) = window(3, 5);
    draw_border(&mut host, &w, &area, &Border::new().no_ur().no_ll(), Attr::normal(), Color::Blue, None);
    assert_eq!(vec!["lqqqX", "xXXXx", "Xqqqj"], rows(&host, &w));
    let (mut host, w) = window(3, 5);
    draw_border(&mut host, &w, &area, &Border::new().no_upper().no_lower().no_left().no_right(), Attr::normal(), Color::Blue, None);
    assert_eq!(vec!["lXXXk", "XXXXX", "mXXXj"], rows(&host, &w));
    let (mut host, w) = window(3, 5);
    let plain = Border::new().ul(&'1').ur(&'2').ll(&'3').lr(&'4').upper(&'u').lower(&'d').left(&'<').right(&'>');
    draw_border(&mut host, &w, &area, &plain, Attr::normal(), Color::Blue, None);
    assert_eq!(vec!["1uuu2", "<XXX>", "3ddd4"], rows(&host, &w));
    assert_eq!(Attr::normal(), w.cell(&host, 0, 0).attr);
    let (mut host, w) = window(3, 5);
    draw_border(&mut host, &w, &Rect::tlhw(1, 1, 5, 3), &plain, Attr::normal(), Color::Blue, None);
    assert_eq!(vec!["XXXXX", "X1u2X", "X<X>X"], rows(&host, &w));
    draw_border(&mut host, &w, &Rect::empty(), &plain, Attr::normal(), Color::Blue, None);
    assert_eq!(vec!["XXXXX", "X1u2X", "X<X>X"], rows(&host, &w));
    let (mut host, w) = window(3, 5);
    draw_border(&mut host, &w, &Rect::tlhw(1, 2, 1, 1), &plain, Attr::normal(), Color::Blue, None);
    assert_eq!(vec!["XXXXX", "XX4XX", "XXXXX"], rows(&host, &w));
}

#[test]
fn two_borders_share_an_edge() {
    let (mut host, w) = window(13, 40);
    let area = w.area(&host);
    fill_rect(&mut host, &w, &area, &' ', Attr::normal(), Color::Black, None);
    draw_border(&mut host, &w, &Rect::tlbr(10, 0, 13, 40), &Border::new().ul(&Graph::LTee).ur(&Graph::RTee), Attr::bold(), Color::Blue, None);
    draw_border(&mut host, &w, &Rect::tlbr(0, 0, 10, 40), &Border::new().no_bottom(), Attr::bold(), Color::Blue, None);
    draw_text(&mut host, &w, 1, 1, "A\u{44b}cdefgh", Attr::normal(), Color::Green, None);
    let all = rows(&host, &w);
    assert_eq!(format!("l{}k", "q".repeat(38)), all[0]);
    assert_eq!(format!("xA\u{44b}cdefgh{}x", " ".repeat(30)), all[1]);
    assert_eq!(format!("x{}x", " ".repeat(38)), all[9]);
    assert_eq!(format!("t{}u", "q".repeat(38)), all[10]);
    assert_eq!(format!("x{}x", " ".repeat(38)), all[11]);
    assert_eq!(format!("m{}j", "q".repeat(38)), all[12]);
}
