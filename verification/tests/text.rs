use ntfl::geometry::Rect;
use ntfl::text::{
    chars_of, format_bool, format_rect, is_whitespace, parse_bool, parse_rect, string_of,
};
use ntfl::fw::Payload;
use ntfl::{BoolTypeDesc, RectTypeDesc, StrTypeDesc};

#[test]
fn rect_text_round_trip() {
    for r in [
        Rect::empty(),
        Rect::tlhw(0, 0, 1, 1),
        Rect::tlhw(5, 7, 10, 70),
        Rect::tlhw(-5, -70, 10, 7),
        Rect::tlhw(isize::MIN, isize::MIN, 1, isize::MAX),
        Rect::tlhw(0, isize::MAX - 1, isize::MAX, 1),
        Rect::tlhw(1000000, -1000000, 909, 10),
    ] {
        assert_eq!(Some(r), parse_rect(&format_rect(&r)));
    }
}

#[test]
fn rect_text_is_four_integers() {
    assert_eq!("", format_rect(&Rect::empty()));
    assert_eq!("5,7,10,70", format_rect(&Rect::tlhw(5, 7, 10, 70)));
    assert_eq!("-5,0,1,200", format_rect(&Rect::tlhw(-5, 0, 1, 200)));
    assert_eq!(
        format!("{},{},{},{}", isize::MIN, -1, isize::MAX, 1),
        format_rect(&Rect::tlhw(isize::MIN, -1, isize::MAX, 1))
    );
    assert_eq!(Some(Rect::tlhw(5, 7, 10, 70)), parse_rect("5,7,10,70"));
    assert_eq!(Some(Rect::tlhw(5, 7, 10, 70)), parse_rect("  5 ,7,\t10 , 70\n"));
    assert_eq!(Some(Rect::tlhw(5, -7, 10, 70)), parse_rect("+5,-7,+10,070"));
    assert_eq!(Some(Rect::tlhw(0, 0, 1, 1)), parse_rect("-0,+0,01,1"));
    assert_eq!(Some(Rect::tlhw(1, 2, 3, 4)), parse_rect("\u{a0}1,\u{2003}2\u{3000},3,4\u{85}"));
    assert_eq!(Some(Rect::empty()), parse_rect(""));
    assert_eq!(Some(Rect::empty()), parse_rect(" \t\n "));
    assert_eq!(
        Some(Rect::tlhw(isize::MIN, 0, 1, 1)),
        parse_rect(&format!("{},0,1,1", isize::MIN))
    );
}

#[test]
fn rect_text_is_refused() {
    for s in [
        "1,2,3",
        "1,2,3,4,5",
        "1,2,3,4,",
        ",1,2,3",
        "1,2,,4",
        "1,2,0,4",
        "1,2,3,0",
        "1,2,-3,4",
        "1,2,3,-4",
        "a,2,3,4",
        "1,2,3,4x",
        "1 1,2,3,4",
        "1,2,3,- 4",
        "1,2,3,+",
        "1,2,3,-",
        "1.0,2,3,4",
        "1;2;3;4",
        ",,,",
        "9223372036854775808,0,1,1",
        "-9223372036854775809,0,1,1",
        "99999999999999999999999999999999999999999,0,1,1",
        "9223372036854775807,0,1,1",
        "0,9223372036854775800,1,8",
    ] {
        assert_eq!(None, parse_rect(s), "{}", s);
    }
    assert_eq!(
        Some(Rect::tlhw(0, isize::MAX - 8, 1, 8)),
        parse_rect(&format!("0,{},1,8", isize::MAX - 8))
    );
}

#[test]
fn bool_text() {
    assert_eq!(Some(true), parse_bool("True"));
    assert_eq!(Some(false), parse_bool("False"));
    for s in ["true", "false", "TRUE", "", " True", "True ", "Tru", "Truee", "Falsee", "1", "0"] {
        assert_eq!(None, parse_bool(s), "{}", s);
    }
    assert_eq!("True", format_bool(true));
    assert_eq!("False", format_bool(false));
    assert_eq!(Some(true), parse_bool(&format_bool(true)));
    assert_eq!(Some(false), parse_bool(&format_bool(false)));
}

#[test]
fn texts_of_the_value_types() {
    assert_eq!("any text,\n at all ", StrTypeDesc::read("any text,\n at all "));
    assert_eq!("x", StrTypeDesc::write(&Payload::Str(String::from("x"))));
    assert_eq!("", StrTypeDesc::write(&Payload::Bool(true)));
    assert_eq!(Some(true), BoolTypeDesc::read("True"));
    assert_eq!(None, BoolTypeDesc::read("yes"));
    assert_eq!("False", BoolTypeDesc::write(&Payload::Bool(false)));
    assert_eq!("", BoolTypeDesc::write(&Payload::Int(1)));
    assert_eq!(Some(Rect::tlhw(1, 2, 3, 4)), RectTypeDesc::read("1,2,3,4"));
    assert_eq!(None, RectTypeDesc::read("1,2,3"));
    assert_eq!("1,2,3,4", RectTypeDesc::write(&Payload::Rect(Rect::tlhw(1, 2, 3, 4))));
    assert_eq!("", RectTypeDesc::write(&Payload::Rect(Rect::empty())));
    assert_eq!("", RectTypeDesc::write(&Payload::Str(String::from("1,2,3,4"))));
}

#[test]
fn characters_and_white_space() {
    assert_eq!(vec!['a', '\u{44b}', ' ', '\u{1f600}'], chars_of("a\u{44b} \u{1f600}"));
    assert_eq!(Vec::<char>::new(), chars_of(""));
    assert_eq!("a\u{44b}c", string_of(&vec!['a', '\u{44b}', 'c']));
    assert_eq!("", string_of(&vec![]));
    for code in 0..0x3100u32 {
        if let Some(c) = char::from_u32(code) {
            assert_eq!(c.is_whitespace(), is_whitespace(c), "{:x}", code);
        }
    }
    assert!(!is_whitespace('\u{feff}') && !is_whitespace('\u{10ffff}'));
}
