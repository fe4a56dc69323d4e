use either::Either;
use ntfl::scr::{color_pair, decode_first, decode_next, Attr, Color, Decode, Key};
use ntfl::{key_action, Action};

#[test]
fn function_keys_follow_f0() {
    assert_eq!(0o410, Key::F0);
    assert_eq!(Key { value: 0o410 }, Key::f(0));
    assert_eq!(Key { value: 0o410 + 12 }, Key::f(12));
    assert_eq!(Key { value: 0o410 + 63 }, Key::f(63));
    assert_eq!(Key::new(0o632), Key { value: Key::RESIZE });
    assert_eq!(0o401, Key::MIN);
    assert_eq!(0o777, Key::MAX);
}

#[test]
fn color_pairs_are_eight_to_a_background() {
    assert_eq!(0, color_pair(Color::Black, None));
    assert_eq!(7, color_pair(Color::White, None));
    assert_eq!(8, color_pair(Color::Black, Some(Color::Black)));
    assert_eq!(8 + 2, color_pair(Color::Green, Some(Color::Black)));
    assert_eq!(8 * 2 + 6, color_pair(Color::Cyan, Some(Color::Red)));
    assert_eq!(71, color_pair(Color::White, Some(Color::White)));
    assert_eq!(4, Color::Blue.index());
    assert_eq!(5, Color::Magenta.index());
    assert_eq!(3, Color::Yellow.index());
}

#[test]
fn attributes_are_sets_of_bits() {
    assert_eq!(0, Attr::normal().bits());
    assert_eq!(1 << 0, Attr::standout().bits());
    assert_eq!(1 << 1, Attr::underline().bits());
    assert_eq!(1 << 2, Attr::reverse().bits());
    assert_eq!(1 << 3, Attr::blink().bits());
    assert_eq!(1 << 4, Attr::dim().bits());
    assert_eq!(1 << 5, Attr::bold().bits());
    assert_eq!(1 << 6, Attr::altcharset().bits());
    assert_eq!(1 << 7, Attr::invis().bits());
    assert_eq!(1 << 8, Attr::protect().bits());
    assert_eq!(1 << 9, Attr::horizontal().bits());
    assert_eq!(1 << 10, Attr::left().bits());
    assert_eq!(1 << 11, Attr::low().bits());
    assert_eq!(1 << 12, Attr::right().bits());
    assert_eq!(1 << 13, Attr::top().bits());
    assert_eq!(1 << 14, Attr::vertical().bits());
    assert_eq!(Attr::BOLD | Attr::REVERSE, (Attr::bold() | Attr::reverse()).bits());
    assert_eq!(Attr::bold() | Attr::reverse(), Attr::reverse().union(Attr::bold()));
    assert!((Attr::bold() | Attr::reverse()).contains(Attr::bold()));
    assert!(!Attr::bold().contains(Attr::reverse()));
    assert!(Attr::bold().contains(Attr::normal()));
    assert_eq!(Some(Attr::bold()), Attr::from_bits(Attr::BOLD));
    assert_eq!(Some(Attr::normal()), Attr::from_bits(0));
    assert_eq!(None, Attr::from_bits(1 << 15));
    assert_eq!(0x7fff, Attr::ALL);
}

fn decode(bytes: &[u8]) -> Decode {
    let mut step = decode_first(bytes[0]);
    for b in &bytes[1..] {
        step = match step {
            Decode::More { left, value } => decode_next(left, value, *b),
            other => return other,
        };
    }
    step
}

#[test]
fn characters_are_read_from_bytes() {
    assert_eq!(Decode::Done('q' as u32), decode(b"q"));
    assert_eq!(Decode::Done(0x44b), decode("\u{44b}".as_bytes()));
    assert_eq!(Decode::Done(0x20ac), decode("\u{20ac}".as_bytes()));
    assert_eq!(Decode::Done(0x1f600), decode("\u{1f600}".as_bytes()));
    assert_eq!(Decode::More { left: 1, value: 0x11 }, decode_first(0xd1));
    assert_eq!(Decode::More { left: 2, value: 0x02 }, decode_first(0xe2));
    assert_eq!(Decode::More { left: 3, value: 0 }, decode_first(0xf0));
    assert_eq!(Decode::More { left: 4, value: 1 }, decode_first(0xf9));
    assert_eq!(Decode::More { left: 5, value: 1 }, decode_first(0xfd));
    assert_eq!(Decode::Malformed, decode_first(0x80));
    assert_eq!(Decode::Malformed, decode_first(0xbf));
    assert_eq!(Decode::Malformed, decode_first(0xfe));
    assert_eq!(Decode::Malformed, decode_first(0xff));
    assert_eq!(Decode::Malformed, decode(&[0xd1, 0x41]));
    assert_eq!(Decode::Malformed, decode(&[0xe2, 0x82, 0xc0]));
    assert_eq!(Decode::Malformed, decode_next(0, 0, 0x80));
    assert_eq!(Decode::More { left: 1, value: (0x02 << 6) | 0x02 }, decode(&[0xe2, 0x82]));
    assert_eq!(Decode::Done(0x7fff_ffff), decode(&[0xfd, 0xbf, 0xbf, 0xbf, 0xbf, 0xbf]));
}

#[test]
fn main_loop_acts_on_keys() {
    assert_eq!(Action::Resize, key_action(&Either::Left(Key { value: Key::RESIZE })));
    assert_eq!(Action::Repaint, key_action(&Either::Left(Key { value: Key::LEFT })));
    assert_eq!(Action::Repaint, key_action(&Either::Left(Key::f(1))));
    assert_eq!(Action::Quit, key_action(&Either::Right('q')));
    assert_eq!(Action::Repaint, key_action(&Either::Right('Q')));
    assert_eq!(Action::Repaint, key_action(&Either::Right('\n')));
}
