//! How the built-in value types are written as text and read back:
//! strings as they are, booleans as `True` and `False`, and rectangles as
//! four integers separated by commas, or as nothing when empty.

use crate::geometry::{area_fits, area_tlhw, Area, Rect};
use vstd::prelude::*;
use vstd::std_specs::iter::IteratorSpec;

verus! {

/// Whether the character is white space: one of the code points with the
/// Unicode property `White_Space`.
pub open spec fn is_space(c: char) -> bool {
    let n = c as u32;
    ||| 0x09 <= n <= 0x0d
    ||| n == 0x20
    ||| n == 0x85
    ||| n == 0xa0
    ||| n == 0x1680
    ||| 0x2000 <= n <= 0x200a
    ||| n == 0x2028
    ||| n == 0x2029
    ||| n == 0x202f
    ||| n == 0x205f
    ||| n == 0x3000
}

/// The text without the white space at its start and at its end.
pub open spec fn trimmed(s: Seq<char>) -> Seq<char>
    decreases s.len(),
{
    if s.len() > 0 && is_space(s.first()) {
        trimmed(s.drop_first())
    } else if s.len() > 0 && is_space(s.last()) {
        trimmed(s.drop_last())
    } else {
        s
    }
}

/// The places of the commas in the text, in rising order.
pub open spec fn commas(s: Seq<char>) -> Seq<int>
    decreases s.len(),
{
    if s.len() == 0 {
        Seq::empty()
    } else if s.last() == ',' {
        commas(s.drop_last()).push(s.len() - 1)
    } else {
        commas(s.drop_last())
    }
}

/// The value of a decimal digit, or `-1` for another character.
pub open spec fn digit_value(c: char) -> int {
    if '0' <= c <= '9' {
        c as u32 - 0x30
    } else {
        -1
    }
}

/// The character of a decimal digit.
pub open spec fn digit_char(d: int) -> char {
    (0x30 + d) as u8 as char
}

/// Whether the text is made of decimal digits, and has one at least.
pub open spec fn is_number(s: Seq<char>) -> bool {
    s.len() > 0 && forall|i: int| 0 <= i < s.len() ==> '0' <= #[trigger] s[i] <= '9'
}

/// The number that a text of decimal digits stands for.
pub open spec fn number_of(s: Seq<char>) -> nat
    decreases s.len(),
{
    if s.len() == 0 {
        0
    } else {
        (number_of(s.drop_last()) * 10 + digit_value(s.last())) as nat
    }
}

/// The integer that decimal digits stand for, negated or not. `None`
/// where the text is not made of digits, or where the integer is none of
/// the machine.
pub open spec fn int_from(digits: Seq<char>, negative: bool) -> Option<int> {
    let value = if negative {
        -(number_of(digits) as int)
    } else {
        number_of(digits) as int
    };
    if is_number(digits) && isize::MIN <= value <= isize::MAX {
        Some(value)
    } else {
        None
    }
}

/// The integer that the text stands for: decimal digits, maybe after a
/// sign. `None` where the text is nothing of the kind, or where the
/// integer is none of the machine.
pub open spec fn int_of(s: Seq<char>) -> Option<int> {
    if s.len() > 0 && (s[0] == '-' || s[0] == '+') {
        int_from(s.drop_first(), s[0] == '-')
    } else {
        int_from(s, false)
    }
}

/// The decimal digits of a number, without leading zeros.
pub open spec fn digits_of(n: nat) -> Seq<char>
    decreases n,
{
    if n < 10 {
        seq![digit_char(n as int)]
    } else {
        digits_of(n / 10).push(digit_char((n % 10) as int))
    }
}

/// The text that stands for an integer.
pub open spec fn text_of_int(i: int) -> Seq<char> {
    if i < 0 {
        seq!['-'] + digits_of((-i) as nat)
    } else {
        digits_of(i as nat)
    }
}

/// The integer that a part of a rectangle's text stands for, with the
/// white space around it left out.
pub open spec fn part_of(s: Seq<char>, from: int, to: int) -> Option<int> {
    int_of(trimmed(s.subrange(from, to)))
}

/// The rectangle that the text stands for: the empty one for a text of
/// white space only; else the one whose top, left, height and width are
/// the four integers that commas separate, where height and width are
/// positive and the rectangle is one of the machine. `None` for any other
/// text.
pub open spec fn rect_of_text(s: Seq<char>) -> Option<Option<Area>> {
    let t = trimmed(s);
    let c = commas(t);
    if t.len() == 0 {
        Some(None)
    } else if c.len() != 3 {
        None
    } else {
        match (
            part_of(t, 0, c[0]),
            part_of(t, c[0] + 1, c[1]),
            part_of(t, c[1] + 1, c[2]),
            part_of(t, c[2] + 1, t.len() as int),
        ) {
            (Some(top), Some(left), Some(height), Some(width)) => if height > 0 && width > 0
                && area_fits(area_tlhw(top, left, height, width)) {
                Some(area_tlhw(top, left, height, width))
            } else {
                None
            },
            _ => None,
        }
    }
}

/// The text that stands for a rectangle.
pub open spec fn text_of_rect(r: Option<Area>) -> Seq<char> {
    match r {
        None => Seq::empty(),
        Some(a) => text_of_int(a.top) + seq![','] + text_of_int(a.left) + seq![','] + text_of_int(
            a.height,
        ) + seq![','] + text_of_int(a.width),
    }
}

/// The boolean that the text stands for.
pub open spec fn bool_of_text(s: Seq<char>) -> Option<bool> {
    if s == seq!['T', 'r', 'u', 'e'] {
        Some(true)
    } else if s == seq!['F', 'a', 'l', 's', 'e'] {
        Some(false)
    } else {
        None
    }
}

/// The text that stands for a boolean.
pub open spec fn text_of_bool(b: bool) -> Seq<char> {
    if b {
        seq!['T', 'r', 'u', 'e']
    } else {
        seq!['F', 'a', 'l', 's', 'e']
    }
}

/// Adds a character to the end of a string, as `String::push` does.
#[verifier::external_body]
fn push_char(s: &mut String, c: char)
    ensures
        final(s)@ == old(s)@.push(c),
{
    s.push(c)
}

/// The characters of a text.
pub fn chars_of(s: &str) -> (v: Vec<char>)
    ensures
        v@ == s@,
{
    let mut v: Vec<char> = Vec::new();
    let mut it = s.chars();
    let ghost mut done: int = 0;
    loop
        invariant
            0 <= done <= s@.len(),
            v@ == s@.subrange(0, done),
            it.remaining() == s@.subrange(done, s@.len() as int),
        ensures
            v@ == s@,
        decreases s@.len() - done,
    {
        match it.next() {
            Some(c) => {
                v.push(c);
                proof {
                    assert(c == s@[done]);
                    assert(v@ =~= s@.subrange(0, done + 1));
                    done = done + 1;
                }
            },
            None => {
                proof {
                    assert(s@.subrange(0, done) =~= s@);
                }
                break ;
            },
        }
    }
    v
}

/// The string of the given characters.
pub fn string_of(v: &Vec<char>) -> (s: String)
    ensures
        s@ == v@,
{
    let mut s = String::new();
    let mut i: usize = 0;
    while i < v.len()
        invariant
            i <= v.len(),
            s@ == v@.subrange(0, i as int),
        decreases v.len() - i,
    {
        push_char(&mut s, v[i]);
        assert(s@ =~= v@.subrange(0, i + 1));
        i = i + 1;
    }
    assert(v@.subrange(0, i as int) =~= v@);
    s
}

/// Whether the character is white space.
pub fn is_whitespace(c: char) -> (r: bool)
    ensures
        r == is_space(c),
{
    let n = c as u32;
    (0x09 <= n && n <= 0x0d) || n == 0x20 || n == 0x85 || n == 0xa0 || n == 0x1680 || (0x2000 <= n
        && n <= 0x200a) || n == 0x2028 || n == 0x2029 || n == 0x202f || n == 0x205f || n == 0x3000
}

/// The bounds of the part of `v` between `from` and `to` without the white
/// space at its start and at its end.
fn trim_range(v: &Vec<char>, from: usize, to: usize) -> (r: (usize, usize))
    requires
        from <= to <= v@.len(),
    ensures
        from <= r.0 <= r.1 <= to,
        v@.subrange(r.0 as int, r.1 as int) == trimmed(v@.subrange(from as int, to as int)),
{
    let mut a = from;
    while a < to && is_whitespace(v[a])
        invariant
            from <= a <= to <= v@.len(),
            trimmed(v@.subrange(from as int, to as int)) == trimmed(v@.subrange(a as int, to as int)),
        decreases to - a,
    {
        proof {
            let s = v@.subrange(a as int, to as int);
            assert(s.first() == v@[a as int]);
            assert(s.drop_first() =~= v@.subrange(a + 1, to as int));
        }
        a = a + 1;
    }
    let mut b = to;
    while a < b && is_whitespace(v[b - 1])
        invariant
            from <= a <= b <= to <= v@.len(),
            a < to ==> !is_space(v@[a as int]),
            trimmed(v@.subrange(from as int, to as int)) == trimmed(v@.subrange(a as int, b as int)),
        decreases b - a,
    {
        proof {
            let s = v@.subrange(a as int, b as int);
            assert(s.first() == v@[a as int]);
            assert(s.last() == v@[b - 1]);
            assert(s.drop_last() =~= v@.subrange(a as int, b - 1));
        }
        b = b - 1;
    }
    proof {
        let s = v@.subrange(a as int, b as int);
        if a < b {
            assert(s.first() == v@[a as int]);
            assert(s.last() == v@[b - 1]);
        }
    }
    (a, b)
}

/// The integer that the part of `v` between `from` and `to` stands for.
fn parse_int(v: &Vec<char>, from: usize, to: usize) -> (r: Option<isize>)
    requires
        from <= to <= v@.len(),
    ensures
        match int_of(v@.subrange(from as int, to as int)) {
            Some(i) => r is Some && r->0 == i,
            None => r is None,
        },
{
    let ghost s = v@.subrange(from as int, to as int);
    if from == to {
        return None;
    }
    let negative = v[from] == '-';
    let signed = negative || v[from] == '+';
    let start = if signed {
        from + 1
    } else {
        from
    };
    let ghost digits = v@.subrange(start as int, to as int);
    proof {
        assert(s[0] == v@[from as int]);
        if signed {
            assert(s.drop_first() =~= digits);
        } else {
            assert(s =~= digits);
        }
    }
    if start == to {
        return None;
    }
    let limit: i128 = isize::MAX as i128 + 1;
    let mut value: i128 = 0;
    let mut i = start;
    while i < to
        invariant
            start <= i <= to <= v@.len(),
            start < to,
            int_of(v@.subrange(from as int, to as int)) == int_from(digits, negative),
            digits == v@.subrange(start as int, to as int),
            limit == isize::MAX + 1,
            0 <= value <= limit,
            value == number_of(v@.subrange(start as int, i as int)),
            forall|j: int| start <= j < i ==> '0' <= #[trigger] v@[j] <= '9',
        decreases to - i,
    {
        let c = v[i];
        if c < '0' || c > '9' {
            proof {
                assert(digits[i - start] == c);
            }
            return None;
        }
        let d = (c as u32 - 0x30) as i128;
        proof {
            let next = v@.subrange(start as int, i + 1);
            assert(next.drop_last() =~= v@.subrange(start as int, i as int));
            assert(next.last() == c);
        }
        value = value * 10 + d;
        if value > limit {
            proof {
                lemma_number_grows(digits, i + 1 - start);
                assert(digits.subrange(0, i + 1 - start) =~= v@.subrange(start as int, i + 1));
            }
            return None;
        }
        i = i + 1;
    }
    proof {
        assert(v@.subrange(start as int, i as int) =~= digits);
        assert forall|j: int| 0 <= j < digits.len() implies '0' <= #[trigger] digits[j] <= '9' by {
            assert(digits[j] == v@[start + j]);
        }
    }
    if negative {
        Some((-value) as isize)
    } else if value == limit {
        None
    } else {
        Some(value as isize)
    }
}

/// A text of digits stands for a number that is no less than that of each
/// of its beginnings.
proof fn lemma_number_grows(s: Seq<char>, n: int)
    requires
        0 <= n <= s.len(),
    ensures
        !is_number(s) || number_of(s.subrange(0, n)) <= number_of(s),
    decreases s.len() - n,
{
    if is_number(s) {
        if n < s.len() {
            lemma_number_grows(s, n + 1);
            let next = s.subrange(0, n + 1);
            assert(next.drop_last() =~= s.subrange(0, n));
            assert(next.last() == s[n]);
        } else {
            assert(s.subrange(0, n) =~= s);
        }
    }
}

/// The rectangle that the text stands for.
pub fn parse_rect(s: &str) -> (r: Option<Rect>)
    ensures
        match rect_of_text(s@) {
            Some(a) => r is Some && r->0@ == a,
            None => r is None,
        },
{
    let v = chars_of(s);
    let (from, to) = trim_range(&v, 0, v.len());
    let ghost t = v@.subrange(from as int, to as int);
    proof {
        assert(v@.subrange(0, v@.len() as int) =~= v@);
    }
    if from == to {
        return Some(Rect::empty());
    }
    let mut found: Vec<usize> = Vec::new();
    let mut i = from;
    while i < to
        invariant
            from <= i <= to <= v@.len(),
            t == v@.subrange(from as int, to as int),
            found@.len() <= 4,
            found@.len() == commas(t.subrange(0, i - from)).len() || (found@.len() == 4 && commas(
                t.subrange(0, i - from),
            ).len() >= 4),
            forall|k: int|
                0 <= k < found@.len() && k < commas(t.subrange(0, i - from)).len() ==> from
                    <= #[trigger] found@[k] < i && found@[k] - from == commas(
                    t.subrange(0, i - from),
                )[k],
        decreases to - i,
    {
        proof {
            let next = t.subrange(0, i + 1 - from);
            assert(next.drop_last() =~= t.subrange(0, i - from));
            assert(next.last() == v@[i as int]);
        }
        if v[i] == ',' && found.len() < 4 {
            found.push(i);
        }
        i = i + 1;
    }
    proof {
        assert(t.subrange(0, to - from) =~= t);
    }
    if found.len() != 3 {
        return None;
    }
    proof {
        lemma_commas_rise(t);
    }
    let (a0, b0) = trim_range(&v, from, found[0]);
    let (a1, b1) = trim_range(&v, found[0] + 1, found[1]);
    let (a2, b2) = trim_range(&v, found[1] + 1, found[2]);
    let (a3, b3) = trim_range(&v, found[2] + 1, to);
    proof {
        let c = commas(t);
        lemma_commas_rise(t);
        assert(t.subrange(0, c[0]) =~= v@.subrange(from as int, found@[0] as int));
        assert(t.subrange(c[0] + 1, c[1]) =~= v@.subrange(found@[0] + 1, found@[1] as int));
        assert(t.subrange(c[1] + 1, c[2]) =~= v@.subrange(found@[1] + 1, found@[2] as int));
        assert(t.subrange(c[2] + 1, t.len() as int) =~= v@.subrange(found@[2] + 1, to as int));
    }
    let top = parse_int(&v, a0, b0);
    let left = parse_int(&v, a1, b1);
    let height = parse_int(&v, a2, b2);
    let width = parse_int(&v, a3, b3);
    match (top, left, height, width) {
        (Some(top), Some(left), Some(height), Some(width)) => {
            if height <= 0 || width <= 0 {
                return None;
            }
            if top as i128 + height as i128 > isize::MAX as i128 || left as i128 + width as i128
                > isize::MAX as i128 {
                return None;
            }
            Some(Rect::tlhw(top, left, height, width))
        },
        _ => None,
    }
}

/// The places of the commas rise, and lie in the text.
proof fn lemma_commas_rise(s: Seq<char>)
    ensures
        forall|k: int| 0 <= k < commas(s).len() ==> 0 <= #[trigger] commas(s)[k] < s.len(),
        forall|j: int, k: int| 0 <= j < k < commas(s).len() ==> commas(s)[j] < commas(s)[k],
    decreases s.len(),
{
    if s.len() > 0 {
        lemma_commas_rise(s.drop_last());
        let before = commas(s.drop_last());
        let all = commas(s);
        assert forall|k: int| 0 <= k < all.len() implies 0 <= #[trigger] all[k] < s.len() by {
            if k < before.len() {
                assert(all[k] == before[k]);
            }
        }
        assert forall|j: int, k: int| 0 <= j < k < all.len() implies all[j] < all[k] by {
            assert(all[j] == before[j]);
            if k < before.len() {
                assert(all[k] == before[k]);
            }
        }
    }
}

/// The character of a decimal digit.
fn digit(d: u8) -> (c: char)
    requires
        d < 10,
    ensures
        c == digit_char(d as int),
        '0' <= c <= '9',
        digit_value(c) == d,
{
    (0x30 + d) as char
}

/// Adds the decimal digits of `n` to the end of `out`.
fn push_digits(out: &mut Vec<char>, n: u128)
    ensures
        final(out)@ == old(out)@ + digits_of(n as nat),
    decreases n,
{
    if n < 10 {
        out.push(digit(n as u8));
        assert(out@ =~= old(out)@ + digits_of(n as nat));
    } else {
        push_digits(out, n / 10);
        out.push(digit((n % 10) as u8));
        assert(out@ =~= old(out)@ + digits_of(n as nat));
    }
}

/// Adds the text that stands for `i` to the end of `out`.
fn push_int(out: &mut Vec<char>, i: isize)
    ensures
        final(out)@ == old(out)@ + text_of_int(i as int),
{
    if i < 0 {
        out.push('-');
        push_digits(out, (-(i as i128)) as u128);
        assert(out@ =~= old(out)@ + text_of_int(i as int));
    } else {
        push_digits(out, i as u128);
    }
}

/// The text that stands for the rectangle.
pub fn format_rect(r: &Rect) -> (s: String)
    ensures
        s@ == text_of_rect(r@),
{
    let mut out: Vec<char> = Vec::new();
    if let Some((top, left)) = r.loc() {
        let (height, width) = r.size();
        push_int(&mut out, top);
        out.push(',');
        push_int(&mut out, left);
        out.push(',');
        push_int(&mut out, height);
        out.push(',');
        push_int(&mut out, width);
        assert(out@ =~= text_of_rect(r@));
    }
    string_of(&out)
}

/// The boolean that the text stands for: `True` or `False`.
pub fn parse_bool(s: &str) -> (r: Option<bool>)
    ensures
        r == bool_of_text(s@),
{
    let v = chars_of(s);
    if v.len() == 4 && v[0] == 'T' && v[1] == 'r' && v[2] == 'u' && v[3] == 'e' {
        assert(v@ =~= seq!['T', 'r', 'u', 'e']);
        Some(true)
    } else if v.len() == 5 && v[0] == 'F' && v[1] == 'a' && v[2] == 'l' && v[3] == 's' && v[4]
        == 'e' {
        assert(v@ =~= seq!['F', 'a', 'l', 's', 'e']);
        Some(false)
    } else {
        proof {
            if v@ == seq!['T', 'r', 'u', 'e'] {
                assert(seq!['T', 'r', 'u', 'e'].len() == 4);
            }
            if v@ == seq!['F', 'a', 'l', 's', 'e'] {
                assert(seq!['F', 'a', 'l', 's', 'e'].len() == 5);
            }
        }
        None
    }
}

/// The text that stands for the boolean.
pub fn format_bool(b: bool) -> (s: String)
    ensures
        s@ == text_of_bool(b),
{
    let mut out: Vec<char> = Vec::new();
    if b {
        out.push('T');
        out.push('r');
        out.push('u');
        out.push('e');
        assert(out@ =~= seq!['T', 'r', 'u', 'e']);
    } else {
        out.push('F');
        out.push('a');
        out.push('l');
        out.push('s');
        out.push('e');
        assert(out@ =~= seq!['F', 'a', 'l', 's', 'e']);
    }
    string_of(&out)
}

/// Whether the character may stand in the text of an integer.
pub open spec fn is_int_char(c: char) -> bool {
    '0' <= c <= '9' || c == '-'
}

/// The digits of a number are digits, and stand for the number.
proof fn lemma_digits(n: nat)
    ensures
        is_number(digits_of(n)),
        number_of(digits_of(n)) == n,
    decreases n,
{
    if n < 10 {
        let d = digits_of(n);
        assert(d.drop_last() =~= Seq::<char>::empty());
        assert(number_of(d.drop_last()) == 0);
    } else {
        lemma_digits(n / 10);
        let d = digits_of(n);
        assert(d.drop_last() =~= digits_of(n / 10));
        assert(d.last() == digit_char((n % 10) as int));
    }
}

/// The text of an integer is made of digits, maybe after a minus sign.
proof fn lemma_int_text(i: int)
    ensures
        text_of_int(i).len() > 0,
        forall|k: int| 0 <= k < text_of_int(i).len() ==> is_int_char(#[trigger] text_of_int(i)[k]),
        '0' <= text_of_int(i).last() <= '9',
{
    let n = if i < 0 {
        (-i) as nat
    } else {
        i as nat
    };
    lemma_digits(n);
    let d = digits_of(n);
    let t = text_of_int(i);
    assert forall|k: int| 0 <= k < t.len() implies is_int_char(#[trigger] t[k]) by {
        if i < 0 {
            if k > 0 {
                assert(t[k] == d[k - 1]);
            }
        }
    }
    assert(t.last() == d.last());
}

/// Writing an integer of the machine and reading it back gives the
/// integer.
pub proof fn law_int_round_trip(i: int)
    requires
        isize::MIN <= i <= isize::MAX,
    ensures
        int_of(text_of_int(i)) == Some(i),
{
    let t = text_of_int(i);
    if i < 0 {
        lemma_digits((-i) as nat);
        assert(t.drop_first() =~= digits_of((-i) as nat));
    } else {
        lemma_digits(i as nat);
        assert('0' <= t[0] <= '9');
    }
}

/// A text that neither starts nor ends with white space is trimmed
/// already.
proof fn lemma_trimmed_same(s: Seq<char>)
    requires
        s.len() == 0 || (!is_space(s.first()) && !is_space(s.last())),
    ensures
        trimmed(s) == s,
{
}

/// The places of the commas in two texts, one after the other.
proof fn lemma_commas_concat(a: Seq<char>, b: Seq<char>)
    ensures
        commas(a + b) == commas(a) + commas(b).map_values(|k: int| k + a.len()),
    decreases b.len(),
{
    let shifted = commas(b).map_values(|k: int| k + a.len());
    if b.len() == 0 {
        assert(a + b =~= a);
        assert(commas(a) + shifted =~= commas(a));
    } else {
        lemma_commas_concat(a, b.drop_last());
        assert((a + b).drop_last() =~= a + b.drop_last());
        assert((a + b).last() == b.last());
        let before = commas(b.drop_last()).map_values(|k: int| k + a.len());
        if b.last() == ',' {
            assert(shifted =~= before.push(a.len() + b.len() - 1));
            assert(commas(a + b) =~= commas(a) + shifted);
        } else {
            assert(shifted =~= before);
        }
    }
}

/// A text of an integer has no comma.
proof fn lemma_no_commas(s: Seq<char>)
    requires
        forall|k: int| 0 <= k < s.len() ==> is_int_char(#[trigger] s[k]),
    ensures
        commas(s) == Seq::<int>::empty(),
    decreases s.len(),
{
    if s.len() > 0 {
        lemma_no_commas(s.drop_last());
    }
}

/// The places of the commas in a text of integer texts with commas between
/// them: one after each but the last.
proof fn lemma_commas_after(head: Seq<char>, rest: Seq<char>)
    requires
        forall|k: int| 0 <= k < head.len() ==> is_int_char(#[trigger] head[k]),
    ensures
        commas(head + seq![','] + rest) == seq![head.len() as int] + commas(rest).map_values(
            |k: int| k + head.len() + 1,
        ),
        commas(head) == Seq::<int>::empty(),
{
    lemma_no_commas(head);
    let comma = seq![','];
    assert(comma.drop_last() =~= Seq::<char>::empty());
    assert(commas(comma.drop_last()) =~= Seq::<int>::empty());
    assert(commas(comma) =~= seq![0int]);
    lemma_commas_concat(head, comma);
    lemma_commas_concat(head + comma, rest);
    assert(commas(head + comma) =~= seq![head.len() as int]);
    assert(commas(rest).map_values(|k: int| k + (head + comma).len()) =~= commas(rest).map_values(
        |k: int| k + head.len() + 1,
    ));
}

/// Whether the text may be that of an integer: digits and minus signs,
/// with a digit at the end.
spec fn int_like(s: Seq<char>) -> bool {
    &&& s.len() > 0
    &&& forall|k: int| 0 <= k < s.len() ==> is_int_char(#[trigger] s[k])
    &&& '0' <= s.last() <= '9'
}

/// The four texts with commas between them.
spec fn joined(top: Seq<char>, left: Seq<char>, height: Seq<char>, width: Seq<char>) -> Seq<char> {
    top + seq![','] + left + seq![','] + height + seq![','] + width
}

/// Where the commas stand in four integer texts with commas between them.
proof fn lemma_joined_commas(top: Seq<char>, left: Seq<char>, height: Seq<char>, width: Seq<char>)
    requires
        int_like(top),
        int_like(left),
        int_like(height),
        int_like(width),
    ensures
        commas(joined(top, left, height, width)) == seq![
            top.len() as int,
            (top.len() + 1 + left.len()) as int,
            (top.len() + 1 + left.len() + 1 + height.len()) as int,
        ],
{
    let comma = seq![','];
    let t = joined(top, left, height, width);
    let tail2 = height + comma + width;
    let tail1 = left + comma + tail2;
    assert(t =~= top + comma + tail1);
    lemma_commas_after(height, width);
    lemma_no_commas(width);
    lemma_commas_after(left, tail2);
    lemma_commas_after(top, tail1);
    let n0 = top.len() as int;
    let n1 = left.len() as int;
    let n2 = height.len() as int;
    assert(commas(tail2) =~= seq![n2]);
    assert(commas(tail1) =~= seq![n1, n1 + 1 + n2]);
    assert(commas(t) =~= seq![n0, n0 + 1 + n1, n0 + 1 + n1 + 1 + n2]);
}

/// The parts of four integer texts with commas between them are the
/// texts, and nothing is trimmed from them or from the whole.
proof fn lemma_joined_parts(top: Seq<char>, left: Seq<char>, height: Seq<char>, width: Seq<char>)
    requires
        int_like(top),
        int_like(left),
        int_like(height),
        int_like(width),
    ensures
        ({
            let t = joined(top, left, height, width);
            let n0 = top.len() as int;
            let n1 = n0 + 1 + left.len();
            let n2 = n1 + 1 + height.len();
            &&& trimmed(t) == t
            &&& t.len() > 0
            &&& trimmed(t.subrange(0, n0)) == top
            &&& trimmed(t.subrange(n0 + 1, n1)) == left
            &&& trimmed(t.subrange(n1 + 1, n2)) == height
            &&& trimmed(t.subrange(n2 + 1, t.len() as int)) == width
        }),
{
    let t = joined(top, left, height, width);
    let n0 = top.len() as int;
    let n1 = n0 + 1 + left.len();
    let n2 = n1 + 1 + height.len();
    assert(is_int_char(top[0]) && is_int_char(left[0]) && is_int_char(height[0]) && is_int_char(
        width[0],
    ));
    assert(t.first() == top[0]);
    assert(t.last() == width.last());
    lemma_trimmed_same(t);
    assert(t.subrange(0, n0) =~= top);
    assert(t.subrange(n0 + 1, n1) =~= left);
    assert(t.subrange(n1 + 1, n2) =~= height);
    assert(t.subrange(n2 + 1, t.len() as int) =~= width);
    lemma_trimmed_same(top);
    lemma_trimmed_same(left);
    lemma_trimmed_same(height);
    lemma_trimmed_same(width);
}

/// Writing a rectangle of the machine and reading it back gives the
/// rectangle.
pub proof fn law_rect_round_trip(r: Rect)
    requires
        area_fits(r@),
    ensures
        rect_of_text(text_of_rect(r@)) == Some(r@),
{
    match r@ {
        None => {},
        Some(a) => {
            let top = text_of_int(a.top);
            let left = text_of_int(a.left);
            let height = text_of_int(a.height);
            let width = text_of_int(a.width);
            lemma_int_text(a.top);
            lemma_int_text(a.left);
            lemma_int_text(a.height);
            lemma_int_text(a.width);
            law_int_round_trip(a.top);
            law_int_round_trip(a.left);
            law_int_round_trip(a.height);
            law_int_round_trip(a.width);
            assert(text_of_rect(r@) == joined(top, left, height, width));
            lemma_joined_commas(top, left, height, width);
            lemma_joined_parts(top, left, height, width);
        },
    }
}

/// Writing a boolean and reading it back gives the boolean.
pub proof fn law_bool_round_trip(b: bool)
    ensures
        bool_of_text(text_of_bool(b)) == Some(b),
{
    assert(seq!['T', 'r', 'u', 'e'].len() == 4);
    assert(seq!['F', 'a', 'l', 's', 'e'].len() == 5);
}

} // verus!
