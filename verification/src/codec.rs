//! The archive file format.
//!
//! Each snapshot file is one JSON document holding a single entity. Two
//! shapes have ever been written: the oldest raw shape (`Product`, every
//! value quoted) and the normalised shape (`Property`). The reader takes
//! JSON as JSON — any whitespace, members in any order, unknown members
//! stepped over, sizes as quoted text or bare numbers, the standard
//! string escapes — so every file any earlier writer produced stays
//! readable; the decoder tries the shapes oldest first and the first
//! that parses wins. The writer emits one compact canonical form of the
//! normalised shape, with `"` and `\` escaped and every other character
//! written as itself.

use vstd::prelude::*;

use crate::model::{
    ArchiveEntry, ArchiveEntryV, Product, ProductV, Property, PropertyType, PropertyTypeV,
    PropertyV, QueuePosition, QueuePositionV,
};
use crate::text::{chars_vec, string_from_chars};

verus! {

/// A decimal digit.
pub open spec fn is_digit(c: char) -> bool {
    '0' <= c && c <= '9'
}

/// The value of a decimal digit character.
pub open spec fn dval(c: char) -> u32 {
    (((c as u32) - ('0' as u32)) as u32)
}

/// The character for a digit value below ten.
pub open spec fn spec_digit_char(d: u32) -> char {
    if d == 0 {
        '0'
    } else if d == 1 {
        '1'
    } else if d == 2 {
        '2'
    } else if d == 3 {
        '3'
    } else if d == 4 {
        '4'
    } else if d == 5 {
        '5'
    } else if d == 6 {
        '6'
    } else if d == 7 {
        '7'
    } else if d == 8 {
        '8'
    } else {
        '9'
    }
}

fn digit_char(d: u32) -> (r: char)
    requires
        d < 10,
    ensures
        r == spec_digit_char(d),
{
    if d == 0 {
        '0'
    } else if d == 1 {
        '1'
    } else if d == 2 {
        '2'
    } else if d == 3 {
        '3'
    } else if d == 4 {
        '4'
    } else if d == 5 {
        '5'
    } else if d == 6 {
        '6'
    } else if d == 7 {
        '7'
    } else if d == 8 {
        '8'
    } else {
        '9'
    }
}

/// The decimal digits of a number, most significant first.
pub open spec fn spec_u32_digits(n: u32) -> Seq<char>
    decreases n,
{
    if n < 10 {
        seq![spec_digit_char(n)]
    } else {
        spec_u32_digits(n / 10) + seq![spec_digit_char(n % 10)]
    }
}

/// Render a number as its decimal digits.
pub fn u32_digits(n: u32) -> (r: Vec<char>)
    ensures
        r@ == spec_u32_digits(n),
    decreases n,
{
    if n < 10 {
        let mut v: Vec<char> = Vec::new();
        v.push(digit_char(n));
        v
    } else {
        let mut v = u32_digits(n / 10);
        v.push(digit_char(n % 10));
        v
    }
}

/// Whether `lit` occurs in `s` at position `i`.
pub open spec fn matches_at(s: Seq<char>, i: int, lit: Seq<char>) -> bool {
    0 <= i && i + lit.len() <= s.len() && s.subrange(i, i + lit.len()) == lit
}

/// The position just after `lit`, if `lit` occurs at `i`.
pub open spec fn spec_expect(s: Seq<char>, i: int, lit: Seq<char>) -> Option<int> {
    if matches_at(s, i, lit) {
        Some(i + lit.len())
    } else {
        None
    }
}

/// Check that the document carries `lit` at position `i`.
pub fn expect(v: &Vec<char>, i: usize, lit: &str) -> (r: Option<usize>)
    ensures
        match r {
            Some(j) => Some(j as int) == spec_expect(v@, i as int, lit@) && j <= v@.len(),
            None => spec_expect(v@, i as int, lit@) is None,
        },
{
    let l = chars_vec(lit);
    if v.len() < l.len() || i > v.len() - l.len() {
        proof {
            assert(!matches_at(v@, i as int, lit@));
        }
        return None;
    }
    let mut k: usize = 0;
    while k < l.len()
        invariant
            k <= l.len(),
            i + l.len() <= v.len(),
            l@ == lit@,
            forall|m: int| 0 <= m < k ==> v@[i + m] == l@[m],
        decreases l.len() - k,
    {
        if v[i + k] != l[k] {
            proof {
                assert(v@.subrange(i as int, i + lit@.len())[k as int] == v@[i + k]);
                assert(v@.subrange(i as int, i + lit@.len()) != lit@);
            }
            return None;
        }
        k = k + 1;
    }
    proof {
        assert(v@.subrange(i as int, i + lit@.len()) =~= lit@);
    }
    Some(i + l.len())
}

/// Accumulate decimal digits left to right, stopping at the first
/// non-digit; a value that would not fit a `u32` fails the parse.
pub open spec fn spec_parse_u32_loop(s: Seq<char>, i: int, acc: u32) -> Option<(u32, int)>
    decreases s.len() - i,
{
    if i < 0 || i >= s.len() || !is_digit(s[i]) {
        Some((acc, i))
    } else {
        let d = dval(s[i]);
        if acc * 10 + d <= u32::MAX {
            spec_parse_u32_loop(s, i + 1, ((acc * 10 + d) as u32))
        } else {
            None
        }
    }
}

/// Read a decimal number: at least one digit, value within `u32`.
pub open spec fn spec_parse_u32(s: Seq<char>, i: int) -> Option<(u32, int)> {
    if 0 <= i < s.len() && is_digit(s[i]) {
        spec_parse_u32_loop(s, i, 0)
    } else {
        None
    }
}

/// Read a decimal number starting at `i`.
pub fn parse_u32(v: &Vec<char>, i: usize) -> (r: Option<(u32, usize)>)
    ensures
        match r {
            Some((n, j)) => spec_parse_u32(v@, i as int) == Some((n, j as int)) && j <= v@.len(),
            None => spec_parse_u32(v@, i as int) is None,
        },
{
    if i >= v.len() {
        return None;
    }
    match digit_value_of(v[i]) {
        None => {
            return None;
        },
        Some(_) => {},
    }
    let mut acc: u32 = 0;
    let mut k: usize = i;
    loop
        invariant
            i <= k <= v.len(),
            spec_parse_u32(v@, i as int) == spec_parse_u32_loop(v@, k as int, acc),
        decreases v.len() - k,
    {
        if k >= v.len() {
            return Some((acc, k));
        }
        match digit_value_of(v[k]) {
            None => {
                return Some((acc, k));
            },
            Some(d) => {
                let next = match acc.checked_mul(10) {
                    Some(m) => m.checked_add(d),
                    None => None,
                };
                match next {
                    Some(n) => {
                        acc = n;
                        k = k + 1;
                    },
                    None => {
                        return None;
                    },
                }
            },
        }
    }
}

/// Decimal digit value of a character, if any.
fn digit_value_of(c: char) -> (r: Option<u32>)
    ensures
        r == if is_digit(c) {
            Some(dval(c))
        } else {
            None::<u32>
        },
{
    if '0' <= c && c <= '9' {
        Some(c as u32 - '0' as u32)
    } else {
        None
    }
}

/// Read a bare `true` or `false`.
pub open spec fn spec_parse_bool(s: Seq<char>, i: int) -> Option<(bool, int)> {
    if matches_at(s, i, "true"@) {
        Some((true, i + "true"@.len()))
    } else if matches_at(s, i, "false"@) {
        Some((false, i + "false"@.len()))
    } else {
        None
    }
}

/// Read a bare boolean starting at `i`.
pub fn parse_bool(v: &Vec<char>, i: usize) -> (r: Option<(bool, usize)>)
    ensures
        match r {
            Some((b, j)) => spec_parse_bool(v@, i as int) == Some((b, j as int)) && j <= v@.len(),
            None => spec_parse_bool(v@, i as int) is None,
        },
{
    match expect(v, i, "true") {
        Some(j) => Some((true, j)),
        None => {
            match expect(v, i, "false") {
                Some(j) => Some((false, j)),
                None => None,
            }
        },
    }
}

/// Read either a bare `null` or a decimal number.
pub open spec fn spec_parse_opt_u32(s: Seq<char>, i: int) -> Option<(Option<u32>, int)> {
    if matches_at(s, i, "null"@) {
        Some((None, i + "null"@.len()))
    } else {
        match spec_parse_u32(s, i) {
            Some((n, j)) => Some((Some(n), j)),
            None => None,
        }
    }
}

/// Read an optional number starting at `i`.
pub fn parse_opt_u32(v: &Vec<char>, i: usize) -> (r: Option<(Option<u32>, usize)>)
    ensures
        match r {
            Some((n, j)) => spec_parse_opt_u32(v@, i as int) == Some((n, j as int)) && j
                <= v@.len(),
            None => spec_parse_opt_u32(v@, i as int) is None,
        },
{
    match expect(v, i, "null") {
        Some(j) => Some((None, j)),
        None => {
            match parse_u32(v, i) {
                Some((n, j)) => Some((Some(n), j)),
                None => None,
            }
        },
    }
}

/// One character as it is written inside a quoted text: a quote or a
/// backslash behind a backslash, anything else as itself.
pub open spec fn esc_char(c: char) -> Seq<char> {
    if c == '"' || c == '\\' {
        seq!['\\', c]
    } else {
        seq![c]
    }
}

/// A text as it is written inside quotes.
pub open spec fn spec_escape(s: Seq<char>) -> Seq<char>
    decreases s.len(),
{
    if s.len() == 0 {
        Seq::empty()
    } else {
        esc_char(s[0]) + spec_escape(s.drop_first())
    }
}

/// Escaping distributes over appending one character at the end.
pub proof fn lemma_escape_push(s: Seq<char>)
    requires
        s.len() >= 1,
    ensures
        spec_escape(s) == spec_escape(s.drop_last()) + esc_char(s.last()),
    decreases s.len(),
{
    if s.len() == 1 {
        assert(spec_escape(s.drop_first()) == Seq::<char>::empty());
        assert(spec_escape(s.drop_last()) == Seq::<char>::empty());
        assert(spec_escape(s) =~= spec_escape(s.drop_last()) + esc_char(s.last()));
    } else {
        lemma_escape_push(s.drop_first());
        assert(s.drop_first().drop_last() == s.drop_last().drop_first());
        assert(s.drop_first().last() == s.last());
        assert(s.drop_last()[0] == s[0]);
        assert(spec_escape(s.drop_last()) == esc_char(s.drop_last()[0]) + spec_escape(
            s.drop_last().drop_first(),
        ));
        assert(spec_escape(s) =~= spec_escape(s.drop_last()) + esc_char(s.last()));
    }
}

/// Append the escaped form of `s` to `out`.
pub fn push_escaped(out: &mut Vec<char>, s: &Vec<char>)
    ensures
        final(out)@ == old(out)@ + spec_escape(s@),
{
    let mut k: usize = 0;
    while k < s.len()
        invariant
            k <= s.len(),
            out@ == old(out)@ + spec_escape(s@.subrange(0, k as int)),
        decreases s.len() - k,
    {
        let c = s[k];
        if c == '"' || c == '\\' {
            out.push('\\');
            out.push(c);
        } else {
            out.push(c);
        }
        proof {
            let p = s@.subrange(0, k + 1 as int);
            assert(p.drop_last() == s@.subrange(0, k as int));
            assert(p.last() == s@[k as int]);
            lemma_escape_push(p);
            assert(out@ =~= old(out)@ + spec_escape(p));
        }
        k = k + 1;
    }
    proof {
        assert(s@.subrange(0, s@.len() as int) == s@);
    }
}

/// Append a literal to `out`.
pub fn push_lit(out: &mut Vec<char>, lit: &str)
    ensures
        final(out)@ == old(out)@ + lit@,
{
    let mut l = chars_vec(lit);
    out.append(&mut l);
}

/// Append the decimal digits of `n` to `out`.
pub fn push_u32(out: &mut Vec<char>, n: u32)
    ensures
        final(out)@ == old(out)@ + spec_u32_digits(n),
{
    let mut d = u32_digits(n);
    out.append(&mut d);
}

/// What `property_type` reads as in the normalised shape.
pub open spec fn spec_type_from_name(s: Seq<char>) -> PropertyTypeV {
    if s == "Apartment"@ {
        PropertyTypeV::Apartment
    } else if s == "CorridorRoom"@ {
        PropertyTypeV::CorridorRoom
    } else {
        PropertyTypeV::Other(s)
    }
}

/// How a property kind is written in the normalised shape.
pub open spec fn spec_type_name(t: PropertyTypeV) -> Seq<char> {
    match t {
        PropertyTypeV::Apartment => "Apartment"@,
        PropertyTypeV::CorridorRoom => "CorridorRoom"@,
        PropertyTypeV::Other(s) => s,
    }
}

/// Read a property kind from its written name.
fn type_from_name(s: &Vec<char>) -> (r: PropertyType)
    ensures
        r@ == spec_type_from_name(s@),
{
    let apartment = chars_vec("Apartment");
    let corridor = chars_vec("CorridorRoom");
    if crate::model::chars_eq(s, &apartment) {
        PropertyType::Apartment
    } else if crate::model::chars_eq(s, &corridor) {
        PropertyType::CorridorRoom
    } else {
        PropertyType::Other(string_from_chars(s))
    }
}

/// A JSON whitespace character.
pub open spec fn is_ws(c: char) -> bool {
    c == ' ' || c == '\t' || c == '\n' || c == '\r'
}

/// The first position at or after `i` holding no whitespace.
pub open spec fn spec_skip_ws(s: Seq<char>, i: int) -> int
    decreases s.len() - i,
{
    if 0 <= i < s.len() && is_ws(s[i]) {
        spec_skip_ws(s, i + 1)
    } else {
        i
    }
}

/// Step over whitespace.
fn skip_ws(v: &Vec<char>, i: usize) -> (r: usize)
    requires
        i <= v.len(),
    ensures
        r as int == spec_skip_ws(v@, i as int),
        i <= r <= v.len(),
    decreases v.len() - i,
{
    if i < v.len() {
        let c = v[i];
        if c == ' ' || c == '\t' || c == '\n' || c == '\r' {
            return skip_ws(v, i + 1);
        }
    }
    i
}

/// A hexadecimal digit.
pub open spec fn is_hex(c: char) -> bool {
    is_digit(c) || ('a' <= c && c <= 'f') || ('A' <= c && c <= 'F')
}

/// The value of a hexadecimal digit.
pub open spec fn hval(c: char) -> u32 {
    if is_digit(c) {
        dval(c)
    } else if 'a' <= c && c <= 'f' {
        (((c as u32) - ('a' as u32) + 10) as u32)
    } else {
        (((c as u32) - ('A' as u32) + 10) as u32)
    }
}

/// Relies on char::from_u32: a scalar value makes a character unless it
/// is a surrogate or lies beyond the last code point.
#[verifier::external_body]
fn char_from_u32(x: u32) -> (r: Option<char>)
    ensures
        match r {
            Some(c) => (c as u32) == x,
            None => (0xD800 <= x <= 0xDFFF) || x > 0x10FFFF,
        },
{
    char::from_u32(x)
}

/// The value of a hexadecimal digit.
fn hex_value(c: char) -> (r: u32)
    requires
        is_hex(c),
    ensures
        r == hval(c),
        r < 16,
{
    if '0' <= c && c <= '9' {
        c as u32 - '0' as u32
    } else if 'a' <= c && c <= 'f' {
        c as u32 - 'a' as u32 + 10
    } else {
        c as u32 - 'A' as u32 + 10
    }
}

/// The body of a JSON string, read from just after the opening quote to
/// its closing quote. A backslash introduces the JSON escapes: quote,
/// backslash, slash, the named controls, and `uXXXX` for any scalar
/// outside the surrogate range.
pub open spec fn spec_jstring_body(s: Seq<char>, i: int) -> Option<(Seq<char>, int)>
    decreases s.len() - i,
{
    if i < 0 || i >= s.len() {
        None
    } else if s[i] == '"' {
        Some((Seq::empty(), i + 1))
    } else if s[i] == '\\' {
        if i + 2 > s.len() {
            None
        } else {
            let e = s[i + 1];
            if e == 'u' {
                if i + 6 > s.len() || !(is_hex(s[i + 2]) && is_hex(s[i + 3]) && is_hex(s[i + 4])
                    && is_hex(s[i + 5])) {
                    None
                } else {
                    let x = ((hval(s[i + 2]) * 4096 + hval(s[i + 3]) * 256 + hval(s[i + 4]) * 16
                        + hval(s[i + 5])) as u32);
                    if 0xD800 <= x <= 0xDFFF {
                        None
                    } else {
                        match spec_jstring_body(s, i + 6) {
                            Some((t, j)) => Some((seq![(x as char)] + t, j)),
                            None => None,
                        }
                    }
                }
            } else if e == '"' || e == '\\' || e == '/' || e == 'n' || e == 't' || e == 'r' || e
                == 'b' || e == 'f' {
                let c = if e == 'n' {
                    '\n'
                } else if e == 't' {
                    '\t'
                } else if e == 'r' {
                    '\r'
                } else if e == 'b' {
                    '\u{8}'
                } else if e == 'f' {
                    '\u{c}'
                } else {
                    e
                };
                match spec_jstring_body(s, i + 2) {
                    Some((t, j)) => Some((seq![c] + t, j)),
                    None => None,
                }
            } else {
                None
            }
        }
    } else {
        match spec_jstring_body(s, i + 1) {
            Some((t, j)) => Some((seq![s[i]] + t, j)),
            None => None,
        }
    }
}

/// A JSON string: an opening quote, a body, a closing quote.
pub open spec fn spec_parse_jstring(s: Seq<char>, i: int) -> Option<(Seq<char>, int)> {
    if 0 <= i < s.len() && s[i] == '"' {
        spec_jstring_body(s, i + 1)
    } else {
        None
    }
}

/// Read a JSON string body.
fn jstring_body(v: &Vec<char>, i: usize) -> (r: Option<(Vec<char>, usize)>)
    ensures
        match r {
            Some((t, j)) => spec_jstring_body(v@, i as int) == Some((t@, j as int)) && j
                <= v@.len(),
            None => spec_jstring_body(v@, i as int) is None,
        },
    decreases v.len() - i,
{
    if i >= v.len() {
        return None;
    }
    let c0 = v[i];
    if c0 == '"' {
        let t: Vec<char> = Vec::new();
        proof {
            assert(t@ + Seq::<char>::empty() =~= t@);
            assert(Seq::<char>::empty() =~= t@);
        }
        return Some((t, i + 1));
    }
    if c0 == '\\' {
        if v.len() - i < 2 {
            return None;
        }
        let e = v[i + 1];
        if e == 'u' {
            if v.len() - i < 6 {
                return None;
            }
            let h2 = v[i + 2];
            let h3 = v[i + 3];
            let h4 = v[i + 4];
            let h5 = v[i + 5];
            let hex_ok = (('0' <= h2 && h2 <= '9') || ('a' <= h2 && h2 <= 'f') || ('A' <= h2 && h2
                <= 'F')) && (('0' <= h3 && h3 <= '9') || ('a' <= h3 && h3 <= 'f') || ('A' <= h3
                && h3 <= 'F')) && (('0' <= h4 && h4 <= '9') || ('a' <= h4 && h4 <= 'f') || ('A'
                <= h4 && h4 <= 'F')) && (('0' <= h5 && h5 <= '9') || ('a' <= h5 && h5 <= 'f') || (
            'A' <= h5 && h5 <= 'F'));
            if !hex_ok {
                return None;
            }
            let x: u32 = hex_value(h2) * 4096 + hex_value(h3) * 256 + hex_value(h4) * 16
                + hex_value(h5);
            if 0xD800 <= x && x <= 0xDFFF {
                return None;
            }
            let c = match char_from_u32(x) {
                Some(c) => c,
                None => {
                    proof {
                        assert(false);
                    }
                    return None;
                },
            };
            proof {
                assert(c as u32 == x);
                vstd::utf8::char_u32_cast(c, x);
                assert(c == (x as char));
            }
            match jstring_body(v, i + 6) {
                Some((mut t, j)) => {
                    t.insert(0, c);
                    proof {
                        assert(t@ =~= seq![(x as char)] + t@.drop_first());
                    }
                    return Some((t, j));
                },
                None => {
                    return None;
                },
            }
        }
        if e == '"' || e == '\\' || e == '/' || e == 'n' || e == 't' || e == 'r' || e == 'b' || e
            == 'f' {
            let c = if e == 'n' {
                '\n'
            } else if e == 't' {
                '\t'
            } else if e == 'r' {
                '\r'
            } else if e == 'b' {
                '\u{8}'
            } else if e == 'f' {
                '\u{c}'
            } else {
                e
            };
            match jstring_body(v, i + 2) {
                Some((mut t, j)) => {
                    t.insert(0, c);
                    proof {
                        assert(t@ =~= seq![c] + t@.drop_first());
                    }
                    return Some((t, j));
                },
                None => {
                    return None;
                },
            }
        }
        return None;
    }
    match jstring_body(v, i + 1) {
        Some((mut t, j)) => {
            t.insert(0, c0);
            proof {
                assert(t@ =~= seq![c0] + t@.drop_first());
            }
            Some((t, j))
        },
        None => None,
    }
}

/// Read a JSON string.
fn parse_jstring(v: &Vec<char>, i: usize) -> (r: Option<(Vec<char>, usize)>)
    ensures
        match r {
            Some((t, j)) => spec_parse_jstring(v@, i as int) == Some((t@, j as int)) && j
                <= v@.len(),
            None => spec_parse_jstring(v@, i as int) is None,
        },
{
    if i < v.len() && v[i] == '"' {
        jstring_body(v, i + 1)
    } else {
        None
    }
}

/// The end of a run of decimal digits.
pub open spec fn spec_digit_end(s: Seq<char>, i: int) -> int
    decreases s.len() - i,
{
    if 0 <= i < s.len() && is_digit(s[i]) {
        spec_digit_end(s, i + 1)
    } else {
        i
    }
}

/// Step over decimal digits.
fn digit_end(v: &Vec<char>, i: usize) -> (r: usize)
    requires
        i <= v.len(),
    ensures
        r as int == spec_digit_end(v@, i as int),
        i <= r <= v.len(),
    decreases v.len() - i,
{
    if i < v.len() {
        let c = v[i];
        if '0' <= c && c <= '9' {
            return digit_end(v, i + 1);
        }
    }
    i
}

/// The end of a JSON number token: an optional minus, digits, an optional
/// fraction and an optional exponent.
pub open spec fn spec_number_end(s: Seq<char>, i: int) -> Option<int> {
    if i < 0 {
        None
    } else {
        let j0 = if i < s.len() && s[i] == '-' {
            i + 1
        } else {
            i
        };
        let j1 = spec_digit_end(s, j0);
        if j1 == j0 {
            None
        } else {
            let j2opt = if j1 < s.len() && s[j1] == '.' {
                let k = spec_digit_end(s, j1 + 1);
                if k == j1 + 1 {
                    None
                } else {
                    Some(k)
                }
            } else {
                Some(j1)
            };
            match j2opt {
                None => None,
                Some(j2) => {
                    if j2 < s.len() && (s[j2] == 'e' || s[j2] == 'E') {
                        let j3 = if j2 + 1 < s.len() && (s[j2 + 1] == '+' || s[j2 + 1] == '-') {
                            j2 + 2
                        } else {
                            j2 + 1
                        };
                        let j4 = spec_digit_end(s, j3);
                        if j4 == j3 {
                            None
                        } else {
                            Some(j4)
                        }
                    } else {
                        Some(j2)
                    }
                },
            }
        }
    }
}

/// A JSON number, kept as its raw text.
pub open spec fn spec_parse_number(s: Seq<char>, i: int) -> Option<(Seq<char>, int)> {
    match spec_number_end(s, i) {
        Some(j) => Some((s.subrange(i, j), j)),
        None => None,
    }
}

/// Copy a range of characters.
fn copy_range(v: &Vec<char>, i: usize, j: usize) -> (r: Vec<char>)
    requires
        i <= j <= v.len(),
    ensures
        r@ == v@.subrange(i as int, j as int),
{
    let mut out: Vec<char> = Vec::new();
    let mut k: usize = i;
    while k < j
        invariant
            i <= k <= j <= v.len(),
            out@ == v@.subrange(i as int, k as int),
        decreases j - k,
    {
        out.push(v[k]);
        proof {
            assert(v@.subrange(i as int, k + 1 as int) =~= v@.subrange(i as int, k as int).push(
                v@[k as int],
            ));
        }
        k = k + 1;
    }
    out
}

/// Read a JSON number, kept as its raw text.
fn parse_number(v: &Vec<char>, i: usize) -> (r: Option<(Vec<char>, usize)>)
    requires
        i <= v.len(),
    ensures
        match r {
            Some((t, j)) => spec_parse_number(v@, i as int) == Some((t@, j as int)) && j
                <= v@.len(),
            None => spec_parse_number(v@, i as int) is None,
        },
{
    let j0 = if i < v.len() && v[i] == '-' {
        i + 1
    } else {
        i
    };
    let j1 = digit_end(v, j0);
    if j1 == j0 {
        return None;
    }
    let j2 = if j1 < v.len() && v[j1] == '.' {
        let k = digit_end(v, j1 + 1);
        if k == j1 + 1 {
            return None;
        }
        k
    } else {
        j1
    };
    let j4 = if j2 < v.len() && (v[j2] == 'e' || v[j2] == 'E') {
        let j3 = if j2 + 1 < v.len() && (v[j2 + 1] == '+' || v[j2 + 1] == '-') {
            j2 + 2
        } else {
            j2 + 1
        };
        let k = digit_end(v, j3);
        if k == j3 {
            return None;
        }
        k
    } else {
        j2
    };
    Some((copy_range(v, i, j4), j4))
}

/// Step over one JSON value of any form. The fuel bounds the recursion
/// and always suffices for a value the document can hold.
pub open spec fn spec_skip_value(s: Seq<char>, i: int, fuel: nat) -> Option<int>
    decreases fuel,
{
    if fuel == 0 {
        None
    } else {
        let j = spec_skip_ws(s, i);
        if j >= s.len() {
            None
        } else if s[j] == '"' {
            match spec_parse_jstring(s, j) {
                Some((t, k)) => Some(k),
                None => None,
            }
        } else if s[j] == '{' {
            spec_skip_members(s, j + 1, true, (fuel - 1) as nat)
        } else if s[j] == '[' {
            spec_skip_members(s, j + 1, false, (fuel - 1) as nat)
        } else if matches_at(s, j, "true"@) {
            Some(j + "true"@.len())
        } else if matches_at(s, j, "false"@) {
            Some(j + "false"@.len())
        } else if matches_at(s, j, "null"@) {
            Some(j + "null"@.len())
        } else {
            match spec_number_end(s, j) {
                Some(k) => Some(k),
                None => None,
            }
        }
    }
}

/// Step over the members of an object or the elements of an array, from
/// just after the opener or a separating comma.
pub open spec fn spec_skip_members(s: Seq<char>, i: int, object: bool, fuel: nat) -> Option<int>
    decreases fuel,
{
    if fuel == 0 {
        None
    } else {
        let close = if object {
            '}'
        } else {
            ']'
        };
        let j = spec_skip_ws(s, i);
        if j < s.len() && s[j] == close {
            Some(j + 1)
        } else {
            let after = if object {
                match spec_parse_jstring(s, j) {
                    None => None,
                    Some((k_, j1)) => {
                        let j2 = spec_skip_ws(s, j1);
                        if j2 < s.len() && s[j2] == ':' {
                            spec_skip_value(s, j2 + 1, (fuel - 1) as nat)
                        } else {
                            None
                        }
                    },
                }
            } else {
                spec_skip_value(s, j, (fuel - 1) as nat)
            };
            match after {
                None => None,
                Some(j3) => {
                    let j4 = spec_skip_ws(s, j3);
                    if j4 < s.len() && s[j4] == ',' {
                        spec_skip_members(s, j4 + 1, object, (fuel - 1) as nat)
                    } else if j4 < s.len() && s[j4] == close {
                        Some(j4 + 1)
                    } else {
                        None
                    }
                },
            }
        }
    }
}

/// Step over one JSON value.
fn skip_value(v: &Vec<char>, i: usize, fuel: usize) -> (r: Option<usize>)
    requires
        i <= v.len(),
    ensures
        match r {
            Some(j) => spec_skip_value(v@, i as int, fuel as nat) == Some(j as int) && j
                <= v@.len(),
            None => spec_skip_value(v@, i as int, fuel as nat) is None,
        },
    decreases fuel,
{
    if fuel == 0 {
        return None;
    }
    let j = skip_ws(v, i);
    if j >= v.len() {
        return None;
    }
    let c = v[j];
    if c == '"' {
        match parse_jstring(v, j) {
            Some((_t, k)) => Some(k),
            None => None,
        }
    } else if c == '{' {
        skip_members(v, j + 1, true, fuel - 1)
    } else if c == '[' {
        skip_members(v, j + 1, false, fuel - 1)
    } else {
        match expect(v, j, "true") {
            Some(k) => {
                return Some(k);
            },
            None => {},
        }
        match expect(v, j, "false") {
            Some(k) => {
                return Some(k);
            },
            None => {},
        }
        match expect(v, j, "null") {
            Some(k) => {
                return Some(k);
            },
            None => {},
        }
        match parse_number(v, j) {
            Some((_t, k)) => Some(k),
            None => None,
        }
    }
}

/// Step over members or elements.
fn skip_members(v: &Vec<char>, i: usize, object: bool, fuel: usize) -> (r: Option<usize>)
    requires
        i <= v.len(),
    ensures
        match r {
            Some(j) => spec_skip_members(v@, i as int, object, fuel as nat) == Some(j as int) && j
                <= v@.len(),
            None => spec_skip_members(v@, i as int, object, fuel as nat) is None,
        },
    decreases fuel,
{
    if fuel == 0 {
        return None;
    }
    let close = if object {
        '}'
    } else {
        ']'
    };
    let j = skip_ws(v, i);
    if j < v.len() && v[j] == close {
        return Some(j + 1);
    }
    let after = if object {
        match parse_jstring(v, j) {
            None => None,
            Some((_k, j1)) => {
                let j2 = skip_ws(v, j1);
                if j2 < v.len() && v[j2] == ':' {
                    skip_value(v, j2 + 1, fuel - 1)
                } else {
                    None
                }
            },
        }
    } else {
        skip_value(v, j, fuel - 1)
    };
    match after {
        None => None,
        Some(j3) => {
            let j4 = skip_ws(v, j3);
            if j4 < v.len() && v[j4] == ',' {
                skip_members(v, j4 + 1, object, fuel - 1)
            } else if j4 < v.len() && v[j4] == close {
                Some(j4 + 1)
            } else {
                None
            }
        },
    }
}

/// A quoted number, as the oldest raw shape writes every numeral: a JSON
/// string whose whole content is the decimal value.
pub open spec fn spec_parse_quoted_u32(s: Seq<char>, i: int) -> Option<(u32, int)> {
    match spec_parse_jstring(s, i) {
        None => None,
        Some((t, k)) => match spec_parse_u32(t, 0) {
            Some((n, m)) => if m == t.len() && t.len() > 0 {
                Some((n, k))
            } else {
                None
            },
            None => None,
        },
    }
}

/// Read a quoted number.
fn parse_quoted_u32(v: &Vec<char>, i: usize) -> (r: Option<(u32, usize)>)
    ensures
        match r {
            Some((n, j)) => spec_parse_quoted_u32(v@, i as int) == Some((n, j as int)) && j
                <= v@.len(),
            None => spec_parse_quoted_u32(v@, i as int) is None,
        },
{
    match parse_jstring(v, i) {
        None => None,
        Some((t, k)) => {
            match parse_u32(&t, 0) {
                Some((n, m)) => {
                    if m == t.len() && t.len() > 0 {
                        Some((n, k))
                    } else {
                        None
                    }
                },
                None => None,
            }
        },
    }
}

/// A quoted boolean, as the oldest raw shape writes its flag.
pub open spec fn spec_parse_quoted_bool(s: Seq<char>, i: int) -> Option<(bool, int)> {
    match spec_parse_jstring(s, i) {
        None => None,
        Some((t, k)) => match spec_parse_bool(t, 0) {
            Some((b, m)) => if m == t.len() {
                Some((b, k))
            } else {
                None
            },
            None => None,
        },
    }
}

/// Read a quoted boolean.
fn parse_quoted_bool(v: &Vec<char>, i: usize) -> (r: Option<(bool, usize)>)
    ensures
        match r {
            Some((b, j)) => spec_parse_quoted_bool(v@, i as int) == Some((b, j as int)) && j
                <= v@.len(),
            None => spec_parse_quoted_bool(v@, i as int) is None,
        },
{
    match parse_jstring(v, i) {
        None => None,
        Some((t, k)) => {
            match parse_bool(&t, 0) {
                Some((b, m)) => {
                    if m == t.len() {
                        Some((b, k))
                    } else {
                        None
                    }
                },
                None => None,
            }
        },
    }
}

/// A size value: either a JSON string holding the decimal text, or a bare
/// JSON number; the text is kept verbatim either way, so no value is ever
/// rounded.
pub open spec fn spec_parse_size(s: Seq<char>, i: int) -> Option<(Seq<char>, int)> {
    if 0 <= i < s.len() && s[i] == '"' {
        spec_parse_jstring(s, i)
    } else {
        spec_parse_number(s, i)
    }
}

/// Read a size value.
fn parse_size(v: &Vec<char>, i: usize) -> (r: Option<(Vec<char>, usize)>)
    requires
        i <= v.len(),
    ensures
        match r {
            Some((t, j)) => spec_parse_size(v@, i as int) == Some((t@, j as int)) && j <= v@.len(),
            None => spec_parse_size(v@, i as int) is None,
        },
{
    if i < v.len() && v[i] == '"' {
        parse_jstring(v, i)
    } else {
        parse_number(v, i)
    }
}

/// What has been gathered of an oldest-shape document while its members
/// go by, in any order.
pub struct AccProductV {
    pub product_id: Option<u32>,
    pub typ: Option<Seq<char>>,
    pub description: Option<Seq<char>>,
    pub short_description: Option<Seq<char>>,
    pub area: Option<Seq<char>>,
    pub sqr_mtrs: Option<Seq<char>>,
    pub reserved: Option<bool>,
    pub number_of_reservations: Option<u32>,
    pub queue_number: Option<u32>,
}

/// The gathering of an oldest-shape document, as the reader carries it.
pub struct AccProduct {
    pub product_id: Option<u32>,
    pub typ: Option<String>,
    pub description: Option<String>,
    pub short_description: Option<String>,
    pub area: Option<String>,
    pub sqr_mtrs: Option<String>,
    pub reserved: Option<bool>,
    pub number_of_reservations: Option<u32>,
    pub queue_number: Option<u32>,
}

/// The spec-level value of an optional string.
pub open spec fn opt_chars(o: Option<String>) -> Option<Seq<char>> {
    match o {
        Some(s) => Some(s@),
        None => None,
    }
}

impl View for AccProduct {
    type V = AccProductV;

    open spec fn view(&self) -> AccProductV {
        AccProductV {
            product_id: self.product_id,
            typ: opt_chars(self.typ),
            description: opt_chars(self.description),
            short_description: opt_chars(self.short_description),
            area: opt_chars(self.area),
            sqr_mtrs: opt_chars(self.sqr_mtrs),
            reserved: self.reserved,
            number_of_reservations: self.number_of_reservations,
            queue_number: self.queue_number,
        }
    }
}

/// One member of an oldest-shape document: a known key takes its value
/// into the gathering, and a key seen twice fails the parse; an unknown
/// key has its value stepped over.
pub open spec fn spec_v1_field(
    s: Seq<char>,
    i: int,
    acc: AccProductV,
    key: Seq<char>,
    fuel: nat,
) -> Option<(AccProductV, int)> {
    if key == "productId"@ {
        if acc.product_id is Some {
            None
        } else {
            match spec_parse_quoted_u32(s, i) {
                Some((n, j)) => Some((AccProductV { product_id: Some(n), ..acc }, j)),
                None => None,
            }
        }
    } else if key == "type"@ {
        if acc.typ is Some {
            None
        } else {
            match spec_parse_jstring(s, i) {
                Some((t, j)) => Some((AccProductV { typ: Some(t), ..acc }, j)),
                None => None,
            }
        }
    } else if key == "description"@ {
        if acc.description is Some {
            None
        } else {
            match spec_parse_jstring(s, i) {
                Some((t, j)) => Some((AccProductV { description: Some(t), ..acc }, j)),
                None => None,
            }
        }
    } else if key == "shortDescription"@ {
        if acc.short_description is Some {
            None
        } else {
            match spec_parse_jstring(s, i) {
                Some((t, j)) => Some((AccProductV { short_description: Some(t), ..acc }, j)),
                None => None,
            }
        }
    } else if key == "area"@ {
        if acc.area is Some {
            None
        } else {
            match spec_parse_jstring(s, i) {
                Some((t, j)) => Some((AccProductV { area: Some(t), ..acc }, j)),
                None => None,
            }
        }
    } else if key == "sqrMtrs"@ {
        if acc.sqr_mtrs is Some {
            None
        } else {
            match spec_parse_size(s, i) {
                Some((t, j)) => Some((AccProductV { sqr_mtrs: Some(t), ..acc }, j)),
                None => None,
            }
        }
    } else if key == "reserved"@ {
        if acc.reserved is Some {
            None
        } else {
            match spec_parse_quoted_bool(s, i) {
                Some((b, j)) => Some((AccProductV { reserved: Some(b), ..acc }, j)),
                None => None,
            }
        }
    } else if key == "numberOfReservations"@ {
        if acc.number_of_reservations is Some {
            None
        } else {
            match spec_parse_quoted_u32(s, i) {
                Some((n, j)) => Some((AccProductV { number_of_reservations: Some(n), ..acc }, j)),
                None => None,
            }
        }
    } else if key == "queueNumber"@ {
        if acc.queue_number is Some {
            None
        } else {
            match spec_parse_quoted_u32(s, i) {
                Some((n, j)) => Some((AccProductV { queue_number: Some(n), ..acc }, j)),
                None => None,
            }
        }
    } else {
        match spec_skip_value(s, i, fuel) {
            Some(j) => Some((acc, j)),
            None => None,
        }
    }
}

/// The members of an oldest-shape document, from just after the brace or
/// a separating comma, until the closing brace.
pub open spec fn spec_v1_members(s: Seq<char>, i: int, acc: AccProductV, fuel: nat) -> Option<
    (AccProductV, int),
>
    decreases fuel,
{
    if fuel == 0 {
        None
    } else {
        let j = spec_skip_ws(s, i);
        if j < s.len() && s[j] == '}' {
            Some((acc, j + 1))
        } else {
            match spec_parse_jstring(s, j) {
                None => None,
                Some((key, j1)) => {
                    let j2 = spec_skip_ws(s, j1);
                    if !(j2 < s.len() && s[j2] == ':') {
                        None
                    } else {
                        let jv = spec_skip_ws(s, j2 + 1);
                        match spec_v1_field(s, jv, acc, key, (fuel - 1) as nat) {
                            None => None,
                            Some((acc2, j3)) => {
                                let j4 = spec_skip_ws(s, j3);
                                if j4 < s.len() && s[j4] == ',' {
                                    spec_v1_members(s, j4 + 1, acc2, (fuel - 1) as nat)
                                } else if j4 < s.len() && s[j4] == '}' {
                                    Some((acc2, j4 + 1))
                                } else {
                                    None
                                }
                            },
                        }
                    }
                },
            }
        }
    }
}

/// Read one member of an oldest-shape document.
fn v1_field(v: &Vec<char>, i: usize, acc: AccProduct, key: &Vec<char>, fuel: usize) -> (r: Option<
    (AccProduct, usize),
>)
    requires
        i <= v.len(),
    ensures
        match r {
            Some((acc2, j)) => spec_v1_field(v@, i as int, acc@, key@, fuel as nat) == Some(
                (acc2@, j as int),
            ) && j <= v@.len(),
            None => spec_v1_field(v@, i as int, acc@, key@, fuel as nat) is None,
        },
{
    let mut acc = acc;
    if str_eq_chars(key, "productId") {
        if acc.product_id.is_some() {
            return None;
        }
        match parse_quoted_u32(v, i) {
            Some((n, j)) => {
                acc.product_id = Some(n);
                Some((acc, j))
            },
            None => None,
        }
    } else if str_eq_chars(key, "type") {
        if acc.typ.is_some() {
            return None;
        }
        match parse_jstring(v, i) {
            Some((t, j)) => {
                acc.typ = Some(string_from_chars(&t));
                Some((acc, j))
            },
            None => None,
        }
    } else if str_eq_chars(key, "description") {
        if acc.description.is_some() {
            return None;
        }
        match parse_jstring(v, i) {
            Some((t, j)) => {
                acc.description = Some(string_from_chars(&t));
                Some((acc, j))
            },
            None => None,
        }
    } else if str_eq_chars(key, "shortDescription") {
        if acc.short_description.is_some() {
            return None;
        }
        match parse_jstring(v, i) {
            Some((t, j)) => {
                acc.short_description = Some(string_from_chars(&t));
                Some((acc, j))
            },
            None => None,
        }
    } else if str_eq_chars(key, "area") {
        if acc.area.is_some() {
            return None;
        }
        match parse_jstring(v, i) {
            Some((t, j)) => {
                acc.area = Some(string_from_chars(&t));
                Some((acc, j))
            },
            None => None,
        }
    } else if str_eq_chars(key, "sqrMtrs") {
        if acc.sqr_mtrs.is_some() {
            return None;
        }
        match parse_size(v, i) {
            Some((t, j)) => {
                acc.sqr_mtrs = Some(string_from_chars(&t));
                Some((acc, j))
            },
            None => None,
        }
    } else if str_eq_chars(key, "reserved") {
        if acc.reserved.is_some() {
            return None;
        }
        match parse_quoted_bool(v, i) {
            Some((b, j)) => {
                acc.reserved = Some(b);
                Some((acc, j))
            },
            None => None,
        }
    } else if str_eq_chars(key, "numberOfReservations") {
        if acc.number_of_reservations.is_some() {
            return None;
        }
        match parse_quoted_u32(v, i) {
            Some((n, j)) => {
                acc.number_of_reservations = Some(n);
                Some((acc, j))
            },
            None => None,
        }
    } else if str_eq_chars(key, "queueNumber") {
        if acc.queue_number.is_some() {
            return None;
        }
        match parse_quoted_u32(v, i) {
            Some((n, j)) => {
                acc.queue_number = Some(n);
                Some((acc, j))
            },
            None => None,
        }
    } else {
        match skip_value(v, i, fuel) {
            Some(j) => Some((acc, j)),
            None => None,
        }
    }
}

/// Whether a parsed key spells a given literal.
fn str_eq_chars(key: &Vec<char>, lit: &str) -> (r: bool)
    ensures
        r == (key@ == lit@),
{
    let l = chars_vec(lit);
    crate::model::chars_eq(key, &l)
}

/// Read the members of an oldest-shape document.
fn v1_members(v: &Vec<char>, i: usize, acc: AccProduct, fuel: usize) -> (r: Option<
    (AccProduct, usize),
>)
    requires
        i <= v.len(),
    ensures
        match r {
            Some((acc2, j)) => spec_v1_members(v@, i as int, acc@, fuel as nat) == Some(
                (acc2@, j as int),
            ) && j <= v@.len(),
            None => spec_v1_members(v@, i as int, acc@, fuel as nat) is None,
        },
    decreases fuel,
{
    if fuel == 0 {
        return None;
    }
    let j = skip_ws(v, i);
    if j < v.len() && v[j] == '}' {
        return Some((acc, j + 1));
    }
    match parse_jstring(v, j) {
        None => None,
        Some((key, j1)) => {
            let j2 = skip_ws(v, j1);
            if !(j2 < v.len() && v[j2] == ':') {
                return None;
            }
            let jv = skip_ws(v, j2 + 1);
            match v1_field(v, jv, acc, &key, fuel - 1) {
                None => None,
                Some((acc2, j3)) => {
                    let j4 = skip_ws(v, j3);
                    if j4 < v.len() && v[j4] == ',' {
                        v1_members(v, j4 + 1, acc2, fuel - 1)
                    } else if j4 < v.len() && v[j4] == '}' {
                        Some((acc2, j4 + 1))
                    } else {
                        None
                    }
                },
            }
        },
    }
}

/// Parse a whole document as the oldest raw shape: one JSON object whose
/// members may come in any order and carry any whitespace; unknown
/// members are stepped over; every field of the shape must be present.
pub open spec fn spec_parse_product(s: Seq<char>) -> Option<ProductV> {
    let i0 = spec_skip_ws(s, 0);
    if !(i0 < s.len() && s[i0] == '{') {
        None
    } else {
        let acc0 = AccProductV {
            product_id: None,
            typ: None,
            description: None,
            short_description: None,
            area: None,
            sqr_mtrs: None,
            reserved: None,
            number_of_reservations: None,
            queue_number: None,
        };
        match spec_v1_members(s, i0 + 1, acc0, s.len() as nat) {
            None => None,
            Some((acc, j)) => {
                if spec_skip_ws(s, j) != s.len() {
                    None
                } else {
                    match (acc.product_id, acc.typ, acc.description, acc.short_description) {
                        (Some(product_id), Some(typ), Some(description), Some(short_description)) =>
                        match (acc.area, acc.sqr_mtrs, acc.reserved, acc.number_of_reservations, acc.queue_number) {
                            (Some(area), Some(sqr_mtrs), Some(reserved), Some(number_of_reservations), Some(queue_number)) => Some(
                                ProductV {
                                    product_id,
                                    typ,
                                    description,
                                    short_description,
                                    area,
                                    sqr_mtrs,
                                    reserved,
                                    number_of_reservations,
                                    queue_number,
                                },
                            ),
                            _ => None,
                        },
                        _ => None,
                    }
                }
            },
        }
    }
}

/// Parse a whole document as the oldest raw shape.
pub fn parse_product(v: &Vec<char>) -> (r: Option<Product>)
    ensures
        match r {
            Some(p) => spec_parse_product(v@) == Some(p@),
            None => spec_parse_product(v@) is None,
        },
{
    let i0 = skip_ws(v, 0);
    if !(i0 < v.len() && v[i0] == '{') {
        return None;
    }
    let acc0 = AccProduct {
        product_id: None,
        typ: None,
        description: None,
        short_description: None,
        area: None,
        sqr_mtrs: None,
        reserved: None,
        number_of_reservations: None,
        queue_number: None,
    };
    match v1_members(v, i0 + 1, acc0, v.len()) {
        None => None,
        Some((acc, j)) => {
            if skip_ws(v, j) != v.len() {
                return None;
            }
            match (acc.product_id, acc.typ, acc.description, acc.short_description, acc.area, acc.sqr_mtrs, acc.reserved, acc.number_of_reservations, acc.queue_number) {
                (
                    Some(product_id),
                    Some(typ),
                    Some(description),
                    Some(short_description),
                    Some(area),
                    Some(sqr_mtrs),
                    Some(reserved),
                    Some(number_of_reservations),
                    Some(queue_number),
                ) => Some(
                    Product {
                        product_id,
                        typ,
                        description,
                        short_description,
                        area,
                        sqr_mtrs,
                        reserved,
                        number_of_reservations,
                        queue_number,
                    },
                ),
                _ => None,
            }
        },
    }
}

/// A property kind as the normalised shape writes it: either a bare name
/// string, or an object tagging a free-form kind.
pub open spec fn spec_parse_ptype(s: Seq<char>, i: int) -> Option<(PropertyTypeV, int)> {
    if 0 <= i < s.len() && s[i] == '"' {
        match spec_parse_jstring(s, i) {
            Some((t, j)) => Some((spec_type_from_name(t), j)),
            None => None,
        }
    } else if 0 <= i < s.len() && s[i] == '{' {
        let j0 = spec_skip_ws(s, i + 1);
        match spec_parse_jstring(s, j0) {
            None => None,
            Some((tag, j1)) => if tag != "Other"@ {
                None
            } else {
                let j2 = spec_skip_ws(s, j1);
                if !(j2 < s.len() && s[j2] == ':') {
                    None
                } else {
                    let j3 = spec_skip_ws(s, j2 + 1);
                    match spec_parse_jstring(s, j3) {
                        None => None,
                        Some((t, j4)) => {
                            let j5 = spec_skip_ws(s, j4);
                            if j5 < s.len() && s[j5] == '}' {
                                Some((PropertyTypeV::Other(t), j5 + 1))
                            } else {
                                None
                            }
                        },
                    }
                }
            },
        }
    } else {
        None
    }
}

/// Read a property kind value.
fn parse_ptype(v: &Vec<char>, i: usize) -> (r: Option<(PropertyType, usize)>)
    requires
        i <= v.len(),
    ensures
        match r {
            Some((t, j)) => spec_parse_ptype(v@, i as int) == Some((t@, j as int)) && j
                <= v@.len(),
            None => spec_parse_ptype(v@, i as int) is None,
        },
{
    if i < v.len() && v[i] == '"' {
        match parse_jstring(v, i) {
            Some((t, j)) => Some((type_from_name(&t), j)),
            None => None,
        }
    } else if i < v.len() && v[i] == '{' {
        let j0 = skip_ws(v, i + 1);
        match parse_jstring(v, j0) {
            None => None,
            Some((tag, j1)) => {
                if !str_eq_chars(&tag, "Other") {
                    return None;
                }
                let j2 = skip_ws(v, j1);
                if !(j2 < v.len() && v[j2] == ':') {
                    return None;
                }
                let j3 = skip_ws(v, j2 + 1);
                match parse_jstring(v, j3) {
                    None => None,
                    Some((t, j4)) => {
                        let j5 = skip_ws(v, j4);
                        if j5 < v.len() && v[j5] == '}' {
                            Some((PropertyType::Other(string_from_chars(&t)), j5 + 1))
                        } else {
                            None
                        }
                    },
                }
            },
        }
    } else {
        None
    }
}

/// What has been gathered of a queue-position object.
pub struct AccQpV {
    pub position: Option<Option<u32>>,
    pub total_in_queue: Option<u32>,
}

/// The members of a queue-position object, in any order: the position may
/// be a bare number or an explicit null.
pub open spec fn spec_qp_members(s: Seq<char>, i: int, acc: AccQpV, fuel: nat) -> Option<
    (AccQpV, int),
>
    decreases fuel,
{
    if fuel == 0 {
        None
    } else {
        let j = spec_skip_ws(s, i);
        if j < s.len() && s[j] == '}' {
            Some((acc, j + 1))
        } else {
            match spec_parse_jstring(s, j) {
                None => None,
                Some((key, j1)) => {
                    let j2 = spec_skip_ws(s, j1);
                    if !(j2 < s.len() && s[j2] == ':') {
                        None
                    } else {
                        let jv = spec_skip_ws(s, j2 + 1);
                        let stepped = if key == "position"@ {
                            if acc.position is Some {
                                None
                            } else {
                                match spec_parse_opt_u32(s, jv) {
                                    Some((p, k)) => Some((AccQpV { position: Some(p), ..acc }, k)),
                                    None => None,
                                }
                            }
                        } else if key == "total_in_queue"@ {
                            if acc.total_in_queue is Some {
                                None
                            } else {
                                match spec_parse_u32(s, jv) {
                                    Some((n, k)) => Some(
                                        (AccQpV { total_in_queue: Some(n), ..acc }, k),
                                    ),
                                    None => None,
                                }
                            }
                        } else {
                            match spec_skip_value(s, jv, (fuel - 1) as nat) {
                                Some(k) => Some((acc, k)),
                                None => None,
                            }
                        };
                        match stepped {
                            None => None,
                            Some((acc2, j3)) => {
                                let j4 = spec_skip_ws(s, j3);
                                if j4 < s.len() && s[j4] == ',' {
                                    spec_qp_members(s, j4 + 1, acc2, (fuel - 1) as nat)
                                } else if j4 < s.len() && s[j4] == '}' {
                                    Some((acc2, j4 + 1))
                                } else {
                                    None
                                }
                            },
                        }
                    }
                },
            }
        }
    }
}

/// A queue-position value: one JSON object carrying the position and the
/// number of competitors.
pub open spec fn spec_parse_qp(s: Seq<char>, i: int, fuel: nat) -> Option<(QueuePositionV, int)> {
    if !(0 <= i < s.len() && s[i] == '{') {
        None
    } else {
        match spec_qp_members(s, i + 1, AccQpV { position: None, total_in_queue: None }, fuel) {
            None => None,
            Some((acc, j)) => match (acc.position, acc.total_in_queue) {
                (Some(position), Some(total_in_queue)) => Some(
                    (QueuePositionV { position, total_in_queue }, j),
                ),
                _ => None,
            },
        }
    }
}

/// Read the members of a queue-position object.
fn qp_members(v: &Vec<char>, i: usize, acc_position: Option<Option<u32>>, acc_total: Option<u32>, fuel: usize) -> (r: Option<
    (Option<Option<u32>>, Option<u32>, usize),
>)
    requires
        i <= v.len(),
    ensures
        match r {
            Some((p, t, j)) => spec_qp_members(
                v@,
                i as int,
                AccQpV { position: acc_position, total_in_queue: acc_total },
                fuel as nat,
            ) == Some((AccQpV { position: p, total_in_queue: t }, j as int)) && j <= v@.len(),
            None => spec_qp_members(
                v@,
                i as int,
                AccQpV { position: acc_position, total_in_queue: acc_total },
                fuel as nat,
            ) is None,
        },
    decreases fuel,
{
    if fuel == 0 {
        return None;
    }
    let j = skip_ws(v, i);
    if j < v.len() && v[j] == '}' {
        return Some((acc_position, acc_total, j + 1));
    }
    match parse_jstring(v, j) {
        None => None,
        Some((key, j1)) => {
            let j2 = skip_ws(v, j1);
            if !(j2 < v.len() && v[j2] == ':') {
                return None;
            }
            let jv = skip_ws(v, j2 + 1);
            let mut position = acc_position;
            let mut total = acc_total;
            let j3: usize;
            if str_eq_chars(&key, "position") {
                if position.is_some() {
                    return None;
                }
                match parse_opt_u32(v, jv) {
                    Some((p, k)) => {
                        position = Some(p);
                        j3 = k;
                    },
                    None => {
                        return None;
                    },
                }
            } else if str_eq_chars(&key, "total_in_queue") {
                if total.is_some() {
                    return None;
                }
                match parse_u32(v, jv) {
                    Some((n, k)) => {
                        total = Some(n);
                        j3 = k;
                    },
                    None => {
                        return None;
                    },
                }
            } else {
                match skip_value(v, jv, fuel - 1) {
                    Some(k) => {
                        j3 = k;
                    },
                    None => {
                        return None;
                    },
                }
            }
            let j4 = skip_ws(v, j3);
            if j4 < v.len() && v[j4] == ',' {
                qp_members(v, j4 + 1, position, total, fuel - 1)
            } else if j4 < v.len() && v[j4] == '}' {
                Some((position, total, j4 + 1))
            } else {
                None
            }
        },
    }
}

/// Read a queue-position value.
fn parse_qp(v: &Vec<char>, i: usize, fuel: usize) -> (r: Option<(QueuePosition, usize)>)
    requires
        i <= v.len(),
    ensures
        match r {
            Some((q, j)) => spec_parse_qp(v@, i as int, fuel as nat) == Some((q@, j as int)) && j
                <= v@.len(),
            None => spec_parse_qp(v@, i as int, fuel as nat) is None,
        },
{
    if !(i < v.len() && v[i] == '{') {
        return None;
    }
    match qp_members(v, i + 1, None, None, fuel) {
        None => None,
        Some((p, t, j)) => {
            match (p, t) {
                (Some(position), Some(total_in_queue)) => Some(
                    (QueuePosition { position, total_in_queue }, j),
                ),
                _ => None,
            }
        },
    }
}

/// What has been gathered of a normalised-shape document.
pub struct AccPropertyV {
    pub id: Option<u32>,
    pub property_type: Option<PropertyTypeV>,
    pub description: Option<Seq<char>>,
    pub short_description: Option<Seq<char>>,
    pub area: Option<Seq<char>>,
    pub queue_position: Option<QueuePositionV>,
    pub reserved: Option<bool>,
    pub size_sqm: Option<Seq<char>>,
}

/// The gathering of a normalised-shape document, as the reader carries
/// it.
pub struct AccProperty {
    pub id: Option<u32>,
    pub property_type: Option<PropertyType>,
    pub description: Option<String>,
    pub short_description: Option<String>,
    pub area: Option<String>,
    pub queue_position: Option<QueuePosition>,
    pub reserved: Option<bool>,
    pub size_sqm: Option<String>,
}

impl View for AccProperty {
    type V = AccPropertyV;

    open spec fn view(&self) -> AccPropertyV {
        AccPropertyV {
            id: self.id,
            property_type: match self.property_type {
                Some(t) => Some(t@),
                None => None,
            },
            description: opt_chars(self.description),
            short_description: opt_chars(self.short_description),
            area: opt_chars(self.area),
            queue_position: match self.queue_position {
                Some(q) => Some(q@),
                None => None,
            },
            reserved: self.reserved,
            size_sqm: opt_chars(self.size_sqm),
        }
    }
}

/// One member of a normalised-shape document.
pub open spec fn spec_v2_field(
    s: Seq<char>,
    i: int,
    acc: AccPropertyV,
    key: Seq<char>,
    fuel: nat,
) -> Option<(AccPropertyV, int)> {
    if key == "id"@ {
        if acc.id is Some {
            None
        } else {
            match spec_parse_u32(s, i) {
                Some((n, j)) => Some((AccPropertyV { id: Some(n), ..acc }, j)),
                None => None,
            }
        }
    } else if key == "property_type"@ {
        if acc.property_type is Some {
            None
        } else {
            match spec_parse_ptype(s, i) {
                Some((t, j)) => Some((AccPropertyV { property_type: Some(t), ..acc }, j)),
                None => None,
            }
        }
    } else if key == "description"@ {
        if acc.description is Some {
            None
        } else {
            match spec_parse_jstring(s, i) {
                Some((t, j)) => Some((AccPropertyV { description: Some(t), ..acc }, j)),
                None => None,
            }
        }
    } else if key == "short_description"@ {
        if acc.short_description is Some {
            None
        } else {
            match spec_parse_jstring(s, i) {
                Some((t, j)) => Some((AccPropertyV { short_description: Some(t), ..acc }, j)),
                None => None,
            }
        }
    } else if key == "area"@ {
        if acc.area is Some {
            None
        } else {
            match spec_parse_jstring(s, i) {
                Some((t, j)) => Some((AccPropertyV { area: Some(t), ..acc }, j)),
                None => None,
            }
        }
    } else if key == "queue_position"@ {
        if acc.queue_position is Some {
            None
        } else {
            match spec_parse_qp(s, i, fuel) {
                Some((q, j)) => Some((AccPropertyV { queue_position: Some(q), ..acc }, j)),
                None => None,
            }
        }
    } else if key == "reserved"@ {
        if acc.reserved is Some {
            None
        } else {
            match spec_parse_bool(s, i) {
                Some((b, j)) => Some((AccPropertyV { reserved: Some(b), ..acc }, j)),
                None => None,
            }
        }
    } else if key == "size_sqm"@ {
        if acc.size_sqm is Some {
            None
        } else {
            match spec_parse_size(s, i) {
                Some((t, j)) => Some((AccPropertyV { size_sqm: Some(t), ..acc }, j)),
                None => None,
            }
        }
    } else {
        match spec_skip_value(s, i, fuel) {
            Some(j) => Some((acc, j)),
            None => None,
        }
    }
}

/// The members of a normalised-shape document.
pub open spec fn spec_v2_members(s: Seq<char>, i: int, acc: AccPropertyV, fuel: nat) -> Option<
    (AccPropertyV, int),
>
    decreases fuel,
{
    if fuel == 0 {
        None
    } else {
        let j = spec_skip_ws(s, i);
        if j < s.len() && s[j] == '}' {
            Some((acc, j + 1))
        } else {
            match spec_parse_jstring(s, j) {
                None => None,
                Some((key, j1)) => {
                    let j2 = spec_skip_ws(s, j1);
                    if !(j2 < s.len() && s[j2] == ':') {
                        None
                    } else {
                        let jv = spec_skip_ws(s, j2 + 1);
                        match spec_v2_field(s, jv, acc, key, (fuel - 1) as nat) {
                            None => None,
                            Some((acc2, j3)) => {
                                let j4 = spec_skip_ws(s, j3);
                                if j4 < s.len() && s[j4] == ',' {
                                    spec_v2_members(s, j4 + 1, acc2, (fuel - 1) as nat)
                                } else if j4 < s.len() && s[j4] == '}' {
                                    Some((acc2, j4 + 1))
                                } else {
                                    None
                                }
                            },
                        }
                    }
                },
            }
        }
    }
}

/// Read one member of a normalised-shape document.
fn v2_field(v: &Vec<char>, i: usize, acc: AccProperty, key: &Vec<char>, fuel: usize) -> (r: Option<
    (AccProperty, usize),
>)
    requires
        i <= v.len(),
    ensures
        match r {
            Some((acc2, j)) => spec_v2_field(v@, i as int, acc@, key@, fuel as nat) == Some(
                (acc2@, j as int),
            ) && j <= v@.len(),
            None => spec_v2_field(v@, i as int, acc@, key@, fuel as nat) is None,
        },
{
    let mut acc = acc;
    if str_eq_chars(key, "id") {
        if acc.id.is_some() {
            return None;
        }
        match parse_u32(v, i) {
            Some((n, j)) => {
                acc.id = Some(n);
                Some((acc, j))
            },
            None => None,
        }
    } else if str_eq_chars(key, "property_type") {
        if acc.property_type.is_some() {
            return None;
        }
        match parse_ptype(v, i) {
            Some((t, j)) => {
                acc.property_type = Some(t);
                Some((acc, j))
            },
            None => None,
        }
    } else if str_eq_chars(key, "description") {
        if acc.description.is_some() {
            return None;
        }
        match parse_jstring(v, i) {
            Some((t, j)) => {
                acc.description = Some(string_from_chars(&t));
                Some((acc, j))
            },
            None => None,
        }
    } else if str_eq_chars(key, "short_description") {
        if acc.short_description.is_some() {
            return None;
        }
        match parse_jstring(v, i) {
            Some((t, j)) => {
                acc.short_description = Some(string_from_chars(&t));
                Some((acc, j))
            },
            None => None,
        }
    } else if str_eq_chars(key, "area") {
        if acc.area.is_some() {
            return None;
        }
        match parse_jstring(v, i) {
            Some((t, j)) => {
                acc.area = Some(string_from_chars(&t));
                Some((acc, j))
            },
            None => None,
        }
    } else if str_eq_chars(key, "queue_position") {
        if acc.queue_position.is_some() {
            return None;
        }
        match parse_qp(v, i, fuel) {
            Some((q, j)) => {
                acc.queue_position = Some(q);
                Some((acc, j))
            },
            None => None,
        }
    } else if str_eq_chars(key, "reserved") {
        if acc.reserved.is_some() {
            return None;
        }
        match parse_bool(v, i) {
            Some((b, j)) => {
                acc.reserved = Some(b);
                Some((acc, j))
            },
            None => None,
        }
    } else if str_eq_chars(key, "size_sqm") {
        if acc.size_sqm.is_some() {
            return None;
        }
        match parse_size(v, i) {
            Some((t, j)) => {
                acc.size_sqm = Some(string_from_chars(&t));
                Some((acc, j))
            },
            None => None,
        }
    } else {
        match skip_value(v, i, fuel) {
            Some(j) => Some((acc, j)),
            None => None,
        }
    }
}

/// Read the members of a normalised-shape document.
fn v2_members(v: &Vec<char>, i: usize, acc: AccProperty, fuel: usize) -> (r: Option<
    (AccProperty, usize),
>)
    requires
        i <= v.len(),
    ensures
        match r {
            Some((acc2, j)) => spec_v2_members(v@, i as int, acc@, fuel as nat) == Some(
                (acc2@, j as int),
            ) && j <= v@.len(),
            None => spec_v2_members(v@, i as int, acc@, fuel as nat) is None,
        },
    decreases fuel,
{
    if fuel == 0 {
        return None;
    }
    let j = skip_ws(v, i);
    if j < v.len() && v[j] == '}' {
        return Some((acc, j + 1));
    }
    match parse_jstring(v, j) {
        None => None,
        Some((key, j1)) => {
            let j2 = skip_ws(v, j1);
            if !(j2 < v.len() && v[j2] == ':') {
                return None;
            }
            let jv = skip_ws(v, j2 + 1);
            match v2_field(v, jv, acc, &key, fuel - 1) {
                None => None,
                Some((acc2, j3)) => {
                    let j4 = skip_ws(v, j3);
                    if j4 < v.len() && v[j4] == ',' {
                        v2_members(v, j4 + 1, acc2, fuel - 1)
                    } else if j4 < v.len() && v[j4] == '}' {
                        Some((acc2, j4 + 1))
                    } else {
                        None
                    }
                },
            }
        },
    }
}

/// Parse a whole document as the normalised shape: one JSON object whose
/// members may come in any order and carry any whitespace; unknown
/// members are stepped over; every field of the shape must be present.
pub open spec fn spec_parse_property(s: Seq<char>) -> Option<PropertyV> {
    let i0 = spec_skip_ws(s, 0);
    if !(i0 < s.len() && s[i0] == '{') {
        None
    } else {
        let acc0 = AccPropertyV {
            id: None,
            property_type: None,
            description: None,
            short_description: None,
            area: None,
            queue_position: None,
            reserved: None,
            size_sqm: None,
        };
        match spec_v2_members(s, i0 + 1, acc0, s.len() as nat) {
            None => None,
            Some((acc, j)) => {
                if spec_skip_ws(s, j) != s.len() {
                    None
                } else {
                    match (acc.id, acc.property_type, acc.description, acc.short_description) {
                        (Some(id), Some(property_type), Some(description), Some(short_description)) =>
                        match (acc.area, acc.queue_position, acc.reserved, acc.size_sqm) {
                            (Some(area), Some(queue_position), Some(reserved), Some(size_sqm)) => Some(
                                PropertyV {
                                    id,
                                    property_type,
                                    description,
                                    short_description,
                                    area,
                                    queue_position,
                                    reserved,
                                    size_sqm,
                                },
                            ),
                            _ => None,
                        },
                        _ => None,
                    }
                }
            },
        }
    }
}

/// Parse a whole document as the normalised shape.
pub fn parse_property(v: &Vec<char>) -> (r: Option<Property>)
    ensures
        match r {
            Some(p) => spec_parse_property(v@) == Some(p@),
            None => spec_parse_property(v@) is None,
        },
{
    let i0 = skip_ws(v, 0);
    if !(i0 < v.len() && v[i0] == '{') {
        return None;
    }
    let acc0 = AccProperty {
        id: None,
        property_type: None,
        description: None,
        short_description: None,
        area: None,
        queue_position: None,
        reserved: None,
        size_sqm: None,
    };
    match v2_members(v, i0 + 1, acc0, v.len()) {
        None => None,
        Some((acc, j)) => {
            if skip_ws(v, j) != v.len() {
                return None;
            }
            match (acc.id, acc.property_type, acc.description, acc.short_description, acc.area, acc.queue_position, acc.reserved, acc.size_sqm) {
                (
                    Some(id),
                    Some(property_type),
                    Some(description),
                    Some(short_description),
                    Some(area),
                    Some(queue_position),
                    Some(reserved),
                    Some(size_sqm),
                ) => Some(
                    Property {
                        id,
                        property_type,
                        description,
                        short_description,
                        area,
                        queue_position,
                        reserved,
                        size_sqm,
                    },
                ),
                _ => None,
            }
        },
    }
}

/// Decode one archive document, trying every known shape oldest first.
pub open spec fn spec_decode(s: Seq<char>) -> Option<ArchiveEntryV> {
    match spec_parse_product(s) {
        Some(p) => Some(ArchiveEntryV::V010(p)),
        None => match spec_parse_property(s) {
            Some(p) => Some(ArchiveEntryV::V011(p)),
            None => None,
        },
    }
}

/// The spec-level value of an optional archive entry.
pub open spec fn opt_entry_view(r: Option<ArchiveEntry>) -> Option<ArchiveEntryV> {
    match r {
        Some(e) => Some(e@),
        None => None,
    }
}

/// Decode one archive document, trying every known shape oldest first.
/// A document matching no shape yields nothing and is the caller's to
/// skip and report.
pub fn decode(content: &str) -> (r: Option<ArchiveEntry>)
    ensures
        opt_entry_view(r) == spec_decode(content@),
{
    let v = chars_vec(content);
    match parse_product(&v) {
        Some(p) => Some(ArchiveEntry::V010(p)),
        None => {
            match parse_property(&v) {
                Some(p) => Some(ArchiveEntry::V011(p)),
                None => None,
            }
        },
    }
}

/// Backward compatibility of the decoder: a document in the oldest raw
/// shape decodes to exactly that shape, whatever newer shapes exist.
pub proof fn lemma_decoder_backward_compatible(s: Seq<char>)
    requires
        spec_parse_product(s) is Some,
    ensures
        spec_decode(s) == Some(ArchiveEntryV::V010(spec_parse_product(s)->Some_0)),
{
}

/// The canonical written form of an entity: the normalised shape.
pub open spec fn spec_encode(p: PropertyV) -> Seq<char> {
    "{\"id\":"@ + spec_u32_digits(p.id) + ",\"property_type\":\""@ + spec_escape(
        spec_type_name(p.property_type),
    ) + seq!['"'] + ",\"description\":\""@ + spec_escape(p.description) + seq!['"']
        + ",\"short_description\":\""@ + spec_escape(p.short_description) + seq!['"']
        + ",\"area\":\""@ + spec_escape(p.area) + seq!['"']
        + ",\"queue_position\":{\"position\":"@ + spec_opt_u32_digits(p.queue_position.position)
        + ",\"total_in_queue\":"@ + spec_u32_digits(p.queue_position.total_in_queue)
        + "},\"reserved\":"@ + spec_bool_chars(p.reserved) + ",\"size_sqm\":\""@ + spec_escape(
        p.size_sqm,
    ) + seq!['"'] + "}"@
}

/// `null` or decimal digits.
pub open spec fn spec_opt_u32_digits(n: Option<u32>) -> Seq<char> {
    match n {
        None => "null"@,
        Some(m) => spec_u32_digits(m),
    }
}

/// `true` or `false`.
pub open spec fn spec_bool_chars(b: bool) -> Seq<char> {
    if b {
        "true"@
    } else {
        "false"@
    }
}

/// Write an entity in its canonical form.
#[verifier::rlimit(60)]
pub fn encode(p: &Property) -> (r: String)
    ensures
        r@ == spec_encode(p@),
{
    let mut out: Vec<char> = Vec::new();
    push_lit(&mut out, "{\"id\":");
    push_u32(&mut out, p.id);
    push_lit(&mut out, ",\"property_type\":\"");
    let kind_chars: Vec<char> = match &p.property_type {
        PropertyType::Apartment => chars_vec("Apartment"),
        PropertyType::CorridorRoom => chars_vec("CorridorRoom"),
        PropertyType::Other(s) => chars_vec(s.as_str()),
    };
    push_escaped(&mut out, &kind_chars);
    out.push('"');
    push_lit(&mut out, ",\"description\":\"");
    let description = chars_vec(p.description.as_str());
    push_escaped(&mut out, &description);
    out.push('"');
    push_lit(&mut out, ",\"short_description\":\"");
    let short_description = chars_vec(p.short_description.as_str());
    push_escaped(&mut out, &short_description);
    out.push('"');
    push_lit(&mut out, ",\"area\":\"");
    let area = chars_vec(p.area.as_str());
    push_escaped(&mut out, &area);
    out.push('"');
    push_lit(&mut out, ",\"queue_position\":{\"position\":");
    match p.queue_position.position {
        None => push_lit(&mut out, "null"),
        Some(m) => push_u32(&mut out, m),
    }
    push_lit(&mut out, ",\"total_in_queue\":");
    push_u32(&mut out, p.queue_position.total_in_queue);
    push_lit(&mut out, "},\"reserved\":");
    if p.reserved {
        push_lit(&mut out, "true");
    } else {
        push_lit(&mut out, "false");
    }
    push_lit(&mut out, ",\"size_sqm\":\"");
    let size_sqm = chars_vec(p.size_sqm.as_str());
    push_escaped(&mut out, &size_sqm);
    out.push('"');
    push_lit(&mut out, "}");
    proof {
        assert(out@ =~= spec_encode(p@));
    }
    string_from_chars(&out)
}

} // verus!
