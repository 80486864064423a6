//! Character-level text utilities.
//!
//! Strings cross into verified code as `Vec<char>`, whose view is the same
//! `Seq<char>` as the view of the `String` they came from, so every contract
//! in the crate can speak the one vocabulary of character sequences. Unicode
//! case mapping is delegated to the standard library and only named here.

use vstd::prelude::*;

verus! {

/// The sequence of characters that the standard library's uppercase mapping
/// yields for one character. It depends on the character alone.
pub uninterp spec fn upper_chars(c: char) -> Seq<char>;

/// The sequence of characters that the standard library's lowercase mapping
/// yields for one character. It depends on the character alone.
pub uninterp spec fn lower_chars(c: char) -> Seq<char>;

/// Relies on str::chars: iterating a string slice yields exactly its
/// characters, in order.
#[verifier::external_body]
pub fn chars_vec(s: &str) -> (r: Vec<char>)
    ensures
        r@ == s@,
{
    s.chars().collect()
}

/// Relies on Iterator::collect for String: collecting characters builds the
/// string with exactly those characters, in order.
#[verifier::external_body]
pub fn string_from_chars(v: &Vec<char>) -> (r: String)
    ensures
        r@ == v@,
{
    v.iter().collect()
}

/// Relies on char::to_uppercase: the Unicode uppercase mapping of a
/// character, a function of the character alone.
#[verifier::external_body]
pub fn char_to_upper(c: char) -> (r: Vec<char>)
    ensures
        r@ == upper_chars(c),
{
    c.to_uppercase().collect()
}

/// Relies on char::to_lowercase: the Unicode lowercase mapping of a
/// character, a function of the character alone.
#[verifier::external_body]
pub fn char_to_lower(c: char) -> (r: Vec<char>)
    ensures
        r@ == lower_chars(c),
{
    c.to_lowercase().collect()
}

/// Relies on String::from_utf8: the bytes decode exactly when they are
/// valid UTF-8, to the character sequence they encode.
#[verifier::external_body]
pub fn utf8_to_string(b: &Vec<u8>) -> (r: Option<String>)
    ensures
        match r {
            Some(s) => vstd::utf8::valid_utf8(b@) && s@ == vstd::utf8::decode_utf8(b@),
            None => !vstd::utf8::valid_utf8(b@),
        },
{
    String::from_utf8(b.clone()).ok()
}

/// The lowercase mapping of a whole character sequence.
pub open spec fn lower_all(s: Seq<char>) -> Seq<char>
    decreases s.len(),
{
    if s.len() == 0 {
        Seq::empty()
    } else {
        lower_chars(s[0]) + lower_all(s.drop_first())
    }
}

/// What a short description is normalised to: the first character mapped to
/// uppercase, every later character mapped to lowercase.
pub open spec fn spec_transform_short_description(s: Seq<char>) -> Seq<char> {
    if s.len() == 0 {
        Seq::empty()
    } else {
        upper_chars(s[0]) + lower_all(s.drop_first())
    }
}

/// Normalise a short description: capitalize the first letter and lowercase
/// the rest.
pub fn transform_short_description(short_description: &str) -> (r: String)
    ensures
        r@ == spec_transform_short_description(short_description@),
{
    let cs = chars_vec(short_description);
    let mut out: Vec<char> = Vec::new();
    if cs.len() == 0 {
        return string_from_chars(&out);
    }
    let mut up = char_to_upper(cs[0]);
    out.append(&mut up);
    let mut i: usize = 1;
    while i < cs.len()
        invariant
            1 <= i <= cs.len(),
            cs.len() >= 1,
            cs@ == short_description@,
            out@ == upper_chars(cs@[0]) + lower_all(cs@.subrange(1, i as int)),
        decreases cs.len() - i,
    {
        let mut lo = char_to_lower(cs[i]);
        out.append(&mut lo);
        proof {
            assert(cs@.subrange(1, i + 1 as int).drop_last() == cs@.subrange(1, i as int));
            lemma_lower_all_push(cs@.subrange(1, i + 1 as int));
        }
        i = i + 1;
    }
    proof {
        assert(cs@.subrange(1, cs@.len() as int) == cs@.drop_first());
    }
    string_from_chars(&out)
}

/// Appending one character to a sequence appends its lowercase mapping to
/// the lowercase of the whole.
proof fn lemma_lower_all_push(s: Seq<char>)
    requires
        s.len() >= 1,
    ensures
        lower_all(s) == lower_all(s.drop_last()) + lower_chars(s.last()),
    decreases s.len(),
{
    if s.len() == 1 {
        assert(s.drop_first().len() == 0);
        assert(lower_all(s.drop_first()) == Seq::<char>::empty());
        assert(s.drop_last().len() == 0);
        assert(lower_all(s.drop_last()) == Seq::<char>::empty());
        assert(lower_all(s) == lower_chars(s[0]) + Seq::<char>::empty());
        assert(s.last() == s[0]);
        assert(lower_all(s) =~= lower_all(s.drop_last()) + lower_chars(s.last()));
    } else {
        lemma_lower_all_push(s.drop_first());
        assert(s.drop_first().drop_last() == s.drop_last().drop_first());
        assert(s.drop_first().last() == s.last());
        assert(s.drop_last().len() >= 1);
        assert(lower_all(s.drop_last()) == lower_chars(s.drop_last()[0]) + lower_all(
            s.drop_last().drop_first(),
        ));
        assert(s.drop_last()[0] == s[0]);
        assert(lower_all(s) == lower_chars(s[0]) + lower_all(s.drop_first()));
        assert(lower_all(s) =~= lower_all(s.drop_last()) + lower_chars(s.last()));
    }
}

} // verus!
