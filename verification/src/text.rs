//! Characters and strings: what is taken on trust from the standard library,
//! and the arithmetic of UTF-8 lengths that byte offsets rest on.

use vstd::prelude::*;
use vstd::utf8::*;

verus! {

/// Whether `c` carries the Unicode `White_Space` property, which is what
/// `char::is_whitespace` tests. The property belongs to 25 characters: the
/// controls U+0009 to U+000D, the space, U+0085, the no-break space, U+1680,
/// the spaces U+2000 to U+200A, the line and paragraph separators U+2028
/// and U+2029, U+202F, U+205F and U+3000.
pub open spec fn char_is_whitespace(c: char) -> bool {
    let v = c as u32;
    ||| 0x0009 <= v <= 0x000D
    ||| v == 0x0020
    ||| v == 0x0085
    ||| v == 0x00A0
    ||| v == 0x1680
    ||| 0x2000 <= v <= 0x200A
    ||| v == 0x2028
    ||| v == 0x2029
    ||| v == 0x202F
    ||| v == 0x205F
    ||| v == 0x3000
}

/// Whether `c` falls in one of the Unicode general categories for numbers
/// (`Nd`, `Nl`, `No`), as `char::is_numeric` answers it.
pub uninterp spec fn char_is_numeric(c: char) -> bool;

/// Trusted: `char::is_whitespace` answers whether the character carries the
/// Unicode `White_Space` property, and depends on nothing else.
pub assume_specification[ char::is_whitespace ](c: char) -> (r: bool)
    ensures
        r == char_is_whitespace(c),
;

/// Trusted: `char::is_numeric` is a function of the character alone. The set
/// it accepts, the general categories `Nd`, `Nl` and `No` of the Unicode
/// character database, runs to hundreds of ranges, so it is named here
/// rather than spelled out.
pub assume_specification[ char::is_numeric ](c: char) -> (r: bool)
    ensures
        r == char_is_numeric(c),
;

/// Trusted: `String::push` appends the given character to the end of the
/// string and changes nothing else.
pub assume_specification[ String::push ](s: &mut String, ch: char)
    ensures
        final(s)@ == old(s)@.push(ch),
;

/// Number of bytes that `s` occupies when encoded as UTF-8.
#[verifier::opaque]
pub open spec fn utf8_len(s: Seq<char>) -> nat {
    encode_utf8(s).len()
}

/// Number of bytes that the single character `c` occupies in UTF-8.
#[verifier::opaque]
pub open spec fn utf8_width(c: char) -> nat {
    encode_scalar(c as u32).len()
}

/// Every character takes between one and four bytes, and a character of
/// the ASCII range exactly one.
pub proof fn lemma_utf8_width_bounds(c: char)
    ensures
        1 <= utf8_width(c) <= 4,
        (c as u32) < 0x80 ==> utf8_width(c) == 1,
{
    reveal(utf8_width);
}

/// The empty text takes no bytes.
pub proof fn lemma_utf8_len_empty()
    ensures
        utf8_len(Seq::<char>::empty()) == 0,
{
    reveal(utf8_len);
}

/// A one-character text takes exactly the width of its character.
pub proof fn lemma_utf8_len_single(c: char)
    ensures
        utf8_len(seq![c]) == utf8_width(c),
{
    reveal(utf8_len);
    reveal(utf8_width);
    let s = seq![c];
    assert(s.drop_first() =~= Seq::<char>::empty());
    assert(encode_utf8(s.drop_first()) =~= Seq::<u8>::empty());
    assert(encode_utf8(s) =~= encode_scalar(c as u32) + encode_utf8(s.drop_first()));
}

/// Lengths add up under concatenation.
pub proof fn lemma_utf8_len_concat(a: Seq<char>, b: Seq<char>)
    ensures
        utf8_len(a + b) == utf8_len(a) + utf8_len(b),
    decreases a.len(),
{
    reveal(utf8_len);
    if a.len() == 0 {
        assert(a + b =~= b);
    } else {
        assert((a + b).drop_first() =~= a.drop_first() + b);
        lemma_utf8_len_concat(a.drop_first(), b);
    }
}

/// Appending one character adds its width.
pub proof fn lemma_utf8_len_push(s: Seq<char>, c: char)
    ensures
        utf8_len(s.push(c)) == utf8_len(s) + utf8_width(c),
{
    assert(s.push(c) =~= s + seq![c]);
    lemma_utf8_len_concat(s, seq![c]);
    lemma_utf8_len_single(c);
}

/// A text takes at least one byte for each of its characters.
pub proof fn lemma_utf8_len_at_least_chars(s: Seq<char>)
    ensures
        s.len() <= utf8_len(s),
    decreases s.len(),
{
    if s.len() == 0 {
        lemma_utf8_len_empty();
    } else {
        lemma_utf8_len_at_least_chars(s.drop_last());
        lemma_utf8_len_push(s.drop_last(), s.last());
        lemma_utf8_width_bounds(s.last());
        assert(s =~= s.drop_last().push(s.last()));
    }
}

/// Splitting a prefix in two splits its bytes in two; so a prefix never
/// takes more bytes than a longer one, nor than the whole text.
pub proof fn lemma_utf8_len_prefix(s: Seq<char>, i: int, j: int)
    requires
        0 <= i <= j <= s.len(),
    ensures
        utf8_len(s.take(i)) + utf8_len(s.subrange(i, j)) == utf8_len(s.take(j)),
        utf8_len(s.take(i)) <= utf8_len(s.take(j)) <= utf8_len(s),
{
    assert(s.take(j) =~= s.take(i) + s.subrange(i, j));
    lemma_utf8_len_concat(s.take(i), s.subrange(i, j));
    assert(s =~= s.take(j) + s.skip(j));
    lemma_utf8_len_concat(s.take(j), s.skip(j));
}

/// The encoding of a text made of two parts is the encoding of the first
/// part followed by that of the second.
pub proof fn lemma_encode_concat(a: Seq<char>, b: Seq<char>)
    ensures
        encode_utf8(a + b) == encode_utf8(a) + encode_utf8(b),
    decreases a.len(),
{
    if a.len() == 0 {
        assert(a + b =~= b);
        assert(encode_utf8(a) + encode_utf8(b) =~= encode_utf8(b));
    } else {
        assert((a + b).drop_first() =~= a.drop_first() + b);
        lemma_encode_concat(a.drop_first(), b);
        assert(encode_utf8(a + b) =~= encode_utf8(a) + encode_utf8(b));
    }
}

/// The encoding of a stretch of a text is the stretch of the encoding of
/// the text that lies between the byte offsets of its two ends.
pub proof fn lemma_encode_subrange(s: Seq<char>, i: int, j: int)
    requires
        0 <= i <= j <= s.len(),
    ensures
        utf8_len(s.take(i)) <= utf8_len(s.take(j)) <= encode_utf8(s).len(),
        encode_utf8(s.subrange(i, j)) == encode_utf8(s).subrange(
            utf8_len(s.take(i)) as int,
            utf8_len(s.take(j)) as int,
        ),
{
    reveal(utf8_len);
    let head = s.take(i);
    let body = s.subrange(i, j);
    let tail = s.skip(j);
    assert(s.take(j) =~= head + body);
    assert(s =~= s.take(j) + tail);
    lemma_encode_concat(head, body);
    lemma_encode_concat(s.take(j), tail);
    assert(encode_utf8(body) =~= encode_utf8(s).subrange(
        encode_utf8(head).len() as int,
        encode_utf8(s.take(j)).len() as int,
    ));
}

/// A text of the ASCII range takes one byte for each of its characters.
pub proof fn lemma_utf8_len_ascii(s: Seq<char>)
    requires
        is_ascii_chars(s),
    ensures
        utf8_len(s) == s.len(),
{
    reveal(utf8_len);
    is_ascii_chars_encode_utf8(s);
}

/// The width of a character, computed from its scalar value.
pub fn char_width(c: char) -> (n: usize)
    ensures
        n == utf8_width(c),
        1 <= n <= 4,
{
    proof {
        reveal(utf8_width);
    }
    let v: u32 = c as u32;
    if v < 0x80 {
        1
    } else if v < 0x800 {
        2
    } else if v < 0x10000 {
        3
    } else {
        4
    }
}

/// The number of bytes that a string occupies.
pub fn byte_len(s: &str) -> (n: usize)
    ensures
        n == utf8_len(s@),
{
    proof {
        reveal(utf8_len);
    }
    s.as_bytes().len()
}

} // verus!
