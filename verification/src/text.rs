//! Small searches in text, by character.

use vstd::prelude::*;
use vstd::string::StrSliceExecFns;

verus! {

/// Where the first `c` of `text` stands; the length of `text` where it
/// holds none.
pub open spec fn position_of(text: Seq<char>, c: char) -> int
    decreases text.len(),
{
    if text.len() == 0 || text[0] == c {
        0
    } else {
        1 + position_of(text.drop_first(), c)
    }
}

/// The character is white space as Unicode defines it.
pub open spec fn is_white_space(c: char) -> bool {
    let u = c as u32;
    ||| 0x09 <= u <= 0x0d
    ||| u == 0x20
    ||| u == 0x85
    ||| u == 0xa0
    ||| u == 0x1680
    ||| 0x2000 <= u <= 0x200a
    ||| u == 0x2028
    ||| u == 0x2029
    ||| u == 0x202f
    ||| u == 0x205f
    ||| u == 0x3000
}

/// `char::is_whitespace`: whether the character has the Unicode property
/// White_Space.
pub assume_specification[ char::is_whitespace ](c: char) -> (r: bool)
    ensures
        r == is_white_space(c),
;

/// The number of white-space characters at the front of `text`.
pub open spec fn leading_space(text: Seq<char>) -> int
    decreases text.len(),
{
    if text.len() == 0 || !is_white_space(text[0]) {
        0
    } else {
        1 + leading_space(text.drop_first())
    }
}

/// The number of white-space characters at the end of `text`.
pub open spec fn trailing_space(text: Seq<char>) -> int
    decreases text.len(),
{
    if text.len() == 0 || !is_white_space(text.last()) {
        0
    } else {
        1 + trailing_space(text.drop_last())
    }
}

/// `text` without the white space at its front and at its end.
pub open spec fn trimmed(text: Seq<char>) -> Seq<char> {
    let rest = text.skip(leading_space(text));
    rest.take(rest.len() - trailing_space(rest))
}

/// Where the first `c` of `text` stands from `from` on, counted from the
/// start of `text`; the length of `text` where none follows.
pub fn find_char(text: &str, c: char, from: usize) -> (at: usize)
    requires
        from <= text@.len(),
    ensures
        at == from + position_of(text@.skip(from as int), c),
        from <= at <= text@.len(),
{
    let len = text.unicode_len();
    let mut at: usize = from;
    while at < len && text.get_char(at) != c
        invariant
            from <= at <= len,
            len == text@.len(),
            position_of(text@.skip(from as int), c) == (at - from) + position_of(
                text@.skip(at as int),
                c,
            ),
        decreases len - at,
    {
        assert(text@.skip(at as int)[0] == text@[at as int]);
        assert(text@.skip(at as int).drop_first() =~= text@.skip(at + 1));
        at += 1;
    }
    proof {
        if at < len {
            assert(text@.skip(at as int)[0] == text@[at as int]);
        }
    }
    at
}

/// `text` without the white space at its front and at its end.
pub fn trim(text: &str) -> (r: &str)
    ensures
        r@ == trimmed(text@),
{
    let len = text.unicode_len();
    let mut start: usize = 0;
    assert(text@.skip(0) =~= text@);
    while start < len && text.get_char(start).is_whitespace()
        invariant
            start <= len,
            len == text@.len(),
            leading_space(text@) == start + leading_space(text@.skip(start as int)),
        decreases len - start,
    {
        assert(text@.skip(start as int)[0] == text@[start as int]);
        assert(text@.skip(start as int).drop_first() =~= text@.skip(start + 1));
        start += 1;
    }
    proof {
        if start < len {
            assert(text@.skip(start as int)[0] == text@[start as int]);
        }
    }
    let ghost rest = text@.skip(start as int);
    let mut end: usize = len;
    assert(rest.take(len - start) =~= rest);
    while end > start && text.get_char(end - 1).is_whitespace()
        invariant
            start <= end <= len,
            len == text@.len(),
            rest == text@.skip(start as int),
            trailing_space(rest) == (len - end) + trailing_space(rest.take(end - start)),
        decreases end,
    {
        assert(rest.take(end - start).last() == text@[end - 1]);
        assert(rest.take(end - start).drop_last() =~= rest.take(end - start - 1));
        end -= 1;
    }
    proof {
        if end > start {
            assert(rest.take(end - start).last() == text@[end - 1]);
        }
        assert(text@.subrange(start as int, end as int) =~= rest.take(end - start));
    }
    text.substring_char(start, end)
}

} // verus!
