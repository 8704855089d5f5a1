//! Byte offsets into UTF-8 text.
//!
//! A cursor over a `&str` is a byte offset, while the text itself is modelled
//! as its sequence of characters. This module relates the two: the byte offset
//! of a character index, and the operations that read a character or cut a
//! substring at such an offset.

use vstd::prelude::*;
use vstd::string::*;
use vstd::utf8::*;

verus! {

/// The number of bytes that the UTF-8 encoding of `c` takes.
pub open spec fn width(c: char) -> int {
    encode_scalar(c as u32).len() as int
}

/// The byte offset at which the character of index `pos` begins in the UTF-8
/// encoding of `s` (the length of the encoding, for `pos == s.len()`).
pub open spec fn byte_offset(s: Seq<char>, pos: int) -> int {
    encode_utf8(s.take(pos)).len() as int
}

/// Every character takes between one and four bytes.
pub proof fn lemma_width_bounds(c: char)
    ensures
        1 <= width(c) <= 4,
{
}

/// Encoding distributes over concatenation.
pub proof fn lemma_encode_concat(a: Seq<char>, b: Seq<char>)
    ensures
        encode_utf8(a + b) =~= encode_utf8(a) + encode_utf8(b),
    decreases a.len(),
{
    if a.len() == 0 {
        assert(a + b =~= b);
    } else {
        assert((a + b).drop_first() =~= a.drop_first() + b);
        lemma_encode_concat(a.drop_first(), b);
    }
}

/// Two texts with the same encoding are the same text.
pub proof fn lemma_encode_injective(a: Seq<char>, b: Seq<char>)
    requires
        encode_utf8(a) == encode_utf8(b),
    ensures
        a == b,
{
    encode_utf8_decode_utf8(a);
    encode_utf8_decode_utf8(b);
}

/// The encoding of a text splits at the byte offset of any character index.
pub proof fn lemma_encode_split(s: Seq<char>, pos: int)
    requires
        0 <= pos <= s.len(),
    ensures
        0 <= byte_offset(s, pos) <= encode_utf8(s).len(),
        encode_utf8(s).subrange(0, byte_offset(s, pos)) =~= encode_utf8(s.take(pos)),
        encode_utf8(s).subrange(byte_offset(s, pos), encode_utf8(s).len() as int) =~= encode_utf8(
            s.skip(pos),
        ),
{
    assert(s =~= s.take(pos) + s.skip(pos));
    lemma_encode_concat(s.take(pos), s.skip(pos));
}

/// Byte offsets start at zero, end at the length of the encoding, and grow by
/// the width of each character passed.
pub proof fn lemma_byte_offset_step(s: Seq<char>, pos: int)
    requires
        0 <= pos < s.len(),
    ensures
        byte_offset(s, pos + 1) == byte_offset(s, pos) + width(s[pos]),
        byte_offset(s, pos) < byte_offset(s, pos + 1) <= encode_utf8(s).len(),
{
    let one = seq![s[pos]];
    assert(s.take(pos + 1) =~= s.take(pos) + one);
    lemma_encode_concat(s.take(pos), one);
    assert(one.drop_first() =~= Seq::<char>::empty());
    assert(encode_utf8(one) =~= encode_scalar(s[pos] as u32)) by {
        reveal_with_fuel(encode_utf8, 2);
    }
    lemma_width_bounds(s[pos]);
    lemma_encode_split(s, pos + 1);
}

/// The byte offset of the first character is zero, and that of the end of the
/// text is the length of its encoding.
pub proof fn lemma_byte_offset_ends(s: Seq<char>)
    ensures
        byte_offset(s, 0) == 0,
        byte_offset(s, s.len() as int) == encode_utf8(s).len(),
{
    assert(s.take(0) =~= Seq::<char>::empty());
    assert(s.take(s.len() as int) =~= s);
}

/// Byte offsets are monotone in the character index.
pub proof fn lemma_byte_offset_monotone(s: Seq<char>, p: int, q: int)
    requires
        0 <= p <= q <= s.len(),
    ensures
        byte_offset(s, p) <= byte_offset(s, q),
        p < q ==> byte_offset(s, p) < byte_offset(s, q),
        q - p <= byte_offset(s, q) - byte_offset(s, p),
    decreases q - p,
{
    if p < q {
        lemma_byte_offset_monotone(s, p, q - 1);
        lemma_byte_offset_step(s, q - 1);
    }
}

/// The byte offset of a character index is a character boundary of the
/// encoding.
pub proof fn lemma_byte_offset_is_boundary(s: Seq<char>, pos: int)
    requires
        0 <= pos <= s.len(),
    ensures
        is_char_boundary(encode_utf8(s), byte_offset(s, pos)),
    decreases pos,
{
    let bytes = encode_utf8(s);
    encode_utf8_valid_utf8(s);
    if pos == 0 {
        lemma_byte_offset_ends(s);
    } else {
        let tail = s.drop_first();
        let head = seq![s[0]];
        encode_utf8_first_scalar(s);
        lemma_width_bounds(s[0]);
        assert(s.take(pos) =~= head + tail.take(pos - 1));
        lemma_encode_concat(head, tail.take(pos - 1));
        assert(head.drop_first() =~= Seq::<char>::empty());
        assert(encode_utf8(head) =~= encode_scalar(s[0] as u32)) by {
            reveal_with_fuel(encode_utf8, 2);
        }
        assert(pop_first_scalar(bytes) =~= encode_utf8(tail));
        lemma_encode_split(tail, pos - 1);
        lemma_byte_offset_is_boundary(tail, pos - 1);
        assert(byte_offset(s, pos) == width(s[0]) + byte_offset(tail, pos - 1));
    }
}

/// The number of bytes that the UTF-8 encoding of `c` takes.
pub fn utf8_width(c: char) -> (n: usize)
    ensures
        n == width(c),
        1 <= n <= 4,
{
    if c <= '\u{7f}' {
        1
    } else if c <= '\u{7ff}' {
        2
    } else if c <= '\u{ffff}' {
        3
    } else {
        4
    }
}

/// The character that begins at byte `offset` of `source`, if any.
pub(crate) fn char_at(source: &str, offset: usize, Ghost(pos): Ghost<int>) -> (r: Option<char>)
    requires
        0 <= pos <= source@.len(),
        offset == byte_offset(source@, pos),
    ensures
        r == (if pos < source@.len() {
            Some(source@[pos])
        } else {
            None
        }),
{
    proof {
        lemma_byte_offset_is_boundary(source@, pos);
        lemma_encode_split(source@, pos);
    }
    let (_, rest) = source.split_at(offset);
    proof {
        lemma_encode_injective(rest@, source@.skip(pos));
    }
    let mut chars = rest.chars();
    chars.next()
}

/// The character after the one that begins at byte `offset` of `source`, if
/// any.
pub(crate) fn char_after(source: &str, offset: usize, Ghost(pos): Ghost<int>) -> (r: Option<char>)
    requires
        0 <= pos <= source@.len(),
        offset == byte_offset(source@, pos),
    ensures
        r == (if pos + 1 < source@.len() {
            Some(source@[pos + 1])
        } else {
            None
        }),
{
    proof {
        lemma_byte_offset_is_boundary(source@, pos);
        lemma_encode_split(source@, pos);
    }
    let (_, rest) = source.split_at(offset);
    proof {
        lemma_encode_injective(rest@, source@.skip(pos));
    }
    let mut chars = rest.chars();
    let _first = chars.next();
    chars.next()
}

/// The part of `source` between the byte offsets `from` and `to`, as an owned
/// string.
pub(crate) fn substring(
    source: &str,
    from: usize,
    to: usize,
    Ghost(p): Ghost<int>,
    Ghost(q): Ghost<int>,
) -> (r: String)
    requires
        0 <= p <= q <= source@.len(),
        from == byte_offset(source@, p),
        to == byte_offset(source@, q),
    ensures
        r@ == source@.subrange(p, q),
{
    proof {
        lemma_byte_offset_is_boundary(source@, q);
        lemma_encode_split(source@, q);
    }
    let (head, _) = source.split_at(to);
    proof {
        lemma_encode_injective(head@, source@.take(q));
        assert(source@.take(q).take(p) =~= source@.take(p));
        lemma_byte_offset_is_boundary(head@, p);
        lemma_encode_split(head@, p);
    }
    let (_, part) = head.split_at(from);
    proof {
        lemma_encode_injective(part@, head@.skip(p));
        assert(head@.skip(p) =~= source@.subrange(p, q));
    }
    part.to_owned()
}

/// Tells whether two strings hold the same characters.
pub fn str_eq(a: &str, b: &str) -> (r: bool)
    ensures
        r == (a@ == b@),
{
    let x = a.as_bytes();
    let y = b.as_bytes();
    if x.len() != y.len() {
        return false;
    }
    let mut i: usize = 0;
    while i < x.len()
        invariant
            0 <= i <= x.len(),
            x.len() == y.len(),
            x@ == encode_utf8(a@),
            y@ == encode_utf8(b@),
            forall|k: int| 0 <= k < i ==> x@[k] == y@[k],
        decreases x.len() - i,
    {
        if x[i] != y[i] {
            return false;
        }
        i += 1;
    }
    proof {
        assert(x@ =~= y@);
        lemma_encode_injective(a@, b@);
    }
    true
}

/// The character that writes the decimal digit `d`.
pub open spec fn digit_char(d: nat) -> char {
    ('0' as nat + d) as char
}

/// The decimal notation of `n`, without leading zeros.
pub open spec fn decimal_text(n: nat) -> Seq<char>
    decreases n,
{
    if n < 10 {
        seq![digit_char(n)]
    } else {
        decimal_text(n / 10).push(digit_char(n % 10))
    }
}

/// The one-character text that writes the decimal digit `d`.
fn digit_str(d: usize) -> (text: &'static str)
    requires
        d < 10,
    ensures
        text@ == seq![digit_char(d as nat)],
{
    proof {
        reveal_strlit("0");
        reveal_strlit("1");
        reveal_strlit("2");
        reveal_strlit("3");
        reveal_strlit("4");
        reveal_strlit("5");
        reveal_strlit("6");
        reveal_strlit("7");
        reveal_strlit("8");
        reveal_strlit("9");
    }
    let text = if d == 0 {
        "0"
    } else if d == 1 {
        "1"
    } else if d == 2 {
        "2"
    } else if d == 3 {
        "3"
    } else if d == 4 {
        "4"
    } else if d == 5 {
        "5"
    } else if d == 6 {
        "6"
    } else if d == 7 {
        "7"
    } else if d == 8 {
        "8"
    } else {
        "9"
    };
    assert(text@ =~= seq![digit_char(d as nat)]);
    text
}

/// Writes `n` in decimal notation.
pub fn decimal_string(n: usize) -> (text: String)
    ensures
        text@ == decimal_text(n as nat),
    decreases n,
{
    if n < 10 {
        String::from_str(digit_str(n))
    } else {
        let mut text = decimal_string(n / 10);
        text.append(digit_str(n % 10));
        assert(text@ =~= decimal_text(n as nat));
        text
    }
}

} // verus!
