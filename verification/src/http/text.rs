//! Cutting and comparing borrowed text.
//!
//! The specifications speak of a text as a sequence of characters. The
//! executable functions scan the UTF-8 bytes of a `&str` for ASCII
//! delimiters and hand out sub-slices of it, so nothing is copied.
use vstd::prelude::*;
use vstd::string::StringSliceAdditionalSpecFns;
use vstd::utf8::*;

verus! {

/// True when no character of `s` is one of `delimiters`.
pub open spec fn is_free_of(s: Seq<char>, delimiters: Set<char>) -> bool {
    forall|i: int| 0 <= i < s.len() ==> !delimiters.contains(#[trigger] s[i])
}

/// True when `i` is the position of the first character of `s` that is one
/// of `delimiters`.
pub open spec fn is_first_delimiter(s: Seq<char>, i: int, delimiters: Set<char>) -> bool {
    &&& 0 <= i < s.len()
    &&& delimiters.contains(s[i])
    &&& is_free_of(s.subrange(0, i), delimiters)
}

/// `s` cut at its first character that is one of `delimiters`: what stands
/// before that character and what stands after it. `None` when `s` holds
/// no delimiter.
pub open spec fn split_first(s: Seq<char>, delimiters: Set<char>) -> Option<
    (Seq<char>, Seq<char>),
> {
    if exists|i: int| is_first_delimiter(s, i, delimiters) {
        let i = choose|i: int| is_first_delimiter(s, i, delimiters);
        Some((s.subrange(0, i), s.subrange(i + 1, s.len() as int)))
    } else {
        None
    }
}

/// `s` cut at its first occurrence of `c`.
pub open spec fn split_once(s: Seq<char>, c: char) -> Option<(Seq<char>, Seq<char>)> {
    split_first(s, set![c])
}

/// The pieces of `s` between occurrences of `c`, in order. A text without
/// `c` is its own single piece; two adjacent `c` enclose an empty piece.
pub open spec fn split_all(s: Seq<char>, c: char) -> Seq<Seq<char>>
    decreases s.len(),
{
    match split_once(s, c) {
        Some((head, tail)) => seq![head] + split_all(tail, c),
        None => seq![s],
    }
}

/// The pieces put together again, with `c` between each two of them.
pub open spec fn join(pieces: Seq<Seq<char>>, c: char) -> Seq<char>
    decreases pieces.len(),
{
    if pieces.len() == 0 {
        Seq::empty()
    } else if pieces.len() == 1 {
        pieces[0]
    } else {
        pieces[0] + seq![c] + join(pieces.drop_first(), c)
    }
}

/// A text is cut at its first delimiter and nowhere else.
pub proof fn lemma_split_first_at(s: Seq<char>, i: int, delimiters: Set<char>)
    requires
        is_first_delimiter(s, i, delimiters),
    ensures
        split_first(s, delimiters) == Some((s.subrange(0, i), s.subrange(i + 1, s.len() as int))),
{
    let k = choose|k: int| is_first_delimiter(s, k, delimiters);
    if k < i {
        assert(s.subrange(0, i)[k] == s[k]);
    }
    if i < k {
        assert(s.subrange(0, k)[i] == s[i]);
    }
}

/// A text is not cut exactly when it holds no delimiter.
pub proof fn lemma_split_first_none(s: Seq<char>, delimiters: Set<char>)
    ensures
        split_first(s, delimiters) is None <==> is_free_of(s, delimiters),
{
    if is_free_of(s, delimiters) {
        assert forall|i: int| !is_first_delimiter(s, i, delimiters) by {}
    } else {
        let k = choose|k: int| 0 <= k < s.len() && delimiters.contains(s[k]);
        lemma_first_delimiter_exists(s, k, delimiters);
    }
}

/// A text that holds a delimiter at some position has a first delimiter.
proof fn lemma_first_delimiter_exists(s: Seq<char>, k: int, delimiters: Set<char>)
    requires
        0 <= k < s.len(),
        delimiters.contains(s[k]),
    ensures
        exists|i: int| is_first_delimiter(s, i, delimiters),
    decreases k,
{
    let before = s.subrange(0, k);
    if is_free_of(before, delimiters) {
        assert(is_first_delimiter(s, k, delimiters));
    } else {
        let j = choose|j: int| 0 <= j < before.len() && delimiters.contains(before[j]);
        assert(before[j] == s[j]);
        lemma_first_delimiter_exists(s, j, delimiters);
    }
}

/// A head without delimiter, followed by a delimiter and a tail, is cut
/// right after the head.
pub proof fn lemma_split_first_of_parts(
    head: Seq<char>,
    delimiter: char,
    tail: Seq<char>,
    delimiters: Set<char>,
)
    requires
        delimiters.contains(delimiter),
        is_free_of(head, delimiters),
    ensures
        split_first(head + seq![delimiter] + tail, delimiters) == Some((head, tail)),
{
    let s = head + seq![delimiter] + tail;
    let i = head.len() as int;
    assert(s[i] == delimiter);
    assert(s.subrange(0, i) =~= head);
    assert(s.subrange(i + 1, s.len() as int) =~= tail);
    lemma_split_first_at(s, i, delimiters);
}

/// The two parts of a cut text, with the delimiter between them, are the
/// text; the part before the cut holds no delimiter.
pub proof fn lemma_split_first_parts(s: Seq<char>, delimiters: Set<char>)
    requires
        split_first(s, delimiters) is Some,
    ensures
        ({
            let (head, tail) = split_first(s, delimiters)->0;
            let delimiter = s[head.len() as int];
            &&& head.len() + 1 + tail.len() == s.len()
            &&& delimiters.contains(delimiter)
            &&& is_free_of(head, delimiters)
            &&& s == head + seq![delimiter] + tail
        }),
{
    let i = choose|i: int| is_first_delimiter(s, i, delimiters);
    let (head, tail) = split_first(s, delimiters)->0;
    assert(s =~= head + seq![s[i]] + tail);
}

/// Cutting a text at every `c` and joining the pieces with `c` gives the
/// text back; there is at least one piece, and no piece holds `c`.
pub proof fn lemma_join_split_all(s: Seq<char>, c: char)
    ensures
        join(split_all(s, c), c) == s,
        split_all(s, c).len() >= 1,
        forall|i: int|
            0 <= i < split_all(s, c).len() ==> is_free_of(#[trigger] split_all(s, c)[i], set![c]),
    decreases s.len(),
{
    let pieces = split_all(s, c);
    match split_once(s, c) {
        Some((head, tail)) => {
            lemma_split_first_parts(s, set![c]);
            lemma_join_split_all(tail, c);
            let rest = split_all(tail, c);
            assert(pieces.drop_first() =~= rest);
            assert forall|i: int| 0 <= i < pieces.len() implies is_free_of(
                #[trigger] pieces[i],
                set![c],
            ) by {
                if i > 0 {
                    assert(pieces[i] == rest[i - 1]);
                }
            }
        },
        None => {
            lemma_split_first_none(s, set![c]);
        },
    }
}

/// Joining pieces that hold no `c` with `c` and cutting the result at
/// every `c` gives the pieces back.
pub proof fn lemma_split_all_join(pieces: Seq<Seq<char>>, c: char)
    requires
        pieces.len() >= 1,
        forall|i: int| 0 <= i < pieces.len() ==> is_free_of(#[trigger] pieces[i], set![c]),
    ensures
        split_all(join(pieces, c), c) == pieces,
    decreases pieces.len(),
{
    if pieces.len() == 1 {
        lemma_split_first_none(pieces[0], set![c]);
        assert(pieces =~= seq![pieces[0]]);
    } else {
        let rest = pieces.drop_first();
        assert forall|i: int| 0 <= i < rest.len() implies is_free_of(#[trigger] rest[i], set![c]) by {
            assert(rest[i] == pieces[i + 1]);
        }
        lemma_split_all_join(rest, c);
        lemma_split_first_of_parts(pieces[0], c, join(rest, c), set![c]);
        assert(pieces =~= seq![pieces[0]] + rest);
    }
}

/// An ASCII character of a text stands in the text's UTF-8 encoding as one
/// byte of the same value, right after the encoding of what precedes it.
proof fn lemma_encode_ascii_at(chars: Seq<char>, k: int)
    requires
        0 <= k < chars.len(),
        chars[k] as u32 <= 0x7f,
    ensures
        encode_utf8(chars.take(k)).len() < encode_utf8(chars).len(),
        encode_utf8(chars)[encode_utf8(chars.take(k)).len() as int] == chars[k] as u32,
    decreases k,
{
    let first = encode_scalar(chars[0] as u32);
    let rest = chars.drop_first();
    assert(encode_utf8(chars) == first + encode_utf8(rest));
    if k == 0 {
        let c = chars[0] as u32;
        assert((c & 0x7f) as u8 == c) by (bit_vector)
            requires
                c <= 0x7f,
        ;
        assert(chars.take(0) =~= Seq::<char>::empty());
    } else {
        lemma_encode_ascii_at(rest, k - 1);
        let before = chars.take(k);
        assert(before.drop_first() =~= rest.take(k - 1));
        assert(before[0] == chars[0]);
        assert(encode_utf8(before) == first + encode_utf8(before.drop_first()));
    }
}

/// A text whose UTF-8 encoding holds neither of two ASCII bytes holds
/// neither of the two characters.
proof fn lemma_no_byte_no_char(chars: Seq<char>, a: u8, b: u8)
    requires
        a <= 0x7f,
        b <= 0x7f,
        forall|j: int|
            0 <= j < encode_utf8(chars).len() ==> encode_utf8(chars)[j] != a && encode_utf8(
                chars,
            )[j] != b,
    ensures
        is_free_of(chars, set![a as char, b as char]),
{
    assert forall|k: int| 0 <= k < chars.len() implies !set![a as char, b as char].contains(
        #[trigger] chars[k],
    ) by {
        if chars[k] == a as char || chars[k] == b as char {
            lemma_encode_ascii_at(chars, k);
        }
    }
}

/// Two texts with the same UTF-8 encoding are the same text.
proof fn lemma_encoding_injective(x: Seq<char>, y: Seq<char>)
    requires
        encode_utf8(x) == encode_utf8(y),
    ensures
        x == y,
{
    encode_utf8_decode_utf8(x);
    encode_utf8_decode_utf8(y);
}

/// Whether two texts are equal, character by character.
pub(crate) fn str_eq(x: &str, y: &str) -> (equal: bool)
    ensures
        equal == (x@ == y@),
{
    let xs = x.as_bytes();
    let ys = y.as_bytes();
    if xs.len() != ys.len() {
        return false;
    }
    let mut i: usize = 0;
    while i < xs.len()
        invariant
            i <= xs@.len(),
            xs@.len() == ys@.len(),
            xs@ == encode_utf8(x@),
            ys@ == encode_utf8(y@),
            forall|j: int| 0 <= j < i ==> xs@[j] == ys@[j],
        decreases xs@.len() - i,
    {
        if xs[i] != ys[i] {
            return false;
        }
        i += 1;
    }
    proof {
        assert(xs@ =~= ys@);
        lemma_encoding_injective(x@, y@);
    }
    true
}

/// The position of the first byte that is `a` or `b`, or the length of
/// `bytes` when there is none.
fn find_byte(bytes: &[u8], a: u8, b: u8) -> (i: usize)
    ensures
        i <= bytes@.len(),
        forall|j: int| 0 <= j < i ==> bytes@[j] != a && bytes@[j] != b,
        i < bytes@.len() ==> bytes@[i as int] == a || bytes@[i as int] == b,
{
    let mut i: usize = 0;
    while i < bytes.len()
        invariant
            i <= bytes@.len(),
            forall|j: int| 0 <= j < i ==> bytes@[j] != a && bytes@[j] != b,
        decreases bytes@.len() - i,
    {
        if bytes[i] == a || bytes[i] == b {
            return i;
        }
        i += 1;
    }
    i
}

/// Cuts `s` at its first character that is one of the ASCII characters `a`
/// and `b`. Both parts borrow from `s`; the delimiter is in neither.
pub(crate) fn cut_at_first<'a>(s: &'a str, a: char, b: char) -> (parts: Option<(&'a str, &'a str)>)
    requires
        a as u32 <= 0x7f,
        b as u32 <= 0x7f,
    ensures
        parts is Some <==> split_first(s@, set![a, b]) is Some,
        parts matches Some((head, tail)) ==> split_first(s@, set![a, b]) == Some((head@, tail@)),
{
    broadcast use {encode_utf8_valid_utf8, encode_utf8_decode_utf8};

    let x: u8 = a as u8;
    let y: u8 = b as u8;
    assert(x as char == a && y as char == b);
    let bytes = s.as_bytes();
    let i: usize = find_byte(bytes, x, y);
    if i == bytes.len() {
        proof {
            lemma_no_byte_no_char(s@, x, y);
            lemma_split_first_none(s@, set![a, b]);
        }
        return None;
    }
    proof {
        is_char_boundary_iff_not_is_continuation_byte(bytes@, i as int);
    }
    let (head, from_delimiter) = s.split_at(i);
    proof {
        valid_utf8_split(bytes@, i as int);
        decode_utf8_split(bytes@, i as int);
        reveal_with_fuel(is_char_boundary, 2);
    }
    let (delimiter, tail) = from_delimiter.split_at(1);
    proof {
        let rest = from_delimiter.spec_bytes();
        let d = rest[0];
        assert(d == bytes@[i as int]);
        valid_utf8_split(rest, 1);
        decode_utf8_split(rest, 1);
        assert(s@ == head@ + from_delimiter@);
        assert(from_delimiter@ == delimiter@ + tail@);
        reveal_with_fuel(decode_utf8, 2);
        assert((d & 0x7f) as u32 == d) by (bit_vector)
            requires
                d <= 0x7f,
        ;
        assert(delimiter@ =~= seq![d as char]);
        lemma_no_byte_no_char(head@, x, y);
        assert(s@ =~= head@ + seq![d as char] + tail@);
        lemma_split_first_of_parts(head@, d as char, tail@, set![a, b]);
    }
    Some((head, tail))
}

/// Cuts `s` at its first occurrence of the ASCII character `c`.
pub(crate) fn cut_at<'a>(s: &'a str, c: char) -> (parts: Option<(&'a str, &'a str)>)
    requires
        c as u32 <= 0x7f,
    ensures
        parts is Some <==> split_once(s@, c) is Some,
        parts matches Some((head, tail)) ==> split_once(s@, c) == Some((head@, tail@)),
{
    assert(set![c, c] =~= set![c]);
    cut_at_first(s, c, c)
}

} // verus!
