//! How text and its UTF-8 bytes correspond where domain names are taken
//! apart: joining texts joins their bytes, and the label separator is the
//! one character whose encoding holds the separator byte.

use vstd::prelude::*;
use vstd::utf8::{encode_scalar, encode_utf8, encode_utf8_decode_utf8};

verus! {

/// The character that separates the labels of a domain name.
pub const LABEL_SEPARATOR_CHAR: char = '.';

/// The byte that separates the labels of a domain name.
pub const LABEL_SEPARATOR: u8 = 0x2e;

/// The separator encodes as the separator byte alone, and no byte of any
/// other character's encoding is the separator byte.
pub proof fn lemma_separator_encoding(c: char)
    ensures
        1 <= encode_scalar(c as u32).len() <= 4,
        c == LABEL_SEPARATOR_CHAR ==> encode_scalar(c as u32) == seq![LABEL_SEPARATOR],
        c != LABEL_SEPARATOR_CHAR ==> !encode_scalar(c as u32).contains(LABEL_SEPARATOR),
{
    let s = c as u32;
    let bytes = encode_scalar(s);
    assert(s <= 0x7f ==> ((s & 0x7f) as u8 == 0x2e <==> s == 0x2e)) by (bit_vector);
    assert((0xC0 | ((s >> 6) & 0x1F) as u8) != 0x2e) by (bit_vector);
    assert((0xE0 | ((s >> 12) & 0x0F) as u8) != 0x2e) by (bit_vector);
    assert((0xF0 | ((s >> 18) & 0x7) as u8) != 0x2e) by (bit_vector);
    assert((0x80 | (s & 0x3F) as u8) != 0x2e) by (bit_vector);
    assert((0x80 | ((s >> 6) & 0x3F) as u8) != 0x2e) by (bit_vector);
    assert((0x80 | ((s >> 12) & 0x3F) as u8) != 0x2e) by (bit_vector);
    if c == LABEL_SEPARATOR_CHAR {
        assert(s == 0x2e);
        assert(bytes =~= seq![LABEL_SEPARATOR]);
    } else {
        assert(s != 0x2e);
        assert forall|k: int| 0 <= k < bytes.len() implies bytes[k] != LABEL_SEPARATOR by {}
    }
}

/// The separator on its own encodes as the separator byte on its own.
pub proof fn lemma_encode_separator()
    ensures
        encode_utf8(seq![LABEL_SEPARATOR_CHAR]) == seq![LABEL_SEPARATOR],
{
    let dot = seq![LABEL_SEPARATOR_CHAR];
    lemma_separator_encoding(LABEL_SEPARATOR_CHAR);
    assert(dot.drop_first() =~= Seq::<char>::empty());
    assert(encode_utf8(dot.drop_first()) =~= Seq::<u8>::empty());
    assert(encode_utf8(dot) =~= seq![LABEL_SEPARATOR]);
}

/// The bytes of two texts joined are the bytes of the first followed by
/// the bytes of the second.
pub proof fn lemma_encode_concat(a: Seq<char>, b: Seq<char>)
    ensures
        encode_utf8(a + b) == encode_utf8(a) + encode_utf8(b),
    decreases a.len(),
{
    if a.len() == 0 {
        assert(a + b =~= b);
        assert(encode_utf8(a) + encode_utf8(b) =~= encode_utf8(b));
    } else {
        assert((a + b).drop_first() =~= a.drop_first() + b);
        lemma_encode_concat(a.drop_first(), b);
        assert(encode_utf8(a + b) =~= encode_utf8(a) + encode_utf8(b));
    }
}

/// A text without the separator has no separator byte.
pub proof fn lemma_encode_without_separator(a: Seq<char>)
    requires
        !a.contains(LABEL_SEPARATOR_CHAR),
    ensures
        !encode_utf8(a).contains(LABEL_SEPARATOR),
    decreases a.len(),
{
    if a.len() > 0 {
        let head = encode_scalar(a[0] as u32);
        let tail = encode_utf8(a.drop_first());
        assert(a.contains(a[0]));
        lemma_separator_encoding(a[0]);
        assert forall|c: char| a.drop_first().contains(c) implies a.contains(c) by {
            let k = choose|k: int| 0 <= k < a.drop_first().len() && a.drop_first()[k] == c;
            assert(a[k + 1] == c);
        }
        lemma_encode_without_separator(a.drop_first());
        assert forall|k: int| 0 <= k < (head + tail).len() implies (head + tail)[k]
            != LABEL_SEPARATOR by {
            if k < head.len() {
                assert(head.contains(head[k]));
            } else {
                assert(tail.contains(tail[k - head.len()]));
            }
        }
    }
}

/// A text that is not empty has bytes, and its last byte is the
/// separator byte exactly where its last character is the separator.
pub proof fn lemma_encode_last(a: Seq<char>)
    requires
        a.len() > 0,
    ensures
        encode_utf8(a).len() > 0,
        encode_utf8(a).last() == LABEL_SEPARATOR <==> a.last() == LABEL_SEPARATOR_CHAR,
{
    let front = a.drop_last();
    let last = seq![a.last()];
    assert(a =~= front + last);
    lemma_encode_concat(front, last);
    lemma_separator_encoding(a.last());
    let tail = encode_scalar(a.last() as u32);
    assert(last.drop_first() =~= Seq::<char>::empty());
    assert(encode_utf8(last.drop_first()) =~= Seq::<u8>::empty());
    assert(last[0] == a.last());
    assert(encode_utf8(last) =~= tail);
    assert(encode_utf8(a).last() == tail.last());
    if a.last() != LABEL_SEPARATOR_CHAR {
        assert(tail.contains(tail.last()));
    }
}

/// Two texts with the same bytes are the same text.
pub proof fn lemma_encode_injective(a: Seq<char>, b: Seq<char>)
    requires
        encode_utf8(a) == encode_utf8(b),
    ensures
        a == b,
{
    encode_utf8_decode_utf8(a);
    encode_utf8_decode_utf8(b);
}

} // verus!
