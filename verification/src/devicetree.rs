//! Devicetree string lists: texts separated by NUL characters.

use vstd::prelude::*;
use vstd::utf8::*;

verus! {

/// Position of the first NUL character of `list`, or its length.
pub open spec fn first_nul(list: Seq<char>) -> nat
    decreases list.len(),
{
    if list.len() == 0 || list[0] == '\0' {
        0
    } else {
        1 + first_nul(list.drop_first())
    }
}

/// The texts of a string list, in order. A list without a NUL character is
/// a single text.
pub open spec fn values(list: Seq<char>) -> Seq<Seq<char>>
    decreases list.len(),
{
    let end = first_nul(list);
    if end < list.len() {
        seq![list.take(end as int)] + values(list.skip((end + 1) as int))
    } else {
        seq![list]
    }
}

/// The stretch before the first NUL character holds none.
pub proof fn lemma_first_nul(list: Seq<char>)
    ensures
        first_nul(list) <= list.len(),
        first_nul(list) < list.len() ==> list[first_nul(list) as int] == '\0',
        forall|i: int| 0 <= i < first_nul(list) ==> list[i] != '\0',
    decreases list.len(),
{
    if list.len() != 0 && list[0] != '\0' {
        let tail = list.drop_first();
        lemma_first_nul(tail);
        assert forall|i: int| 0 <= i < first_nul(list) implies list[i] != '\0' by {
            if i > 0 {
                assert(list[i] == tail[i - 1]);
            }
        }
    }
}

/// Text in front of a list without a NUL character only lengthens the first
/// value, so the first NUL character moves by its length.
proof fn lemma_first_nul_of_joined(left: Seq<char>, right: Seq<char>)
    ensures
        first_nul(left) < left.len() ==> first_nul(left + right) == first_nul(left),
        first_nul(left) == left.len() ==> first_nul(left + right) == left.len() + first_nul(right),
    decreases left.len(),
{
    lemma_first_nul(left);
    if left.len() == 0 {
        assert(left + right =~= right);
    } else if left[0] != '\0' {
        lemma_first_nul_of_joined(left.drop_first(), right);
        assert((left + right).drop_first() =~= left.drop_first() + right);
    }
}

/// A NUL character between two lists joins them into one.
pub proof fn law_nul_joins_lists(left: Seq<char>, right: Seq<char>)
    ensures
        values(left + seq!['\0'] + right) == values(left) + values(right),
    decreases left.len(),
{
    let joined = left + seq!['\0'] + right;
    assert(joined =~= left + (seq!['\0'] + right));
    lemma_first_nul(left);
    lemma_first_nul_of_joined(left, seq!['\0'] + right);
    let end = first_nul(left);
    if end < left.len() {
        law_nul_joins_lists(left.skip((end + 1) as int), right);
        assert(joined.skip((end + 1) as int) =~= left.skip((end + 1) as int) + seq!['\0'] + right);
        assert(joined.take(end as int) =~= left.take(end as int));
        assert(values(joined) =~= values(left) + values(right));
    } else {
        assert(joined.take(end as int) =~= left);
        assert(joined.skip((end + 1) as int) =~= right);
        assert(values(joined) =~= values(left) + values(right));
    }
}

/// UTF-8 encodes a joined text as the joined encodings.
proof fn lemma_encode_joined(left: Seq<char>, right: Seq<char>)
    ensures
        encode_utf8(left + right) == encode_utf8(left) + encode_utf8(right),
    decreases left.len(),
{
    if left.len() == 0 {
        assert(left + right =~= right);
        assert(encode_utf8(left) + encode_utf8(right) =~= encode_utf8(right));
    } else {
        lemma_encode_joined(left.drop_first(), right);
        assert((left + right).drop_first() =~= left.drop_first() + right);
        assert(encode_utf8(left + right) =~= encode_utf8(left) + encode_utf8(right));
    }
}

proof fn lemma_scalar_bytes_are_not_zero(scalar: u32)
    by (bit_vector)
    ensures
        scalar != 0 && has_width_1_encoding(scalar) ==> leading_byte_width_1(scalar) != 0,
        leading_byte_width_2(scalar) != 0,
        leading_byte_width_3(scalar) != 0,
        leading_byte_width_4(scalar) != 0,
        last_continuation_byte(scalar) != 0,
        second_last_continuation_byte(scalar) != 0,
        third_last_continuation_byte(scalar) != 0,
{
}

proof fn lemma_nul_is_zero(c: char)
    ensures
        c as u32 == 0 <==> c == '\0',
{
}

/// A text without NUL characters is encoded without zero bytes.
proof fn lemma_encode_without_nul(text: Seq<char>)
    requires
        forall|i: int| 0 <= i < text.len() ==> text[i] != '\0',
    ensures
        forall|i: int| 0 <= i < encode_utf8(text).len() ==> encode_utf8(text)[i] != 0,
    decreases text.len(),
{
    if text.len() != 0 {
        let tail = text.drop_first();
        assert forall|i: int| 0 <= i < tail.len() implies tail[i] != '\0' by {
            assert(tail[i] == text[i + 1]);
        }
        lemma_encode_without_nul(tail);
        let scalar = text[0] as u32;
        lemma_scalar_bytes_are_not_zero(scalar);
        lemma_nul_is_zero(text[0]);
        let head = encode_scalar(scalar);
        assert forall|i: int| 0 <= i < head.len() implies head[i] != 0 by {
        }
        assert forall|i: int| 0 <= i < encode_utf8(text).len() implies encode_utf8(text)[i]
            != 0 by {
            if i >= head.len() {
                assert(encode_utf8(text)[i] == encode_utf8(tail)[i - head.len()]);
            }
        }
    }
}

/// Texts with equal encodings are equal.
pub proof fn lemma_encode_injective(left: Seq<char>, right: Seq<char>)
    ensures
        encode_utf8(left) == encode_utf8(right) <==> left == right,
{
    encode_utf8_decode_utf8(left);
    encode_utf8_decode_utf8(right);
}

/// The encoding of a list, parted at its first NUL character: the encoding
/// of the first value, which has no zero byte, and, if another value
/// follows, a zero byte and the encoding of what is left.
pub proof fn lemma_encoded_list(list: Seq<char>)
    ensures
        ({
            let end = first_nul(list);
            let value = encode_utf8(list.take(end as int));
            &&& end <= list.len()
            &&& forall|i: int| 0 <= i < value.len() ==> value[i] != 0
            &&& end < list.len() ==> encode_utf8(list) == value + seq![0u8] + encode_utf8(
                list.skip((end + 1) as int),
            )
            &&& end == list.len() ==> encode_utf8(list) == value
        }),
{
    lemma_first_nul(list);
    let end = first_nul(list);
    let value = list.take(end as int);
    lemma_encode_without_nul(value);
    if end < list.len() {
        let tail = list.skip(end as int);
        assert(list =~= value + tail);
        lemma_encode_joined(value, tail);
        assert(tail.drop_first() =~= list.skip((end + 1) as int));
        assert(tail[0] == '\0');
        assert(leading_byte_width_1(0u32) == 0u8) by (bit_vector);
        assert(encode_utf8(tail) =~= seq![0u8] + encode_utf8(list.skip((end + 1) as int)));
        assert(encode_utf8(list) =~= encode_utf8(value) + seq![0u8] + encode_utf8(
            list.skip((end + 1) as int),
        ));
    } else {
        assert(value =~= list);
    }
}

/// End of the value that starts at `start`: the first zero byte from there
/// on, or the end of `bytes`.
pub fn value_end(bytes: &[u8], start: usize) -> (end: usize)
    requires
        start <= bytes@.len(),
    ensures
        start <= end <= bytes@.len(),
        forall|i: int| start <= i < end ==> bytes@[i] != 0,
        end < bytes@.len() ==> bytes@[end as int] == 0,
{
    let mut end: usize = start;
    while end < bytes.len() && bytes[end] != 0
        invariant
            start <= end <= bytes@.len(),
            forall|i: int| start <= i < end ==> bytes@[i] != 0,
        decreases bytes@.len() - end,
    {
        end += 1;
    }
    end
}

/// Tells whether the bytes from `start` up to `end` spell `text`.
pub fn spells(bytes: &[u8], start: usize, end: usize, text: &str) -> (same: bool)
    requires
        start <= end <= bytes@.len(),
    ensures
        same == (bytes@.subrange(start as int, end as int) == encode_utf8(text@)),
{
    let wanted = text.as_bytes();
    let ghost found = bytes@.subrange(start as int, end as int);
    if wanted.len() != end - start {
        return false;
    }
    let mut i: usize = 0;
    while i < wanted.len()
        invariant
            i <= wanted@.len(),
            start <= end <= bytes@.len(),
            wanted@.len() == end - start,
            wanted@ == encode_utf8(text@),
            found == bytes@.subrange(start as int, end as int),
            forall|j: int| 0 <= j < i ==> found[j] == wanted@[j],
        decreases wanted@.len() - i,
    {
        if bytes[start + i] != wanted[i] {
            assert(found[i as int] != wanted@[i as int]);
            return false;
        }
        i += 1;
    }
    assert(found =~= wanted@);
    true
}

} // verus!
