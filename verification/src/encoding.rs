//! How what is counted in characters relates to what is counted in bytes:
//! the UTF-16 length of a text is that of its bytes, what is found in the
//! wrapped body of a scheduled action lies in the document at the place to
//! which it is carried back, the position of an offset leads back to the
//! offset, and the part of a flag reference that a rename replaces holds
//! the name of the flag.

use crate::chars::{last_index_of, lemma_last_index_of, utf16_len, utf16_width};
use crate::schedule::{lemma_wrapper_prefix_len, remapped_span, wrapper_prefix};
use crate::spans::{flag_base, flag_rename_range, normalized_flag};
use crate::text::{
    is_offset_of, lemma_line_starts_prefix, lemma_line_starts_shape, lemma_utf16_units_split,
    line_of_offset, line_start_before, line_starts_of, position_of, slice_of, unit_width,
    utf16_units, valid_span, Range, NEWLINE,
};
use vstd::prelude::*;
use vstd::utf8::{
    decode_utf8, encode_scalar, encode_utf8, has_width_1_encoding, has_width_2_encoding,
    has_width_3_encoding, has_width_4_encoding, is_continuation_byte, is_leading_byte_width_1,
    is_leading_byte_width_2, is_leading_byte_width_3, is_leading_byte_width_4,
    last_continuation_byte, leading_byte_width_1, leading_byte_width_2, leading_byte_width_3,
    leading_byte_width_4, second_last_continuation_byte, third_last_continuation_byte,
    valid_utf8,
};

verus! {

proof fn lemma_bytes_of_width_1(c: u32)
    by (bit_vector)
    requires
        has_width_1_encoding(c),
    ensures
        is_leading_byte_width_1(leading_byte_width_1(c)),
{
}

proof fn lemma_bytes_of_width_2(c: u32)
    by (bit_vector)
    requires
        has_width_2_encoding(c),
    ensures
        is_leading_byte_width_2(leading_byte_width_2(c)),
        is_continuation_byte(last_continuation_byte(c)),
{
}

proof fn lemma_bytes_of_width_3(c: u32)
    by (bit_vector)
    requires
        has_width_3_encoding(c),
    ensures
        is_leading_byte_width_3(leading_byte_width_3(c)),
        is_continuation_byte(second_last_continuation_byte(c)),
        is_continuation_byte(last_continuation_byte(c)),
{
}

proof fn lemma_bytes_of_width_4(c: u32)
    by (bit_vector)
    requires
        has_width_4_encoding(c),
    ensures
        is_leading_byte_width_4(leading_byte_width_4(c)),
        is_continuation_byte(third_last_continuation_byte(c)),
        is_continuation_byte(second_last_continuation_byte(c)),
        is_continuation_byte(last_continuation_byte(c)),
{
}

/// One more byte adds what it accounts for.
pub proof fn lemma_utf16_units_push(bytes: Seq<u8>, b: u8)
    ensures
        utf16_units(bytes.push(b)) == utf16_units(bytes) + unit_width(b),
{
    assert(bytes.push(b).drop_last() =~= bytes);
}

/// The bytes of one character account for as many UTF-16 code units as
/// the character takes.
pub proof fn lemma_utf16_units_of_char(c: char)
    ensures
        utf16_units(encode_scalar(c as u32)) == utf16_width(c),
{
    let v = c as u32;
    vstd::utf8::char_is_scalar(c);
    let empty = Seq::<u8>::empty();
    assert(utf16_units(empty) == 0);
    if has_width_1_encoding(v) {
        lemma_bytes_of_width_1(v);
        let b1 = leading_byte_width_1(v);
        lemma_utf16_units_push(empty, b1);
        assert(encode_scalar(v) =~= empty.push(b1));
    } else if has_width_2_encoding(v) {
        lemma_bytes_of_width_2(v);
        let b1 = leading_byte_width_2(v);
        let b2 = last_continuation_byte(v);
        lemma_utf16_units_push(empty, b1);
        lemma_utf16_units_push(empty.push(b1), b2);
        assert(encode_scalar(v) =~= empty.push(b1).push(b2));
    } else if has_width_3_encoding(v) {
        lemma_bytes_of_width_3(v);
        let b1 = leading_byte_width_3(v);
        let b2 = second_last_continuation_byte(v);
        let b3 = last_continuation_byte(v);
        lemma_utf16_units_push(empty, b1);
        lemma_utf16_units_push(empty.push(b1), b2);
        lemma_utf16_units_push(empty.push(b1).push(b2), b3);
        assert(encode_scalar(v) =~= empty.push(b1).push(b2).push(b3));
    } else {
        lemma_bytes_of_width_4(v);
        let b1 = leading_byte_width_4(v);
        let b2 = third_last_continuation_byte(v);
        let b3 = second_last_continuation_byte(v);
        let b4 = last_continuation_byte(v);
        lemma_utf16_units_push(empty, b1);
        lemma_utf16_units_push(empty.push(b1), b2);
        lemma_utf16_units_push(empty.push(b1).push(b2), b3);
        lemma_utf16_units_push(empty.push(b1).push(b2).push(b3), b4);
        assert(encode_scalar(v) =~= empty.push(b1).push(b2).push(b3).push(b4));
    }
}

/// The UTF-16 length of a text is that of its first character and that of
/// the rest.
pub proof fn lemma_utf16_len_front(s: Seq<char>)
    requires
        s.len() > 0,
    ensures
        utf16_len(s) == utf16_width(s[0]) + utf16_len(s.drop_first()),
    decreases s.len(),
{
    if s.len() == 1 {
        assert(s.drop_last() =~= Seq::<char>::empty());
        assert(s.drop_first() =~= Seq::<char>::empty());
        assert(utf16_len(Seq::<char>::empty()) == 0);
    } else {
        lemma_utf16_len_front(s.drop_last());
        assert(s.drop_last().drop_first() =~= s.drop_first().drop_last());
        assert(s.drop_last()[0] == s[0]);
        assert(s.drop_first().last() == s.last());
    }
}

/// The bytes of a text account for as many UTF-16 code units as the text
/// takes: columns that are counted in the text and columns that are
/// counted in its bytes are the same.
pub proof fn lemma_utf16_units_of_text(s: Seq<char>)
    ensures
        utf16_units(encode_utf8(s)) == utf16_len(s),
    decreases s.len(),
{
    if s.len() > 0 {
        let head = encode_scalar(s[0] as u32);
        let tail = encode_utf8(s.drop_first());
        lemma_utf16_units_of_text(s.drop_first());
        lemma_utf16_units_of_char(s[0]);
        lemma_utf16_len_front(s);
        lemma_utf16_units_split(head + tail, head.len() as int);
        assert((head + tail).take(head.len() as int) =~= head);
        assert((head + tail).skip(head.len() as int) =~= tail);
    }
}

/// The bytes of two texts, one after the other, are the bytes of the one
/// and then those of the other.
pub proof fn lemma_encode_utf8_concat(a: Seq<char>, b: Seq<char>)
    ensures
        encode_utf8(a + b) == encode_utf8(a) + encode_utf8(b),
    decreases a.len(),
{
    if a.len() == 0 {
        assert(a + b =~= b);
        assert(encode_utf8(a) + encode_utf8(b) =~= encode_utf8(b));
    } else {
        lemma_encode_utf8_concat(a.drop_first(), b);
        assert((a + b).drop_first() =~= a.drop_first() + b);
        assert((a + b)[0] == a[0]);
        assert(encode_scalar(a[0] as u32) + (encode_utf8(a.drop_first()) + encode_utf8(b))
            =~= (encode_scalar(a[0] as u32) + encode_utf8(a.drop_first())) + encode_utf8(b));
    }
}

/// The bytes of a part of a text that is made of whole characters are
/// the bytes that the text holds there.
pub proof fn lemma_slice_bytes(text: Seq<char>, start: int, end: int)
    requires
        valid_span(encode_utf8(text), start, end),
    ensures
        encode_utf8(slice_of(text, start, end)) == encode_utf8(text).subrange(start, end),
{
    broadcast use vstd::utf8::group_utf8_lib;

    let bytes = encode_utf8(text);
    let head = bytes.subrange(0, end);
    assert(valid_utf8(bytes));
    vstd::utf8::valid_utf8_split(bytes, end);
    if start == end {
        vstd::utf8::is_char_boundary_start_end_of_seq(head);
    } else {
        vstd::utf8::is_char_boundary_iff_not_is_continuation_byte(bytes, start);
        vstd::utf8::is_char_boundary_iff_not_is_continuation_byte(head, start);
        assert(head[start] == bytes[start]);
    }
    vstd::utf8::valid_utf8_split(head, start);
    assert(head.subrange(start, head.len() as int) =~= bytes.subrange(start, end));
    vstd::utf8::decode_utf8_encode_utf8(bytes.subrange(start, end));
}

/// What a node of the wrapped body of a scheduled action spans lies, byte
/// for byte, in the document at the place to which the span is carried
/// back: the body that begins at `body_start` and ends at `body_end`
/// stands in the wrapped text behind the prefix, so that a span of the
/// wrapped text and its place in the document hold the same bytes.
pub proof fn lemma_remapped_span_holds_same_bytes(
    text: Seq<char>,
    body_start: int,
    body_end: int,
    capture_start: int,
    capture_end: int,
)
    requires
        valid_span(encode_utf8(text), body_start, body_end),
        capture_start <= capture_end,
        remapped_span(body_start, body_end - body_start, capture_start, capture_end) is Some,
    ensures
        ({
            let wrapped = wrapper_prefix() + slice_of(text, body_start, body_end);
            let place = remapped_span(
                body_start,
                body_end - body_start,
                capture_start,
                capture_end,
            )->0;
            encode_utf8(wrapped).subrange(capture_start, capture_end) == encode_utf8(
                text,
            ).subrange(place.0, place.1)
        }),
{
    let body = slice_of(text, body_start, body_end);
    let bytes = encode_utf8(text);
    let head = encode_utf8(wrapper_prefix());
    let inner = bytes.subrange(body_start, body_end);
    lemma_wrapper_prefix_len();
    lemma_slice_bytes(text, body_start, body_end);
    lemma_encode_utf8_concat(wrapper_prefix(), body);
    let place = remapped_span(body_start, body_end - body_start, capture_start, capture_end)->0;
    assert((head + inner).subrange(capture_start, capture_end) =~= bytes.subrange(place.0, place.1));
}

/// The position of a byte offset leads back to the offset: an offset that
/// stands at the beginning of a character or at the end of the text is
/// the offset of its own position, as long as the line and the column fit
/// the numbers of a position.
pub proof fn lemma_position_leads_back(bytes: Seq<u8>, off: int)
    requires
        0 <= off <= bytes.len(),
        off == bytes.len() || !is_continuation_byte(bytes[off]),
        line_of_offset(bytes, off) < u32::MAX,
        utf16_units(bytes.subrange(line_start_before(bytes, off), off)) < u32::MAX,
    ensures
        is_offset_of(bytes, position_of(bytes, off), off),
{
    let all = line_starts_of(bytes);
    let part = line_starts_of(bytes.take(off));
    lemma_line_starts_shape(bytes);
    lemma_line_starts_shape(bytes.take(off));
    lemma_line_starts_prefix(bytes, off);
    let line = part.len() - 1;
    assert(part[line] == all[line]);
    assert(all.take(part.len() as int)[line] == all[line]);
    assert(0 <= part[line] <= off);
    if line + 1 < all.len() {
        assert(all[line + 1] > off);
    }
}

/// Offsets between which no line ends lie on the same line.
pub proof fn lemma_same_line(bytes: Seq<u8>, a: int, b: int)
    requires
        0 <= a <= b <= bytes.len(),
        forall|i: int| a <= i < b ==> bytes[i] != NEWLINE,
    ensures
        line_starts_of(bytes.take(b)) == line_starts_of(bytes.take(a)),
    decreases b - a,
{
    if a < b {
        lemma_same_line(bytes, a, b - 1);
        assert(bytes.take(b).drop_last() =~= bytes.take(b - 1));
        assert(bytes.take(b).last() == bytes[b - 1]);
    }
}

/// The UTF-16 code units from `from` up to `to` are those up to `mid` and
/// those from `mid` on.
pub proof fn lemma_utf16_units_between(bytes: Seq<u8>, from: int, mid: int, to: int)
    requires
        0 <= from <= mid <= to <= bytes.len(),
    ensures
        utf16_units(bytes.subrange(from, to)) == utf16_units(bytes.subrange(from, mid))
            + utf16_units(bytes.subrange(mid, to)),
{
    let whole = bytes.subrange(from, to);
    lemma_utf16_units_split(whole, mid - from);
    assert(whole.take(mid - from) =~= bytes.subrange(from, mid));
    assert(whole.skip(mid - from) =~= bytes.subrange(mid, to));
}

/// The part of a flag reference that a rename replaces holds the name of
/// the flag. Where a reference that names a step stands in `text` from
/// the byte offset `start` up to `end`, on one line, and is given the
/// range that these offsets have, then the reference is known under what
/// stands before its last `#`, the range that a rename replaces begins
/// where the reference begins and ends where that name ends, and the text
/// between these two places is that name.
pub proof fn lemma_rename_range_holds_flag_name(text: Seq<char>, start: int, end: int)
    requires
        valid_span(encode_utf8(text), start, end),
        forall|i: int| start <= i < end ==> encode_utf8(text)[i] != NEWLINE,
        flag_base(slice_of(text, start, end)) is Some,
        line_of_offset(encode_utf8(text), end) < u32::MAX,
        utf16_units(
            encode_utf8(text).subrange(line_start_before(encode_utf8(text), end), end),
        ) < u32::MAX,
    ensures
        ({
            let bytes = encode_utf8(text);
            let name = slice_of(text, start, end);
            let base = flag_base(name)->0;
            let range = Range { start: position_of(bytes, start), end: position_of(bytes, end) };
            let rename = flag_rename_range(name, range)->0;
            let stop = start + encode_utf8(base).len();
            &&& normalized_flag(name) == base
            &&& is_offset_of(bytes, rename.start, start)
            &&& is_offset_of(bytes, rename.end, stop)
            &&& slice_of(text, start, stop) == base
        }),
{
    broadcast use vstd::utf8::group_utf8_lib;

    let bytes = encode_utf8(text);
    let name = slice_of(text, start, end);
    lemma_slice_bytes(text, start, end);
    lemma_last_index_of(name, '#');
    let at = last_index_of(name, '#');
    let base = name.take(at);
    let rest = name.skip(at);
    assert(name =~= base + rest);
    lemma_encode_utf8_concat(base, rest);
    let head = encode_utf8(base);
    let tail = encode_utf8(rest);
    let stop = start + head.len();
    assert(bytes.subrange(start, end) == head + tail);
    assert(bytes.subrange(start, end).len() == head.len() + tail.len());

    // The name ends at the beginning of a character.
    assert(rest[0] == '#');
    assert(tail.len() > 0) by {
        assert(tail == encode_scalar(rest[0] as u32) + encode_utf8(rest.drop_first()));
    }
    assert(stop < end);
    assert(bytes[stop] == tail[0]) by {
        assert(bytes.subrange(start, end)[stop - start] == (head + tail)[head.len() as int]);
    }
    assert(valid_utf8(tail));
    vstd::utf8::is_char_boundary_start_end_of_seq(tail);
    vstd::utf8::is_char_boundary_iff_not_is_continuation_byte(tail, 0);
    assert(valid_utf8(bytes));
    vstd::utf8::is_char_boundary_iff_not_is_continuation_byte(bytes, stop);
    assert(valid_span(bytes, start, stop));
    assert(bytes.subrange(start, stop) =~= head) by {
        assert(bytes.subrange(start, stop) =~= bytes.subrange(start, end).take(
            head.len() as int,
        ));
        assert((head + tail).take(head.len() as int) =~= head);
    }
    assert(slice_of(text, start, stop) == base) by {
        vstd::utf8::encode_utf8_decode_utf8(base);
    }

    // The three offsets lie on one line.
    lemma_same_line(bytes, start, end);
    lemma_same_line(bytes, start, stop);
    let line_start = line_start_before(bytes, start);
    lemma_line_starts_shape(bytes.take(start));
    assert(0 <= line_start <= start);

    // The columns.
    lemma_utf16_units_between(bytes, line_start, start, end);
    lemma_utf16_units_between(bytes, line_start, start, stop);
    lemma_utf16_units_between(bytes, start, stop, end);
    lemma_utf16_units_of_text(base);
    let column = utf16_units(bytes.subrange(line_start, start));
    assert(utf16_units(bytes.subrange(line_start, stop)) == column + utf16_len(base));
    assert(utf16_units(bytes.subrange(line_start, stop)) <= utf16_units(
        bytes.subrange(line_start, end),
    ));

    if start < bytes.len() {
        vstd::utf8::is_char_boundary_iff_not_is_continuation_byte(bytes, start);
    }
    lemma_position_leads_back(bytes, start);
    lemma_position_leads_back(bytes, stop);
    let range = Range { start: position_of(bytes, start), end: position_of(bytes, end) };
    let rename = flag_rename_range(name, range)->0;
    assert(rename.start == position_of(bytes, start));
    assert(rename.end == position_of(bytes, stop));
}

} // verus!
