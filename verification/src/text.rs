//! Positions in a document: lines and UTF-16 columns on one side, byte
//! offsets on the other.
//!
//! Everything here is stated over the bytes of the text, that is over its
//! UTF-8 encoding. A line break is the byte `0x0A`. A byte counts for two
//! UTF-16 code units where it leads a sequence of four bytes, for none
//! where it continues a sequence, and for one otherwise.

use crate::chars::to_chars;
use vstd::prelude::*;
use vstd::utf8::{
    decode_utf8, encode_utf8, is_char_boundary, is_continuation_byte, is_leading_byte_width_4,
    valid_utf8,
};

verus! {

/// A place in a text: a line, counted from zero, and a column in UTF-16
/// code units.
#[derive(Debug, Clone, Copy, PartialEq, Eq, Structural)]
pub struct Position {
    pub line: u32,
    pub character: u32,
}

/// A stretch of text between two positions.
#[derive(Debug, Clone, Copy, PartialEq, Eq, Structural)]
pub struct Range {
    pub start: Position,
    pub end: Position,
}

impl Default for Position {
    fn default() -> (r: Position)
        ensures
            r == (Position { line: 0, character: 0 }),
    {
        Position { line: 0, character: 0 }
    }
}

impl Default for Range {
    fn default() -> (r: Range)
        ensures
            r == (Range {
                start: Position { line: 0, character: 0 },
                end: Position { line: 0, character: 0 },
            }),
    {
        Range {
            start: Position { line: 0, character: 0 },
            end: Position { line: 0, character: 0 },
        }
    }
}

/// The byte that ends a line.
pub const NEWLINE: u8 = 10;

/// `n`, or the largest `u32` where `n` is larger.
pub open spec fn clip_u32(n: int) -> u32 {
    if n >= u32::MAX {
        u32::MAX
    } else if n < 0 {
        0
    } else {
        n as u32
    }
}

/// The number of UTF-16 code units that the byte `b` accounts for.
pub open spec fn unit_width(b: u8) -> nat {
    if is_continuation_byte(b) {
        0
    } else if is_leading_byte_width_4(b) {
        2
    } else {
        1
    }
}

/// The number of UTF-16 code units that `bytes` account for.
pub open spec fn utf16_units(bytes: Seq<u8>) -> nat
    decreases bytes.len(),
{
    if bytes.len() == 0 {
        0
    } else {
        utf16_units(bytes.drop_last()) + unit_width(bytes.last())
    }
}

/// The offsets at which the lines of `bytes` begin: `0`, and each offset
/// that follows a line break.
pub open spec fn line_starts_of(bytes: Seq<u8>) -> Seq<int>
    decreases bytes.len(),
{
    if bytes.len() == 0 {
        seq![0int]
    } else {
        let before = line_starts_of(bytes.drop_last());
        if bytes.last() == NEWLINE {
            before.push(bytes.len() as int)
        } else {
            before
        }
    }
}

/// The line that holds the offset `off`: the number of line breaks before
/// it.
pub open spec fn line_of_offset(bytes: Seq<u8>, off: int) -> int {
    line_starts_of(bytes.take(off)).len() - 1
}

/// Where the line that holds the offset `off` begins.
pub open spec fn line_start_before(bytes: Seq<u8>, off: int) -> int {
    line_starts_of(bytes.take(off)).last()
}

/// Where the text of line `line` ends: before its line break, or at the
/// end of `bytes` for the last line.
pub open spec fn line_content_end(bytes: Seq<u8>, line: int) -> int {
    let starts = line_starts_of(bytes);
    if line + 1 < starts.len() {
        starts[line + 1] - 1
    } else {
        bytes.len() as int
    }
}

/// Whether `off` is the byte offset of the position `pos` in `bytes`: it
/// lies on the line of `pos`, at the start of a character or at the end of
/// the line, and the text of the line before it takes as many UTF-16 code
/// units as the column of `pos` says.
pub open spec fn is_offset_of(bytes: Seq<u8>, pos: Position, off: int) -> bool {
    let starts = line_starts_of(bytes);
    let end = line_content_end(bytes, pos.line as int);
    &&& pos.line < starts.len()
    &&& starts[pos.line as int] <= off <= end
    &&& (off == end || !is_continuation_byte(bytes[off]))
    &&& utf16_units(bytes.subrange(starts[pos.line as int], off)) == pos.character
}

/// The position of the byte offset `off` in `bytes`. An offset beyond the
/// end counts as the end; a line or a column beyond `u32::MAX` counts as
/// `u32::MAX`.
pub open spec fn position_of(bytes: Seq<u8>, off: int) -> Position {
    let at = if off > bytes.len() {
        bytes.len() as int
    } else {
        off
    };
    Position {
        line: clip_u32(line_of_offset(bytes, at)),
        character: clip_u32(
            utf16_units(bytes.subrange(line_start_before(bytes, at), at)) as int,
        ),
    }
}

/// The range from the beginning of `bytes` to its end.
pub open spec fn full_range_of(bytes: Seq<u8>) -> Range {
    Range {
        start: Position { line: 0, character: 0 },
        end: position_of(bytes, bytes.len() as int),
    }
}

/// The shape of what [`line_starts_of`] returns: it begins with `0`, grows
/// strictly, stays within the text, and every later entry follows a line
/// break.
pub proof fn lemma_line_starts_shape(bytes: Seq<u8>)
    ensures
        line_starts_of(bytes).len() >= 1,
        line_starts_of(bytes).len() <= bytes.len() + 1,
        line_starts_of(bytes)[0] == 0,
        forall|i: int|
            0 <= i < line_starts_of(bytes).len() ==> 0 <= #[trigger] line_starts_of(bytes)[i]
                <= bytes.len(),
        forall|i: int, j: int|
            0 <= i < j < line_starts_of(bytes).len() ==> line_starts_of(bytes)[i]
                < line_starts_of(bytes)[j],
        forall|i: int|
            1 <= i < line_starts_of(bytes).len() ==> bytes[#[trigger] line_starts_of(bytes)[i]
                - 1] == NEWLINE,
    decreases bytes.len(),
{
    if bytes.len() > 0 {
        let shorter = bytes.drop_last();
        lemma_line_starts_shape(shorter);
        let before = line_starts_of(shorter);
        let now = line_starts_of(bytes);
        assert forall|i: int| 1 <= i < now.len() implies bytes[#[trigger] now[i] - 1]
            == NEWLINE by {
            if i < before.len() {
                assert(now[i] == before[i]);
                assert(shorter[before[i] - 1] == bytes[before[i] - 1]);
            }
        }
    }
}

/// The line starts of a prefix of `bytes` are those line starts of `bytes`
/// that do not lie beyond the prefix.
pub proof fn lemma_line_starts_prefix(bytes: Seq<u8>, off: int)
    requires
        0 <= off <= bytes.len(),
    ensures
        line_starts_of(bytes.take(off)).len() <= line_starts_of(bytes).len(),
        line_starts_of(bytes.take(off)) == line_starts_of(bytes).take(
            line_starts_of(bytes.take(off)).len() as int,
        ),
        forall|i: int|
            line_starts_of(bytes.take(off)).len() <= i < line_starts_of(bytes).len()
                ==> #[trigger] line_starts_of(bytes)[i] > off,
    decreases bytes.len() - off,
{
    if off == bytes.len() {
        assert(bytes.take(off) =~= bytes);
        assert(line_starts_of(bytes).take(line_starts_of(bytes).len() as int) =~= line_starts_of(
            bytes,
        ));
    } else {
        let shorter = bytes.drop_last();
        lemma_line_starts_prefix(shorter, off);
        assert(shorter.take(off) =~= bytes.take(off));
        let part = line_starts_of(bytes.take(off));
        let before = line_starts_of(shorter);
        let now = line_starts_of(bytes);
        assert(part =~= now.take(part.len() as int));
    }
}

/// The UTF-16 code units of a sequence are those of its parts together.
pub proof fn lemma_utf16_units_split(bytes: Seq<u8>, mid: int)
    requires
        0 <= mid <= bytes.len(),
    ensures
        utf16_units(bytes) == utf16_units(bytes.take(mid)) + utf16_units(bytes.skip(mid)),
    decreases bytes.len(),
{
    if mid == bytes.len() {
        assert(bytes.take(mid) =~= bytes);
        assert(bytes.skip(mid) =~= Seq::<u8>::empty());
    } else {
        let shorter = bytes.drop_last();
        lemma_utf16_units_split(shorter, mid);
        assert(shorter.take(mid) =~= bytes.take(mid));
        assert(bytes.skip(mid).drop_last() =~= shorter.skip(mid));
    }
}

/// Whether `b` continues a sequence of several bytes.
pub fn byte_is_continuation(b: u8) -> (r: bool)
    ensures
        r == is_continuation_byte(b),
{
    0x80 <= b && b <= 0xbf
}

/// The number of UTF-16 code units that the byte `b` accounts for.
pub fn byte_unit_width(b: u8) -> (r: u8)
    ensures
        r == unit_width(b),
{
    if 0x80 <= b && b <= 0xbf {
        0
    } else if 0xf0 <= b && b <= 0xf7 {
        2
    } else {
        1
    }
}

/// The number of UTF-16 code units that `bytes[from..to]` account for.
pub fn count_units(bytes: &[u8], from: usize, to: usize) -> (r: u128)
    requires
        from <= to <= bytes@.len(),
    ensures
        r == utf16_units(bytes@.subrange(from as int, to as int)),
        r <= 2 * (to - from),
{
    let mut units: u128 = 0;
    let mut i: usize = from;
    while i < to
        invariant
            from <= i <= to <= bytes@.len(),
            units == utf16_units(bytes@.subrange(from as int, i as int)),
            units <= 2 * (i - from),
        decreases to - i,
    {
        proof {
            assert(bytes@.subrange(from as int, i + 1).drop_last() =~= bytes@.subrange(
                from as int,
                i as int,
            ));
        }
        let w: u8 = byte_unit_width(bytes[i]);
        units = units + w as u128;
        i += 1;
    }
    units
}

fn clip_to_u32(n: u128) -> (r: u32)
    ensures
        r == clip_u32(n as int),
{
    if n >= 0xffff_ffffu128 {
        0xffff_ffffu32
    } else {
        n as u32
    }
}

/// The offsets at which the lines of a text begin.
#[derive(Debug)]
pub struct LineIndex {
    line_starts: Vec<usize>,
}

impl Clone for LineIndex {
    fn clone(&self) -> (r: LineIndex)
        ensures
            r.starts() == self.starts(),
    {
        proof {
            use_type_invariant(self);
        }
        let line_starts = self.line_starts.clone();
        proof {
            assert(line_starts@ =~= self.line_starts@);
        }
        LineIndex { line_starts }
    }
}

impl LineIndex {
    /// Always at least one line, the first at offset `0`, each later one
    /// further on.
    #[verifier::type_invariant]
    spec fn ordered(self) -> bool {
        &&& self.line_starts@.len() >= 1
        &&& self.line_starts@[0] == 0
        &&& forall|i: int, j: int|
            0 <= i < j < self.line_starts@.len() ==> self.line_starts@[i] < self.line_starts@[j]
    }

    /// The line starts that the index holds.
    pub closed spec fn starts(&self) -> Seq<int> {
        Seq::new(self.line_starts@.len(), |i: int| self.line_starts@[i] as int)
    }

    /// Whether the index holds the line starts of `bytes`.
    pub open spec fn describes(&self, bytes: Seq<u8>) -> bool {
        self.starts() == line_starts_of(bytes)
    }

    /// The line index of `text`.
    pub fn new(text: &str) -> (r: LineIndex)
        ensures
            r.describes(encode_utf8(text@)),
    {
        let bytes = text.as_bytes();
        let mut line_starts: Vec<usize> = Vec::new();
        line_starts.push(0);
        let mut i: usize = 0;
        proof {
            assert(bytes@.take(0) =~= Seq::<u8>::empty());
        }
        while i < bytes.len()
            invariant
                i <= bytes@.len(),
                Seq::new(line_starts@.len(), |k: int| line_starts@[k] as int) == line_starts_of(
                    bytes@.take(i as int),
                ),
            decreases bytes@.len() - i,
        {
            proof {
                assert(bytes@.take(i + 1).drop_last() =~= bytes@.take(i as int));
            }
            if bytes[i] == NEWLINE {
                line_starts.push(i + 1);
            }
            i += 1;
        }
        proof {
            assert(bytes@.take(bytes@.len() as int) =~= bytes@);
            lemma_line_starts_shape(bytes@);
            let view = Seq::new(line_starts@.len(), |k: int| line_starts@[k] as int);
            assert forall|a: int, b: int| 0 <= a < b < line_starts@.len() implies line_starts@[a]
                < line_starts@[b] by {
                assert(view[a] < view[b]);
            }
            assert(view[0] == 0);
        }
        LineIndex { line_starts }
    }

    /// The number of lines.
    pub fn line_count(&self) -> (n: usize)
        ensures
            n == self.starts().len(),
            n >= 1,
    {
        proof {
            use_type_invariant(self);
        }
        self.line_starts.len()
    }

    /// The offset at which line `line` begins.
    pub fn line_start(&self, line: usize) -> (r: Option<usize>)
        ensures
            match r {
                Some(start) => line < self.starts().len() && start == self.starts()[line as int],
                None => line >= self.starts().len(),
            },
    {
        if line < self.line_starts.len() {
            Some(self.line_starts[line])
        } else {
            None
        }
    }

    /// The last line that begins at or before `offset`.
    pub fn line_for_offset(&self, offset: usize) -> (line: usize)
        ensures
            line < self.starts().len(),
            self.starts()[line as int] <= offset,
            line + 1 < self.starts().len() ==> offset < self.starts()[line + 1],
    {
        proof {
            use_type_invariant(self);
        }
        let mut low: usize = 0;
        let mut high: usize = self.line_starts.len();
        while high - low > 1
            invariant
                low < high <= self.line_starts@.len(),
                self.line_starts@[low as int] <= offset,
                high < self.line_starts@.len() ==> offset < self.line_starts@[high as int],
                forall|i: int, j: int|
                    0 <= i < j < self.line_starts@.len() ==> self.line_starts@[i]
                        < self.line_starts@[j],
            decreases high - low,
        {
            let mid = low + (high - low) / 2;
            if self.line_starts[mid] <= offset {
                low = mid;
            } else {
                high = mid;
            }
        }
        low
    }

    /// The byte offset of `position` in `text`, if it has one.
    pub fn offset(&self, text: &str, position: Position) -> (r: Option<usize>)
        requires
            self.describes(encode_utf8(text@)),
        ensures
            match r {
                Some(off) => is_offset_of(encode_utf8(text@), position, off as int),
                None => forall|off: int| !is_offset_of(encode_utf8(text@), position, off),
            },
    {
        let bytes = text.as_bytes();
        let line = position.line as usize;
        proof {
            use_type_invariant(self);
            lemma_line_starts_shape(bytes@);
        }
        if line >= self.line_starts.len() {
            return None;
        }
        let start = self.line_starts[line];
        let end = if line + 1 < self.line_starts.len() {
            self.line_starts[line + 1] - 1
        } else {
            bytes.len()
        };
        let ghost starts = line_starts_of(bytes@);
        proof {
            assert(self.starts()[line as int] == start);
            if line + 1 < starts.len() {
                assert(self.starts()[line + 1] == starts[line + 1]);
                assert(starts[line as int] < starts[line + 1]);
            }
            assert(end == line_content_end(bytes@, line as int));
            assert(bytes@.subrange(start as int, start as int) =~= Seq::<u8>::empty());
        }
        let wanted: u128 = position.character as u128;
        let mut units: u128 = 0;
        let mut i: usize = start;
        while i < end
            invariant
                start <= i <= end <= bytes@.len(),
                bytes@ == encode_utf8(text@),
                starts == line_starts_of(bytes@),
                position.line as usize == line,
                line < starts.len(),
                starts[line as int] == start,
                end == line_content_end(bytes@, line as int),
                wanted == position.character,
                units == utf16_units(bytes@.subrange(start as int, i as int)),
                units <= 2 * (i - start),
                forall|off: int| start <= off < i ==> !is_offset_of(bytes@, position, off),
            decreases end - i,
        {
            let b = bytes[i];
            proof {
                assert(bytes@.subrange(start as int, i + 1).drop_last() =~= bytes@.subrange(
                    start as int,
                    i as int,
                ));
            }
            if !byte_is_continuation(b) {
                if units == wanted {
                    return Some(i);
                }
            }
            units = units + byte_unit_width(b) as u128;
            i += 1;
        }
        if units == wanted {
            Some(end)
        } else {
            None
        }
    }

    /// The position of `byte_offset` in `text`.
    pub fn position_at(&self, text: &str, byte_offset: usize) -> (r: Position)
        requires
            self.describes(encode_utf8(text@)),
        ensures
            r == position_of(encode_utf8(text@), byte_offset as int),
    {
        let bytes = text.as_bytes();
        let clamped = if byte_offset > bytes.len() {
            bytes.len()
        } else {
            byte_offset
        };
        let line = self.line_for_offset(clamped);
        let line_start = self.line_starts[line];
        proof {
            lemma_line_starts_shape(bytes@);
            lemma_line_starts_shape(bytes@.take(clamped as int));
            lemma_line_starts_prefix(bytes@, clamped as int);
            let all = line_starts_of(bytes@);
            let part = line_starts_of(bytes@.take(clamped as int));
            assert(self.starts()[line as int] == line_start);
            if line + 1 < all.len() {
                assert(self.starts()[line + 1] == all[line + 1]);
            }
            assert(part[part.len() - 1] == all[part.len() - 1]);
            if part.len() - 1 < line {
                assert(all[line as int] > clamped);
            }
            if part.len() - 1 > line {
                assert(all[line + 1] <= all[part.len() - 1]);
            }
            assert(part.len() - 1 == line);
        }
        let units = count_units(bytes, line_start, clamped);
        Position { line: clip_to_u32(line as u128), character: clip_to_u32(units) }
    }

    /// The range from the beginning of `text` to its end.
    pub fn range(&self, text: &str) -> (r: Range)
        requires
            self.describes(encode_utf8(text@)),
        ensures
            r == full_range_of(encode_utf8(text@)),
    {
        let n = text.as_bytes().len();
        let end = self.position_at(text, n);
        Range { start: Position { line: 0, character: 0 }, end }
    }
}

/// A text together with its line index.
#[derive(Debug)]
pub struct Document {
    text: String,
    line_index: LineIndex,
}

impl Clone for Document {
    fn clone(&self) -> (r: Document)
        ensures
            r@ == self@,
    {
        proof {
            use_type_invariant(self);
        }
        Document { text: self.text.clone(), line_index: self.line_index.clone() }
    }
}

impl View for Document {
    type V = Seq<char>;

    closed spec fn view(&self) -> Seq<char> {
        self.text@
    }
}

impl Document {
    #[verifier::type_invariant]
    spec fn indexed(self) -> bool {
        self.line_index.describes(encode_utf8(self.text@))
    }

    /// The bytes of the text.
    pub open spec fn bytes(&self) -> Seq<u8> {
        encode_utf8(self@)
    }

    /// The document that holds `text`.
    pub fn new(text: String) -> (r: Document)
        ensures
            r@ == text@,
    {
        let line_index = LineIndex::new(text.as_str());
        Document { text, line_index }
    }

    /// The text.
    pub fn text(&self) -> (r: &str)
        ensures
            r@ == self@,
    {
        self.text.as_str()
    }

    /// The byte offset of `position`, or `None` where the position lies
    /// beyond its line or beyond the last line.
    pub fn offset(&self, position: Position) -> (r: Option<usize>)
        ensures
            match r {
                Some(off) => is_offset_of(self.bytes(), position, off as int),
                None => forall|off: int| !is_offset_of(self.bytes(), position, off),
            },
    {
        proof {
            use_type_invariant(self);
        }
        self.line_index.offset(self.text.as_str(), position)
    }

    /// The position of `byte_offset`.
    pub fn position_at(&self, byte_offset: usize) -> (r: Position)
        ensures
            r == position_of(self.bytes(), byte_offset as int),
    {
        proof {
            use_type_invariant(self);
        }
        self.line_index.position_at(self.text.as_str(), byte_offset)
    }

    /// The range from the beginning of the text to its end.
    pub fn range(&self) -> (r: Range)
        ensures
            r == full_range_of(self.bytes()),
    {
        proof {
            use_type_invariant(self);
        }
        self.line_index.range(self.text.as_str())
    }
}

// ---------------------------------------------------------------------------
// Parts of a text
// ---------------------------------------------------------------------------

/// Whether the bytes from `start` up to `end` are whole characters of
/// `bytes`.
pub open spec fn valid_span(bytes: Seq<u8>, start: int, end: int) -> bool {
    0 <= start <= end <= bytes.len() && is_char_boundary(bytes, start) && is_char_boundary(
        bytes,
        end,
    )
}

/// The characters that `text` holds from the byte offset `start` up to the
/// byte offset `end`; nothing where these are not the bounds of whole
/// characters of `text`.
pub open spec fn slice_of(text: Seq<char>, start: int, end: int) -> Seq<char> {
    let bytes = encode_utf8(text);
    if valid_span(bytes, start, end) {
        decode_utf8(bytes.subrange(start, end))
    } else {
        Seq::empty()
    }
}

/// The characters that `text` holds from the byte offset `start` up to the
/// byte offset `end`.
pub fn slice_text(text: &str, start: usize, end: usize) -> (r: Vec<char>)
    ensures
        r@ == slice_of(text@, start as int, end as int),
{
    broadcast use vstd::utf8::group_utf8_lib;

    let ghost bytes = encode_utf8(text@);
    let n = text.as_bytes().len();
    let fits = start <= end && end <= n;
    let whole = fits && text.is_char_boundary(start) && text.is_char_boundary(end);
    assert(whole == valid_span(bytes, start as int, end as int));
    if whole {
        let (head, _) = text.split_at(end);
        proof {
            let head_bytes = encode_utf8(head@);
            assert(head_bytes =~= bytes.subrange(0, end as int));
            assert(valid_utf8(bytes));
            vstd::utf8::valid_utf8_split(bytes, end as int);
            if start == end {
                vstd::utf8::is_char_boundary_start_end_of_seq(head_bytes);
            } else {
                vstd::utf8::is_char_boundary_iff_not_is_continuation_byte(bytes, start as int);
                vstd::utf8::is_char_boundary_iff_not_is_continuation_byte(
                    head_bytes,
                    start as int,
                );
                assert(head_bytes[start as int] == bytes[start as int]);
            }
        }
        let (_, part) = head.split_at(start);
        proof {
            let head_bytes = encode_utf8(head@);
            assert(encode_utf8(part@) =~= bytes.subrange(start as int, end as int));
            assert(decode_utf8(encode_utf8(part@)) == part@);
        }
        to_chars(part)
    } else {
        Vec::new()
    }
}

} // verus!
