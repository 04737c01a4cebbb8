//! Inline command placeholders: the spans of a text written as an exclamation
//! mark and a command between backticks.

use crate::segments::{
    lemma_ascii_boundary, lemma_ascii_byte_decoded, lemma_ascii_char_encoded,
    lemma_ascii_text_between, lemma_encode_concat, lemma_scalar_bytes, lemma_subrange_valid,
    lemma_text_between_concat, lemma_text_between_whole, text_between,
};
use vstd::prelude::*;
use vstd::utf8::*;

verus! {

/// The byte of `!`.
pub const BANG: u8 = 0x21;

/// The byte of the backtick.
pub const BACKTICK: u8 = 0x60;

/// The byte of a line feed.
pub const LINE_FEED: u8 = 0x0a;

/// The byte of a carriage return.
pub const CARRIAGE_RETURN: u8 = 0x0d;

/// A placeholder found in a text: the bytes `start..end` of it, and the command
/// between the backticks.
#[derive(Debug, Clone, PartialEq, Eq)]
pub struct InlineCommandPlaceholder {
    pub start: usize,
    pub end: usize,
    pub command: String,
}

/// What an [`InlineCommandPlaceholder`] stands for.
pub struct PlaceholderView {
    pub start: int,
    pub end: int,
    pub command: Seq<char>,
}

impl View for InlineCommandPlaceholder {
    type V = PlaceholderView;

    open spec fn view(&self) -> PlaceholderView {
        PlaceholderView { start: self.start as int, end: self.end as int, command: self.command@ }
    }
}

/// What a list of placeholders stands for.
pub open spec fn placeholder_views(list: Seq<InlineCommandPlaceholder>) -> Seq<PlaceholderView> {
    list.map_values(|p: InlineCommandPlaceholder| p@)
}

/// Whether an exclamation mark and a backtick stand at byte `i`.
pub open spec fn opens_at(bytes: Seq<u8>, i: int) -> bool {
    0 <= i && i + 1 < bytes.len() && bytes[i] == BANG && bytes[i + 1] == BACKTICK
}

/// The bytes that no command holds: the backtick and the line breaks.
pub open spec fn is_stop(byte: u8) -> bool {
    byte == BACKTICK || byte == LINE_FEED || byte == CARRIAGE_RETURN
}

/// The index of the first stop byte at or after `i`, or the length where there
/// is none.
pub open spec fn stop_from(bytes: Seq<u8>, i: int) -> int
    decreases bytes.len() - i,
{
    if i >= bytes.len() {
        bytes.len() as int
    } else if is_stop(bytes[i]) {
        i
    } else {
        stop_from(bytes, i + 1)
    }
}

/// Whether a placeholder is written at byte `i`: it opens there, its command is
/// not empty, and the first stop byte after the opening is the closing backtick.
pub open spec fn placeholder_at(bytes: Seq<u8>, i: int) -> bool {
    let close = stop_from(bytes, i + 2);
    opens_at(bytes, i) && i + 2 < close < bytes.len() && bytes[close] == BACKTICK
}

/// The placeholder written at byte `i`.
pub open spec fn placeholder_of(bytes: Seq<u8>, i: int) -> PlaceholderView {
    let close = stop_from(bytes, i + 2);
    PlaceholderView {
        start: i,
        end: close + 1,
        command: decode_utf8(bytes.subrange(i + 2, close)),
    }
}

/// The placeholders of a text at or after byte `i`, from the left and without
/// overlap.
pub open spec fn placeholders_from(bytes: Seq<u8>, i: int) -> Seq<PlaceholderView>
    decreases bytes.len() - i,
{
    if i >= bytes.len() {
        Seq::empty()
    } else if placeholder_at(bytes, i) {
        seq![placeholder_of(bytes, i)] + placeholders_from(bytes, placeholder_of(bytes, i).end)
    } else {
        placeholders_from(bytes, i + 1)
    }
}

/// The placeholders of a text.
pub open spec fn inline_placeholders(text: Seq<char>) -> Seq<PlaceholderView> {
    placeholders_from(encode_utf8(text), 0)
}

proof fn lemma_stop_from(bytes: Seq<u8>, i: int)
    requires
        0 <= i <= bytes.len(),
    ensures
        i <= stop_from(bytes, i) <= bytes.len(),
        forall|j: int| i <= j < stop_from(bytes, i) ==> !is_stop(#[trigger] bytes[j]),
        stop_from(bytes, i) < bytes.len() ==> is_stop(bytes[stop_from(bytes, i)]),
    decreases bytes.len() - i,
{
    if i < bytes.len() && !is_stop(bytes[i]) {
        lemma_stop_from(bytes, i + 1);
    }
}

/// The first stop byte is where a scan that met none before it arrives.
proof fn lemma_stop_is(bytes: Seq<u8>, i: int, stop: int)
    requires
        0 <= i <= stop <= bytes.len(),
        forall|j: int| i <= j < stop ==> !is_stop(#[trigger] bytes[j]),
        stop < bytes.len() ==> is_stop(bytes[stop]),
    ensures
        stop_from(bytes, i) == stop,
{
    lemma_stop_from(bytes, i);
}

/// A stretch in which no placeholder begins can be passed over.
proof fn lemma_skip(bytes: Seq<u8>, i: int, j: int)
    requires
        0 <= i <= j,
        forall|k: int| i <= k < j ==> !opens_at(bytes, k) || !placeholder_at(bytes, k),
    ensures
        placeholders_from(bytes, i) == placeholders_from(bytes, j),
    decreases j - i,
{
    if i < j {
        if i < bytes.len() {
            assert(!placeholder_at(bytes, i));
        }
        lemma_skip(bytes, i + 1, j);
    }
}

/// The first index at or after `from` at which a placeholder opens.
fn find_opening(bytes: &[u8], from: usize) -> (r: Option<usize>)
    requires
        from <= bytes.len(),
    ensures
        match r {
            Some(start) => from <= start && opens_at(bytes@, start as int) && forall|k: int|
                from <= k < start ==> !opens_at(bytes@, k),
            None => forall|k: int| from <= k ==> !opens_at(bytes@, k),
        },
{
    let mut i: usize = from;
    while bytes.len() - i >= 2
        invariant
            from <= i <= bytes.len(),
            forall|k: int| from <= k < i ==> !opens_at(bytes@, k),
        decreases bytes.len() - i,
    {
        if bytes[i] == BANG && bytes[i + 1] == BACKTICK {
            return Some(i);
        }
        i += 1;
    }
    None
}

/// The index of the first stop byte at or after `from`.
fn find_stop(bytes: &[u8], from: usize) -> (r: usize)
    requires
        from <= bytes.len(),
    ensures
        r == stop_from(bytes@, from as int),
        from <= r <= bytes.len(),
{
    let mut scan: usize = from;
    while scan < bytes.len() && bytes[scan] != BACKTICK && bytes[scan] != LINE_FEED && bytes[scan]
        != CARRIAGE_RETURN
        invariant
            from <= scan <= bytes.len(),
            forall|j: int| from <= j < scan ==> !is_stop(#[trigger] bytes@[j]),
        decreases bytes.len() - scan,
    {
        scan += 1;
    }
    proof {
        lemma_stop_is(bytes@, from as int, scan as int);
    }
    scan
}

/// Finds the inline command placeholders of a text.
///
/// A placeholder does not reach over a line break, so that a missing closing
/// backtick does not take in a large part of the text. One with an empty
/// command is left out.
pub fn collect_inline_command_placeholders(contents: &str) -> (r: Vec<InlineCommandPlaceholder>)
    ensures
        placeholder_views(r@) == inline_placeholders(contents@),
{
    let bytes = contents.as_bytes();
    let ghost text = bytes@;
    let mut placeholders: Vec<InlineCommandPlaceholder> = Vec::new();
    let mut cursor: usize = 0;

    while cursor < bytes.len()
        invariant
            bytes@ == encode_utf8(contents@),
            text == bytes@,
            cursor <= bytes.len(),
            placeholder_views(placeholders@) + placeholders_from(text, cursor as int)
                == inline_placeholders(contents@),
        ensures
            placeholder_views(placeholders@) == inline_placeholders(contents@),
        decreases bytes.len() - cursor,
    {
        let start: usize = match find_opening(bytes, cursor) {
            Some(start) => start,
            None => {
                proof {
                    lemma_skip(text, cursor as int, text.len() as int);
                    assert(placeholder_views(placeholders@) + Seq::empty() =~= placeholder_views(
                        placeholders@,
                    ));
                }
                break;
            },
        };
        let command_start: usize = start + 2;
        let stop: usize = find_stop(bytes, command_start);
        proof {
            lemma_stop_from(text, command_start as int);
            lemma_skip(text, cursor as int, start as int);
        }
        if stop >= bytes.len() {
            proof {
                lemma_skip(text, start as int, command_start as int);
            }
            cursor = command_start;
            continue;
        }
        if bytes[stop] == BACKTICK && stop > command_start {
            proof {
                encode_utf8_valid_utf8(contents@);
                lemma_ascii_boundary(text, start + 1);
            }
            let (head, tail) = contents.split_at(command_start);
            proof {
                encode_utf8_valid_utf8(tail@);
                assert(encode_utf8(tail@)[stop - command_start] == BACKTICK);
                lemma_ascii_boundary(encode_utf8(tail@), stop - command_start);
            }
            let (command, rest) = tail.split_at(stop - command_start);
            proof {
                assert(encode_utf8(command@) =~= text.subrange(command_start as int, stop as int));
                encode_utf8_decode_utf8(command@);
            }
            let ghost before = placeholders@;
            placeholders.push(
                InlineCommandPlaceholder { start, end: stop + 1, command: command.to_owned() },
            );
            proof {
                assert(placeholder_at(text, start as int));
                assert(placeholder_views(placeholders@) =~= placeholder_views(before)
                    + seq![placeholder_of(text, start as int)]);
                assert(placeholder_views(before) + (seq![placeholder_of(text, start as int)]
                    + placeholders_from(text, stop + 1)) =~= placeholder_views(placeholders@)
                    + placeholders_from(text, stop + 1));
            }
        } else {
            proof {
                assert forall|k: int| start <= k < stop + 1 implies !opens_at(text, k)
                    || !placeholder_at(text, k) by {
                    if k > start && opens_at(text, k) {
                        assert(k + 1 <= stop);
                    }
                }
                lemma_skip(text, start as int, stop + 1);
            }
        }
        cursor = stop + 1;
    }
    placeholders
}

/// Every placeholder found from byte `i` on is written where it claims to be,
/// and the placeholders follow one another without overlap.
proof fn lemma_placeholders_from(bytes: Seq<u8>, i: int)
    requires
        0 <= i,
    ensures
        forall|k: int|
            0 <= k < placeholders_from(bytes, i).len() ==> {
                let p = #[trigger] placeholders_from(bytes, i)[k];
                i <= p.start && placeholder_at(bytes, p.start) && p == placeholder_of(
                    bytes,
                    p.start,
                )
            },
        forall|j: int, k: int|
            0 <= j < k < placeholders_from(bytes, i).len() ==> (#[trigger] placeholders_from(
                bytes,
                i,
            )[j]).end <= (#[trigger] placeholders_from(bytes, i)[k]).start,
    decreases bytes.len() - i,
{
    if i >= bytes.len() {
        assert(placeholders_from(bytes, i).len() == 0);
    } else if placeholder_at(bytes, i) {
        let end = placeholder_of(bytes, i).end;
        lemma_placeholders_from(bytes, end);
        let rest = placeholders_from(bytes, end);
        let all = placeholders_from(bytes, i);
        assert forall|k: int| 0 <= k < all.len() implies {
            let p = #[trigger] all[k];
            i <= p.start && placeholder_at(bytes, p.start) && p == placeholder_of(bytes, p.start)
        } by {
            if k > 0 {
                assert(all[k] == rest[k - 1]);
            }
        }
        assert forall|j: int, k: int| 0 <= j < k < all.len() implies (#[trigger] all[j]).end <= (
        #[trigger] all[k]).start by {
            assert(all[k] == rest[k - 1]);
            if j > 0 {
                assert(all[j] == rest[j - 1]);
            }
        }
    } else {
        lemma_placeholders_from(bytes, i + 1);
        assert(placeholders_from(bytes, i) == placeholders_from(bytes, i + 1));
    }
}

/// A placeholder that was found stands in the text as an exclamation mark and
/// its command between backticks, and the command is not empty and holds neither
/// a backtick nor a line break.
pub proof fn law_placeholder_is_written(text: Seq<char>, k: int)
    requires
        0 <= k < inline_placeholders(text).len(),
    ensures
        ({
            let bytes = encode_utf8(text);
            let p = inline_placeholders(text)[k];
            &&& 0 <= p.start < p.end <= bytes.len()
            &&& is_char_boundary(bytes, p.start)
            &&& is_char_boundary(bytes, p.end)
            &&& text_between(bytes, p.start, p.end) == seq!['!', '`'] + p.command + seq!['`']
            &&& text == text_between(bytes, 0, p.start) + text_between(bytes, p.start, p.end)
                + text_between(bytes, p.end, bytes.len() as int)
            &&& p.command.len() > 0
            &&& forall|i: int|
                0 <= i < p.command.len() ==> (#[trigger] p.command[i]) != '`' && p.command[i]
                    != '\n' && p.command[i] != '\r'
        }),
{
    let bytes = encode_utf8(text);
    let p = inline_placeholders(text)[k];
    lemma_placeholders_from(bytes, 0);
    let close = p.end - 1;
    lemma_stop_from(bytes, p.start + 2);
    lemma_text_between_whole(text);
    lemma_ascii_boundary(bytes, p.start);
    lemma_ascii_boundary(bytes, p.start + 1);
    lemma_ascii_boundary(bytes, close);
    lemma_text_between_concat(bytes, 0, p.start, bytes.len() as int);
    lemma_text_between_concat(bytes, p.start, p.end, bytes.len() as int);
    lemma_text_between_concat(bytes, p.start, p.start + 2, p.end);
    lemma_text_between_concat(bytes, p.start + 2, close, p.end);
    lemma_ascii_text_between(bytes, p.start, p.start + 2, seq!['!', '`']);
    lemma_ascii_text_between(bytes, close, p.end, seq!['`']);
    assert(seq!['!', '`'] + (p.command + seq!['`']) =~= seq!['!', '`'] + p.command + seq!['`']);
    assert(text_between(bytes, 0, p.start) + (text_between(bytes, p.start, p.end) + text_between(
        bytes,
        p.end,
        bytes.len() as int,
    )) =~= text_between(bytes, 0, p.start) + text_between(bytes, p.start, p.end) + text_between(
        bytes,
        p.end,
        bytes.len() as int,
    ));
    let body = bytes.subrange(p.start + 2, close);
    lemma_subrange_valid(bytes, p.start + 2, close);
    decode_utf8_encode_utf8(body);
    assert(p.command.len() > 0);
    assert forall|i: int| 0 <= i < p.command.len() implies (#[trigger] p.command[i]) != '`'
        && p.command[i] != '\n' && p.command[i] != '\r' by {
        if p.command[i] == '`' {
            let at = lemma_ascii_char_encoded(p.command, i, '`');
            assert(is_stop(bytes[p.start + 2 + at]));
        } else if p.command[i] == '\n' {
            let at = lemma_ascii_char_encoded(p.command, i, '\n');
            assert(is_stop(bytes[p.start + 2 + at]));
        } else if p.command[i] == '\r' {
            let at = lemma_ascii_char_encoded(p.command, i, '\r');
            assert(is_stop(bytes[p.start + 2 + at]));
        }
    }
}

/// Placeholders are found in the order in which they stand, and none overlaps
/// another.
pub proof fn law_placeholders_in_order(text: Seq<char>, j: int, k: int)
    requires
        0 <= j < k < inline_placeholders(text).len(),
    ensures
        inline_placeholders(text)[j].end <= inline_placeholders(text)[k].start,
{
    lemma_placeholders_from(encode_utf8(text), 0);
}

proof fn lemma_no_placeholder_missed(bytes: Seq<u8>, i: int, s: int) -> (k: int)
    requires
        0 <= i <= s,
        placeholder_at(bytes, s),
    ensures
        0 <= k < placeholders_from(bytes, i).len(),
        placeholders_from(bytes, i)[k].start <= s < placeholders_from(bytes, i)[k].end,
    decreases bytes.len() - i,
{
    if placeholder_at(bytes, i) {
        let end = placeholder_of(bytes, i).end;
        lemma_stop_from(bytes, i + 2);
        if s < end {
            0
        } else {
            let k = lemma_no_placeholder_missed(bytes, end, s);
            assert(placeholders_from(bytes, i)[k + 1] == placeholders_from(bytes, end)[k]);
            k + 1
        }
    } else {
        lemma_no_placeholder_missed(bytes, i + 1, s)
    }
}

/// No placeholder is missed: where one is written, it is found, unless it begins
/// inside one that was found.
pub proof fn law_no_placeholder_missed(text: Seq<char>, s: int)
    requires
        placeholder_at(encode_utf8(text), s),
    ensures
        exists|k: int|
            0 <= k < inline_placeholders(text).len() && {
                let p = #[trigger] inline_placeholders(text)[k];
                p == placeholder_of(encode_utf8(text), s) || p.start < s < p.end
            },
{
    let k = lemma_no_placeholder_missed(encode_utf8(text), 0, s);
    lemma_placeholders_from(encode_utf8(text), 0);
    assert(inline_placeholders(text)[k].start <= s);
}

/// A placeholder in a text that stands `offset` bytes further on.
pub open spec fn moved(p: PlaceholderView, offset: int) -> PlaceholderView {
    PlaceholderView { start: p.start + offset, end: p.end + offset, command: p.command }
}

/// Placeholders in a text that stands `offset` bytes further on.
pub open spec fn all_moved(list: Seq<PlaceholderView>, offset: int) -> Seq<PlaceholderView> {
    list.map_values(|p: PlaceholderView| moved(p, offset))
}

proof fn lemma_stop_before_break(a: Seq<u8>, b: Seq<u8>, i: int)
    requires
        b.len() > 0,
        is_stop(b[0]),
        0 <= i <= a.len(),
    ensures
        stop_from(a + b, i) == stop_from(a, i),
    decreases a.len() - i,
{
    if i < a.len() && !is_stop(a[i]) {
        lemma_stop_before_break(a, b, i + 1);
    }
}

proof fn lemma_stop_moved(a: Seq<u8>, b: Seq<u8>, i: int)
    requires
        0 <= i,
    ensures
        stop_from(a + b, a.len() + i) == a.len() + stop_from(b, i),
    decreases b.len() - i,
{
    if i < b.len() && !is_stop(b[i]) {
        lemma_stop_moved(a, b, i + 1);
    }
}

proof fn lemma_placeholders_moved(a: Seq<u8>, b: Seq<u8>, i: int)
    requires
        0 <= i,
    ensures
        placeholders_from(a + b, a.len() + i) == all_moved(
            placeholders_from(b, i),
            a.len() as int,
        ),
    decreases b.len() - i,
{
    let n = a.len() as int;
    if i >= b.len() {
        assert(all_moved(placeholders_from(b, i), n) =~= Seq::<PlaceholderView>::empty());
    } else {
        lemma_stop_moved(a, b, i + 2);
        assert(opens_at(a + b, n + i) == opens_at(b, i));
        assert(placeholder_at(a + b, n + i) == placeholder_at(b, i));
        if placeholder_at(b, i) {
            let p = placeholder_of(b, i);
            lemma_placeholders_moved(a, b, p.end);
            assert((a + b).subrange(n + i + 2, n + p.end - 1) =~= b.subrange(i + 2, p.end - 1));
            assert(placeholder_of(a + b, n + i) == moved(p, n));
            assert(all_moved(placeholders_from(b, i), n) =~= seq![moved(p, n)] + all_moved(
                placeholders_from(b, p.end),
                n,
            ));
        } else {
            lemma_placeholders_moved(a, b, i + 1);
        }
    }
}

proof fn lemma_placeholders_before_break(a: Seq<u8>, b: Seq<u8>, i: int)
    requires
        b.len() > 0,
        b[0] == LINE_FEED || b[0] == CARRIAGE_RETURN,
        0 <= i <= a.len(),
    ensures
        placeholders_from(a + b, i) == placeholders_from(a, i) + placeholders_from(
            a + b,
            a.len() as int + 1,
        ),
    decreases a.len() - i,
{
    let rest = placeholders_from(a + b, a.len() as int + 1);
    if i == a.len() {
        assert(!placeholder_at(a + b, i));
        assert(placeholders_from(a, i) + rest =~= rest);
    } else {
        if i + 2 <= a.len() {
            lemma_stop_before_break(a, b, i + 2);
            lemma_stop_from(a, i + 2);
        }
        assert(opens_at(a + b, i) == opens_at(a, i));
        assert(placeholder_at(a + b, i) == placeholder_at(a, i));
        if placeholder_at(a, i) {
            let p = placeholder_of(a, i);
            lemma_placeholders_before_break(a, b, p.end);
            assert((a + b).subrange(i + 2, p.end - 1) =~= a.subrange(i + 2, p.end - 1));
            assert(seq![p] + (placeholders_from(a, p.end) + rest) =~= (seq![p] + placeholders_from(
                a,
                p.end,
            )) + rest);
        } else {
            lemma_placeholders_before_break(a, b, i + 1);
        }
    }
}

/// A line break parts a text: what stands before it and what stands after it are
/// searched as if each were alone. So a placeholder that is left open loses its
/// own line at most.
pub proof fn law_line_break_parts_text(a: Seq<char>, line_break: char, b: Seq<char>)
    requires
        line_break == '\n' || line_break == '\r',
    ensures
        inline_placeholders(a + seq![line_break] + b) == inline_placeholders(a) + all_moved(
            inline_placeholders(b),
            encode_utf8(a).len() as int + 1,
        ),
{
    let middle = seq![line_break];
    is_ascii_chars_encode_utf8(middle);
    assert(middle[0] as u8 == encode_utf8(middle)[0]);
    lemma_encode_concat(a + middle, b);
    lemma_encode_concat(a, middle);
    let x = encode_utf8(a);
    let y = encode_utf8(middle) + encode_utf8(b);
    assert(x + y =~= encode_utf8(a + middle + b));
    lemma_placeholders_before_break(x, y, 0);
    let z = x + encode_utf8(middle);
    assert(z + encode_utf8(b) =~= x + y);
    lemma_placeholders_moved(z, encode_utf8(b), 0);
}

/// No placeholder opens in the bytes of a text that holds no exclamation mark
/// before a backtick, nor at its end where no backtick follows.
proof fn lemma_no_opening(a: Seq<char>, y: Seq<u8>)
    requires
        forall|i: int, j: int| #[trigger]
            a[i] == '!' && 0 <= i && j == i + 1 && j < a.len() ==> #[trigger] a[j] != '`',
        y.len() > 0 ==> y[0] != 0x60,
    ensures
        forall|k: int|
            0 <= k < encode_utf8(a).len() ==> !(#[trigger] opens_at(encode_utf8(a) + y, k)),
    decreases a.len(),
{
    if a.len() > 0 {
        let first = encode_scalar(a[0] as u32);
        let rest = a.drop_first();
        let bytes = encode_utf8(a) + y;
        let tail = encode_utf8(rest) + y;
        lemma_no_opening(rest, y);
        lemma_scalar_bytes(a[0]);
        assert(bytes =~= first + tail);
        assert forall|k: int| 0 <= k < encode_utf8(a).len() implies !(#[trigger] opens_at(
            bytes,
            k,
        )) by {
            if k >= first.len() {
                assert(opens_at(bytes, k) == opens_at(tail, k - first.len()));
            } else if opens_at(bytes, k) {
                assert(first[k] == BANG);
                assert(a[0] == '!');
                assert(tail[0] == BACKTICK);
                if rest.len() > 0 {
                    lemma_scalar_bytes(rest[0]);
                    assert(tail[0] == encode_scalar(rest[0] as u32)[0]);
                    assert(rest[0] == '`');
                    assert(a[1] == '`');
                }
            }
        }
    }
}

/// No byte of a one-line text without a backtick ends the search for the end of a
/// command.
proof fn lemma_no_stop(command: Seq<char>)
    requires
        forall|i: int|
            0 <= i < command.len() ==> (#[trigger] command[i]) != '`' && command[i] != '\n'
                && command[i] != '\r',
    ensures
        forall|k: int|
            0 <= k < encode_utf8(command).len() ==> !is_stop(#[trigger] encode_utf8(command)[k]),
{
    assert forall|k: int| 0 <= k < encode_utf8(command).len() implies !is_stop(
        #[trigger] encode_utf8(command)[k],
    ) by {
        if is_stop(encode_utf8(command)[k]) {
            let i = lemma_ascii_byte_decoded(command, k);
            assert(command[i] != '`' && command[i] != '\n' && command[i] != '\r');
        }
    }
}

/// The bytes of a text with its first opening, a stretch without a stop, and what
/// follows.
spec fn opened_bytes(a: Seq<char>, command: Seq<char>, t: Seq<u8>) -> Seq<u8> {
    encode_utf8(a) + seq![BANG, BACKTICK] + encode_utf8(command) + t
}

proof fn lemma_first_opening(a: Seq<char>, command: Seq<char>, t: Seq<u8>)
    requires
        forall|i: int, j: int| #[trigger]
            a[i] == '!' && 0 <= i && j == i + 1 && j < a.len() ==> #[trigger] a[j] != '`',
        forall|i: int|
            0 <= i < command.len() ==> (#[trigger] command[i]) != '`' && command[i] != '\n'
                && command[i] != '\r',
        t.len() > 0 ==> is_stop(t[0]),
    ensures
        ({
            let bytes = opened_bytes(a, command, t);
            let n = encode_utf8(a).len() as int;
            let close = n + 2 + encode_utf8(command).len();
            &&& opens_at(bytes, n)
            &&& stop_from(bytes, n + 2) == close
            &&& placeholders_from(bytes, 0) == placeholders_from(bytes, n)
            &&& !placeholder_at(bytes, n) ==> placeholders_from(bytes, 0) == placeholders_from(
                bytes,
                if t.len() > 0 {
                    close + 1
                } else {
                    close
                },
            )
        }),
{
    let x = encode_utf8(a);
    let m = encode_utf8(command);
    let bytes = opened_bytes(a, command, t);
    let n = x.len() as int;
    let close = n + 2 + m.len();
    let y = seq![BANG, BACKTICK] + m + t;
    assert(bytes =~= x + y);
    lemma_no_opening(a, y);
    lemma_no_stop(command);
    lemma_skip(bytes, 0, n);
    assert forall|j: int| n + 2 <= j < close implies !is_stop(#[trigger] bytes[j]) by {
        assert(bytes[j] == m[j - n - 2]);
    }
    if t.len() > 0 {
        assert(bytes[close] == t[0]);
    }
    lemma_stop_is(bytes, n + 2, close);
    if !placeholder_at(bytes, n) {
        let next = if t.len() > 0 {
            close + 1
        } else {
            close
        };
        assert forall|k: int| n <= k < next implies !opens_at(bytes, k) || !placeholder_at(
            bytes,
            k,
        ) by {
            if k > n + 1 && k < close {
                assert(!is_stop(bytes[k]));
                if k + 1 < close {
                    assert(!is_stop(bytes[k + 1]));
                } else if opens_at(bytes, k) {
                    let q = stop_from(bytes, k + 2);
                    assert(bytes[close] == BACKTICK);
                    assert(command.len() > 0);
                    assert(placeholder_at(bytes, n));
                }
            }
        }
        lemma_skip(bytes, n, next);
    }
}

/// The placeholders of a text that holds no exclamation mark before a backtick:
/// there are none.
pub proof fn law_text_without_opening_has_none(text: Seq<char>)
    requires
        forall|i: int, j: int| #[trigger]
            text[i] == '!' && 0 <= i && j == i + 1 && j < text.len() ==> #[trigger] text[j] != '`',
    ensures
        inline_placeholders(text).len() == 0,
{
    let bytes = encode_utf8(text);
    lemma_no_opening(text, Seq::empty());
    assert(bytes + Seq::<u8>::empty() =~= bytes);
    lemma_skip(bytes, 0, bytes.len() as int);
}

/// A command on one line, without a backtick, between the first opening of a text
/// and a backtick is found, whatever else the command holds and whatever follows
/// it; and what follows is searched as if it stood alone.
pub proof fn law_first_placeholder_is_found(a: Seq<char>, command: Seq<char>, b: Seq<char>)
    requires
        forall|i: int, j: int| #[trigger]
            a[i] == '!' && 0 <= i && j == i + 1 && j < a.len() ==> #[trigger] a[j] != '`',
        command.len() > 0,
        forall|i: int|
            0 <= i < command.len() ==> (#[trigger] command[i]) != '`' && command[i] != '\n'
                && command[i] != '\r',
    ensures
        ({
            let written = a + seq!['!', '`'] + command + seq!['`'];
            let found = inline_placeholders(written + b);
            let rest = inline_placeholders(b);
            let offset = encode_utf8(written).len();
            &&& found.len() == rest.len() + 1
            &&& found[0].start == encode_utf8(a).len()
            &&& found[0].end == offset
            &&& found[0].command == command
            &&& forall|k: int|
                0 <= k < rest.len() ==> {
                    &&& (#[trigger] rest[k]).start + offset == found[k + 1].start
                    &&& rest[k].end + offset == found[k + 1].end
                    &&& rest[k].command == found[k + 1].command
                }
        }),
{
    let written = a + seq!['!', '`'] + command + seq!['`'];
    let x = encode_utf8(written);
    let z = encode_utf8(b);
    let m = encode_utf8(command);
    let t = seq![BACKTICK] + z;
    let bytes = opened_bytes(a, command, t);
    let n = encode_utf8(a).len() as int;
    lemma_encode_concat(written, b);
    lemma_written(a, command, seq!['`'], b);
    assert(x =~= encode_utf8(a) + seq![BANG, BACKTICK] + m + seq![BACKTICK]);
    assert(bytes =~= x + z);
    lemma_first_opening(a, command, t);
    let close = n + 2 + m.len();
    assert(bytes[close] == BACKTICK);
    assert(m.len() > 0) by {
        lemma_scalar_bytes(command[0]);
    }
    assert(placeholder_at(bytes, n));
    lemma_placeholders_moved(x, z, 0);
    assert(bytes.subrange(n + 2, close) =~= m);
    encode_utf8_decode_utf8(command);
    let rest = inline_placeholders(b);
    let found = inline_placeholders(written + b);
    assert(found == seq![placeholder_of(bytes, n)] + all_moved(rest, x.len() as int));
    assert forall|k: int| 0 <= k < rest.len() implies {
        &&& (#[trigger] rest[k]).start + x.len() == found[k + 1].start
        &&& rest[k].end + x.len() == found[k + 1].end
        &&& rest[k].command == found[k + 1].command
    } by {
        assert(found[k + 1] == moved(rest[k], x.len() as int));
    }
}

/// How a text with an opening and a mark after it is encoded.
proof fn lemma_written(a: Seq<char>, command: Seq<char>, mark: Seq<char>, b: Seq<char>)
    requires
        is_ascii_chars(mark),
    ensures
        encode_utf8(a + seq!['!', '`'] + command + mark) == encode_utf8(a) + seq![BANG, BACKTICK]
            + encode_utf8(command) + encode_utf8(mark),
        encode_utf8(a + seq!['!', '`'] + command + mark + b) == encode_utf8(a) + seq![
            BANG,
            BACKTICK,
        ] + encode_utf8(command) + encode_utf8(mark) + encode_utf8(b),
        mark.len() == encode_utf8(mark).len(),
        mark.len() > 0 ==> encode_utf8(mark)[0] == mark[0] as u8,
{
    let open = seq!['!', '`'];
    lemma_encode_concat(a + open + command + mark, b);
    lemma_encode_concat(a + open + command, mark);
    lemma_encode_concat(a + open, command);
    lemma_encode_concat(a, open);
    is_ascii_chars_encode_utf8(open);
    is_ascii_chars_encode_utf8(mark);
    assert(encode_utf8(open)[0] == open[0] as u8 && encode_utf8(open)[1] == open[1] as u8);
    assert(encode_utf8(open) =~= seq![BANG, BACKTICK]);
    if mark.len() > 0 {
        assert(encode_utf8(mark)[0] == mark[0] as u8);
    }
}

/// Nothing is found where nothing stands between the first opening of a text and a
/// backtick, nor where a line break comes before a backtick; what follows is
/// searched as if it stood alone.
pub proof fn law_unfinished_placeholder_is_passed_over(
    a: Seq<char>,
    command: Seq<char>,
    mark: char,
    b: Seq<char>,
)
    requires
        forall|i: int, j: int| #[trigger]
            a[i] == '!' && 0 <= i && j == i + 1 && j < a.len() ==> #[trigger] a[j] != '`',
        forall|i: int|
            0 <= i < command.len() ==> (#[trigger] command[i]) != '`' && command[i] != '\n'
                && command[i] != '\r',
        mark == '\n' || mark == '\r' || (mark == '`' && command.len() == 0),
    ensures
        ({
            let written = a + seq!['!', '`'] + command + seq![mark];
            let found = inline_placeholders(written + b);
            let rest = inline_placeholders(b);
            let offset = encode_utf8(written).len();
            &&& found.len() == rest.len()
            &&& forall|k: int|
                0 <= k < rest.len() ==> {
                    &&& (#[trigger] rest[k]).start + offset == found[k].start
                    &&& rest[k].end + offset == found[k].end
                    &&& rest[k].command == found[k].command
                }
        }),
{
    let written = a + seq!['!', '`'] + command + seq![mark];
    let x = encode_utf8(written);
    let z = encode_utf8(b);
    let t = encode_utf8(seq![mark]) + z;
    let bytes = opened_bytes(a, command, t);
    let n = encode_utf8(a).len() as int;
    lemma_encode_concat(written, b);
    lemma_written(a, command, seq![mark], b);
    assert(bytes =~= x + z);
    assert(t[0] == mark as u8);
    lemma_first_opening(a, command, t);
    let close = n + 2 + encode_utf8(command).len();
    assert(bytes[close] == t[0]);
    assert(!placeholder_at(bytes, n));
    lemma_placeholders_moved(x, z, 0);
    let rest = inline_placeholders(b);
    let found = inline_placeholders(written + b);
    assert(found == all_moved(rest, x.len() as int));
    assert forall|k: int| 0 <= k < rest.len() implies {
        &&& (#[trigger] rest[k]).start + x.len() == found[k].start
        &&& rest[k].end + x.len() == found[k].end
        &&& rest[k].command == found[k].command
    } by {
        assert(found[k] == moved(rest[k], x.len() as int));
    }
}

/// Nothing is found where neither a backtick nor a line break follows the first
/// opening of a text.
pub proof fn law_placeholder_without_end_is_none(a: Seq<char>, command: Seq<char>)
    requires
        forall|i: int, j: int| #[trigger]
            a[i] == '!' && 0 <= i && j == i + 1 && j < a.len() ==> #[trigger] a[j] != '`',
        forall|i: int|
            0 <= i < command.len() ==> (#[trigger] command[i]) != '`' && command[i] != '\n'
                && command[i] != '\r',
    ensures
        inline_placeholders(a + seq!['!', '`'] + command).len() == 0,
{
    let none = Seq::<u8>::empty();
    let bytes = opened_bytes(a, command, none);
    lemma_written(a, command, Seq::empty(), Seq::empty());
    assert(a + seq!['!', '`'] + command + Seq::empty() =~= a + seq!['!', '`'] + command);
    assert(encode_utf8(Seq::<char>::empty()) =~= none);
    assert(bytes == encode_utf8(a + seq!['!', '`'] + command));
    lemma_first_opening(a, command, none);
}

/// What a list of placeholders stands for is what stands in the list.
pub proof fn law_placeholder_views_are_the_list(list: Seq<InlineCommandPlaceholder>, i: int)
    requires
        0 <= i < list.len(),
    ensures
        placeholder_views(list).len() == list.len(),
        placeholder_views(list)[i].start == list[i].start,
        placeholder_views(list)[i].end == list[i].end,
        placeholder_views(list)[i].command == list[i].command@,
{
}

} // verus!
