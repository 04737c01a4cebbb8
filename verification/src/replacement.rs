//! Replacing stretches of a text that are named by byte offsets.

use crate::segments::{
    lemma_encode_concat, lemma_subrange_valid, lemma_text_between_concat,
    lemma_text_between_whole, text_between,
};
use crate::text::occurs_at;
use vstd::prelude::*;
use vstd::utf8::*;

verus! {

/// A text that takes the place of the bytes `start..end` of another.
pub struct ReplacementView {
    pub start: int,
    pub end: int,
    pub text: Seq<char>,
}

/// What a list of replacements stands for.
pub open spec fn replacement_views(list: Seq<(usize, usize, String)>) -> Seq<ReplacementView> {
    list.map_values(
        |r: (usize, usize, String)|
            ReplacementView { start: r.0 as int, end: r.1 as int, text: r.2@ },
    )
}

/// Where the text that is kept goes on after the first `n` replacements.
pub open spec fn resume_at(list: Seq<ReplacementView>, n: int) -> int {
    if n <= 0 {
        0
    } else {
        list[n - 1].end
    }
}

/// Whether the replacement at index `i` names character boundaries of the text
/// and begins no earlier than the text goes on after the one before it.
pub open spec fn fits_at(bytes: Seq<u8>, list: Seq<ReplacementView>, i: int) -> bool {
    &&& resume_at(list, i) <= list[i].start
    &&& is_char_boundary(bytes, list[i].start)
    &&& is_char_boundary(bytes, list[i].end)
}

/// Whether the replacements can be applied to the text, one after the other.
pub open spec fn replacements_fit(bytes: Seq<u8>, list: Seq<ReplacementView>) -> bool {
    forall|i: int| 0 <= i < list.len() ==> #[trigger] fits_at(bytes, list, i)
}

/// The text up to and with the first `n` replacements.
pub open spec fn spliced_to(bytes: Seq<u8>, list: Seq<ReplacementView>, n: int) -> Seq<char>
    decreases n,
{
    if n <= 0 {
        Seq::empty()
    } else {
        spliced_to(bytes, list, n - 1) + text_between(
            bytes,
            resume_at(list, n - 1),
            list[n - 1].start,
        ) + list[n - 1].text
    }
}

/// The text with all the replacements made: each stretch between two of them is
/// kept, and so is what follows the last.
pub open spec fn spliced(bytes: Seq<u8>, list: Seq<ReplacementView>) -> Seq<char> {
    spliced_to(bytes, list, list.len() as int) + text_between(
        bytes,
        resume_at(list, list.len() as int),
        bytes.len() as int,
    )
}

/// The stretch of `contents` between two of its character boundaries.
fn slice_of(contents: &str, from: usize, to: usize) -> (r: &str)
    requires
        from <= to,
        is_char_boundary(encode_utf8(contents@), from as int),
        is_char_boundary(encode_utf8(contents@), to as int),
    ensures
        r@ == text_between(encode_utf8(contents@), from as int, to as int),
{
    let ghost bytes = encode_utf8(contents@);
    proof {
        encode_utf8_valid_utf8(contents@);
        lemma_subrange_valid(bytes, from as int, to as int);
    }
    let (head, tail) = contents.split_at(from);
    let (r, rest) = tail.split_at(to - from);
    proof {
        assert(encode_utf8(r@) =~= bytes.subrange(from as int, to as int));
        encode_utf8_decode_utf8(r@);
    }
    r
}

/// Replaces the given stretches of `contents`. The offsets are character
/// boundaries, and each replacement begins no earlier than the one before it
/// ends.
pub fn apply_replacements(contents: &str, replacements: &[(usize, usize, String)]) -> (r: String)
    requires
        replacements_fit(encode_utf8(contents@), replacement_views(replacements@)),
    ensures
        r@ == spliced(encode_utf8(contents@), replacement_views(replacements@)),
{
    let ghost bytes = encode_utf8(contents@);
    let ghost views = replacement_views(replacements@);
    proof {
        lemma_text_between_whole(contents@);
    }
    let mut rendered = String::new();
    let mut last: usize = 0;
    let mut i: usize = 0;
    while i < replacements.len()
        invariant
            bytes == encode_utf8(contents@),
            views == replacement_views(replacements@),
            replacements_fit(bytes, views),
            i <= replacements.len(),
            last == resume_at(views, i as int),
            is_char_boundary(bytes, last as int),
            rendered@ == spliced_to(bytes, views, i as int),
        decreases replacements.len() - i,
    {
        assert(fits_at(bytes, views, i as int));
        let start: usize = replacements[i].0;
        rendered.append(slice_of(contents, last, start));
        rendered.append(replacements[i].2.as_str());
        last = replacements[i].1;
        i += 1;
    }
    proof {
        lemma_subrange_valid(bytes, last as int, bytes.len() as int);
    }
    let end: usize = contents.as_bytes().len();
    rendered.append(slice_of(contents, last, end));
    rendered
}

/// With nothing to replace, the text is left as it is.
pub proof fn law_nothing_replaced(contents: Seq<char>)
    ensures
        replacements_fit(encode_utf8(contents), Seq::empty()),
        spliced(encode_utf8(contents), Seq::empty()) == contents,
{
    lemma_text_between_whole(contents);
    assert(spliced(encode_utf8(contents), Seq::empty()) =~= contents);
}

proof fn lemma_spliced_grows(bytes: Seq<u8>, list: Seq<ReplacementView>, n: int, m: int)
    requires
        0 <= n <= m,
    ensures
        spliced_to(bytes, list, n).is_prefix_of(spliced_to(bytes, list, m)),
    decreases m - n,
{
    if n < m {
        lemma_spliced_grows(bytes, list, n, m - 1);
    }
}

/// Every replacement stands in the result, after what comes before it.
pub proof fn law_replacement_stands_in_result(
    bytes: Seq<u8>,
    list: Seq<ReplacementView>,
    j: int,
)
    requires
        0 <= j < list.len(),
    ensures
        occurs_at(
            spliced(bytes, list),
            list[j].text,
            (spliced_to(bytes, list, j) + text_between(
                bytes,
                resume_at(list, j),
                list[j].start,
            )).len() as int,
        ),
{
    let before = spliced_to(bytes, list, j) + text_between(
        bytes,
        resume_at(list, j),
        list[j].start,
    );
    let text = list[j].text;
    let whole = spliced(bytes, list);
    lemma_spliced_grows(bytes, list, j + 1, list.len() as int);
    let so_far = spliced_to(bytes, list, j + 1);
    assert(so_far == before + text);
    assert(so_far.is_prefix_of(whole));
    assert(whole.subrange(0, so_far.len() as int) == so_far);
    assert(whole.subrange(before.len() as int, (before.len() + text.len()) as int) =~= text) by {
        assert forall|i: int| 0 <= i < text.len() implies whole[before.len() + i] == text[i] by {
            assert(so_far[before.len() + i] == whole.subrange(0, so_far.len() as int)[before.len()
                + i]);
        }
    }
}

proof fn lemma_restored_to(contents: Seq<char>, list: Seq<ReplacementView>, n: int)
    requires
        replacements_fit(encode_utf8(contents), list),
        forall|i: int| 0 <= i < list.len() ==> (#[trigger] list[i]).start <= list[i].end,
        forall|i: int|
            0 <= i < list.len() ==> (#[trigger] list[i]).text == text_between(
                encode_utf8(contents),
                list[i].start,
                list[i].end,
            ),
        0 <= n <= list.len(),
    ensures
        is_char_boundary(encode_utf8(contents), resume_at(list, n)),
        0 <= resume_at(list, n),
        spliced_to(encode_utf8(contents), list, n) == text_between(
            encode_utf8(contents),
            0,
            resume_at(list, n),
        ),
    decreases n,
{
    let bytes = encode_utf8(contents);
    lemma_text_between_whole(contents);
    if n == 0 {
        assert(bytes.subrange(0, 0) =~= Seq::<u8>::empty());
    } else {
        lemma_restored_to(contents, list, n - 1);
        assert(fits_at(bytes, list, n - 1));
        let r = list[n - 1];
        lemma_text_between_concat(bytes, 0, resume_at(list, n - 1), r.start);
        lemma_text_between_concat(bytes, 0, r.start, r.end);
    }
}

/// Only the replaced stretches change: where each of them is replaced by the
/// text that it holds, the whole text is what it was.
pub proof fn law_rest_is_kept(contents: Seq<char>, list: Seq<ReplacementView>)
    requires
        replacements_fit(encode_utf8(contents), list),
        forall|i: int| 0 <= i < list.len() ==> (#[trigger] list[i]).start <= list[i].end,
        forall|i: int|
            0 <= i < list.len() ==> (#[trigger] list[i]).text == text_between(
                encode_utf8(contents),
                list[i].start,
                list[i].end,
            ),
    ensures
        spliced(encode_utf8(contents), list) == contents,
{
    let bytes = encode_utf8(contents);
    let n = list.len() as int;
    lemma_restored_to(contents, list, n);
    lemma_text_between_whole(contents);
    lemma_subrange_valid(bytes, resume_at(list, n), bytes.len() as int);
    lemma_text_between_concat(bytes, 0, resume_at(list, n), bytes.len() as int);
}

/// Replacements that name character boundaries, and of which each begins no earlier
/// than the one before it ends, can be made.
pub proof fn law_replacements_in_order_fit(bytes: Seq<u8>, list: Seq<ReplacementView>)
    requires
        forall|i: int|
            0 <= i < list.len() ==> is_char_boundary(bytes, (#[trigger] list[i]).start)
                && is_char_boundary(bytes, list[i].end),
        forall|i: int, j: int|
            0 <= i && j == i + 1 && j < list.len() ==> (#[trigger] list[i]).end <= (
            #[trigger] list[j]).start,
        list.len() > 0 ==> 0 <= list[0].start,
    ensures
        replacements_fit(bytes, list),
{
    assert forall|i: int| 0 <= i < list.len() implies #[trigger] fits_at(bytes, list, i) by {
        if i > 0 {
            assert(list[i - 1].end <= list[i].start);
        }
    }
}

proof fn lemma_spliced_before(
    bytes: Seq<u8>,
    list: Seq<ReplacementView>,
    r: ReplacementView,
    n: int,
)
    requires
        0 <= n <= list.len(),
    ensures
        spliced_to(bytes, list.push(r), n) == spliced_to(bytes, list, n),
        resume_at(list.push(r), n) == resume_at(list, n),
    decreases n,
{
    if n > 0 {
        lemma_spliced_before(bytes, list, r, n - 1);
        assert(list.push(r)[n - 1] == list[n - 1]);
    }
}

/// One more replacement, behind all the others, leaves what stands before it as the
/// others made it, and puts in place of all that stands behind its start its own
/// text and what stands behind its end.
pub proof fn law_replacement_takes_its_place(
    contents: Seq<char>,
    head: Seq<char>,
    behind_start: Seq<char>,
    front: Seq<char>,
    behind_end: Seq<char>,
    list: Seq<ReplacementView>,
    text: Seq<char>,
)
    requires
        contents == head + behind_start,
        contents == front + behind_end,
        list.len() > 0 ==> list.last().end <= encode_utf8(head).len() && is_char_boundary(
            encode_utf8(contents),
            list.last().end,
        ),
    ensures
        ({
            let one_more = ReplacementView {
                start: encode_utf8(head).len() as int,
                end: encode_utf8(front).len() as int,
                text,
            };
            let before = spliced(encode_utf8(contents), list);
            spliced(encode_utf8(contents), list.push(one_more)) == before.take(
                before.len() - behind_start.len(),
            ) + text + behind_end
        }),
{
    let bytes = encode_utf8(contents);
    let n = list.len() as int;
    let start = encode_utf8(head).len() as int;
    let end = encode_utf8(front).len() as int;
    let one_more = ReplacementView { start, end, text };
    let before = spliced(bytes, list);
    let from = resume_at(list, n);
    lemma_encode_concat(head, behind_start);
    lemma_encode_concat(front, behind_end);
    lemma_text_between_whole(contents);
    lemma_boundary(head, behind_start);
    assert(bytes.subrange(start, bytes.len() as int) =~= encode_utf8(behind_start));
    assert(bytes.subrange(end, bytes.len() as int) =~= encode_utf8(behind_end));
    encode_utf8_decode_utf8(behind_start);
    encode_utf8_decode_utf8(behind_end);
    lemma_spliced_before(bytes, list, one_more, n);
    lemma_text_between_concat(bytes, from, start, bytes.len() as int);
    let kept = spliced_to(bytes, list, n) + text_between(bytes, from, start);
    assert(before =~= kept + behind_start);
    assert(before.take(before.len() - behind_start.len()) =~= kept);
    assert(list.push(one_more)[n] == one_more);
    assert(spliced_to(bytes, list.push(one_more), n + 1) == kept + text);
}

/// Behind a text a character of what follows it begins.
proof fn lemma_boundary(a: Seq<char>, b: Seq<char>)
    ensures
        is_char_boundary(encode_utf8(a + b), encode_utf8(a).len() as int),
    decreases a.len(),
{
    let bytes = encode_utf8(a + b);
    lemma_encode_concat(a, b);
    encode_utf8_valid_utf8(a + b);
    if a.len() == 0 {
        is_char_boundary_start_end_of_seq(bytes);
    } else {
        let rest = a.drop_first();
        assert((a + b).drop_first() =~= rest + b);
        lemma_boundary(rest, b);
        encode_utf8_first_scalar(a + b);
        assert((a + b)[0] == a[0]);
        assert(pop_first_scalar(bytes) =~= encode_utf8(rest + b));
        assert(encode_utf8(a).len() == encode_scalar(a[0] as u32).len() + encode_utf8(rest).len());
    }
}

/// What a list of replacements stands for is what stands in the list.
pub proof fn law_replacement_views_are_the_list(list: Seq<(usize, usize, String)>, i: int)
    requires
        0 <= i < list.len(),
    ensures
        replacement_views(list).len() == list.len(),
        replacement_views(list)[i].start == list[i].0,
        replacement_views(list)[i].end == list[i].1,
        replacement_views(list)[i].text == list[i].2@,
{
}

} // verus!
