//! What holds of every block that takes the place of a placeholder.

use crate::output::RunOutputView;
use crate::render::{
    body_text, escaped, escaped_char, exit_code_text, neutralized, outcome_text, rendered_block,
};
use crate::text::{
    contains_text, law_replacement_goes_from_the_left, lemma_beginning_kept,
    lemma_beginning_passed, lemma_occurrence_survives, lemma_replaced_is_free, occurs_at,
    replace_all, signed_decimal,
};
use vstd::prelude::*;

verus! {

proof fn lemma_escaped_char(c: char)
    ensures
        escaped_char(c).len() > 0,
        forall|k: int|
            0 <= k < escaped_char(c).len() ==> (#[trigger] escaped_char(c)[k]) != '"'
                && escaped_char(c)[k] != '<' && escaped_char(c)[k] != '>',
        c == '&' ==> escaped_char(c) == seq!['&', 'a', 'm', 'p', ';'],
        c == '"' ==> escaped_char(c) == seq!['&', 'q', 'u', 'o', 't', ';'],
        c == '<' ==> escaped_char(c) == seq!['&', 'l', 't', ';'],
        c == '>' ==> escaped_char(c) == seq!['&', 'g', 't', ';'],
{
    reveal_strlit("&amp;");
    reveal_strlit("&quot;");
    reveal_strlit("&lt;");
    reveal_strlit("&gt;");
    assert("&amp;"@ =~= seq!['&', 'a', 'm', 'p', ';']);
    assert("&quot;"@ =~= seq!['&', 'q', 'u', 'o', 't', ';']);
    assert("&lt;"@ =~= seq!['&', 'l', 't', ';']);
    assert("&gt;"@ =~= seq!['&', 'g', 't', ';']);
}

/// An attribute value holds no quote and no angle bracket, whatever the command.
pub proof fn law_escaped_holds_no_markup(value: Seq<char>)
    ensures
        forall|k: int|
            0 <= k < escaped(value).len() ==> (#[trigger] escaped(value)[k]) != '"'
                && escaped(value)[k] != '<' && escaped(value)[k] != '>',
    decreases value.len(),
{
    if value.len() > 0 {
        law_escaped_holds_no_markup(value.drop_last());
        lemma_escaped_char(value.last());
        let head = escaped(value.drop_last());
        let tail = escaped_char(value.last());
        assert forall|k: int| 0 <= k < escaped(value).len() implies (#[trigger] escaped(value)[k])
            != '"' && escaped(value)[k] != '<' && escaped(value)[k] != '>' by {
            if k < head.len() {
                assert(escaped(value)[k] == head[k]);
            } else {
                assert(escaped(value)[k] == tail[k - head.len()]);
            }
        }
    }
}

proof fn lemma_escaped_first(value: Seq<char>)
    requires
        value.len() > 0,
    ensures
        escaped(value) == escaped_char(value[0]) + escaped(value.drop_first()),
    decreases value.len(),
{
    if value.len() == 1 {
        assert(value.drop_last() =~= Seq::<char>::empty());
        assert(value.drop_first() =~= Seq::<char>::empty());
        assert(escaped(value.drop_last()) + escaped_char(value.last()) =~= escaped_char(value[0])
            + escaped(value.drop_first()));
    } else {
        lemma_escaped_first(value.drop_last());
        let middle = value.drop_last().drop_first();
        assert(value.drop_first().drop_last() =~= middle);
        assert((escaped_char(value[0]) + escaped(middle)) + escaped_char(value.last()) =~= (
        escaped_char(value[0]) + (escaped(middle) + escaped_char(value.last()))));
    }
}

/// An attribute value names one command only.
pub proof fn law_escaping_is_lossless(a: Seq<char>, b: Seq<char>)
    requires
        escaped(a) == escaped(b),
    ensures
        a == b,
    decreases a.len(),
{
    if a.len() > 0 {
        lemma_escaped_first(a);
        lemma_escaped_char(a[0]);
    }
    if b.len() > 0 {
        lemma_escaped_first(b);
        lemma_escaped_char(b[0]);
    }
    if a.len() > 0 && b.len() > 0 {
        let x = escaped_char(a[0]);
        let y = escaped_char(b[0]);
        let all = escaped(a);
        assert(all[0] == x[0] && all[0] == y[0]);
        if x.len() > 1 {
            assert(all[1] == x[1]);
        }
        if y.len() > 1 {
            assert(all[1] == y[1]);
        }
        assert(a[0] == b[0]);
        assert(escaped(a.drop_first()) =~= all.skip(x.len() as int));
        assert(escaped(b.drop_first()) =~= all.skip(x.len() as int));
        law_escaping_is_lossless(a.drop_first(), b.drop_first());
        assert(a =~= seq![a[0]] + a.drop_first());
        assert(b =~= seq![b[0]] + b.drop_first());
    } else {
        if a.len() > 0 {
            assert(escaped(a).len() > 0 && escaped(b).len() == 0);
        }
        if b.len() > 0 {
            assert(escaped(b).len() > 0 && escaped(a).len() == 0);
        }
        assert(a =~= b);
    }
}

/// The closing tag of a skill, as characters.
spec fn skill_tag() -> Seq<char> {
    seq!['<', '/', 's', 'k', 'i', 'l', 'l', '>']
}

/// The closing tag of the block, as characters.
spec fn block_tag() -> Seq<char> {
    seq![
        '<', '/', 's', 'k', 'i', 'l', 'l', '_', 'd', 'y', 'n', 'a', 'm', 'i', 'c', '_', 'c', 'o',
        'n', 't', 'e', 'x', 't', '>',
    ]
}

proof fn lemma_tags()
    ensures
        "</skill>"@ == skill_tag(),
        "</skill_dynamic_context>"@ == block_tag(),
        "<\\/skill>"@ == seq!['<', '\\'] + skill_tag().skip(1),
        "<\\/skill_dynamic_context>"@ == seq!['<', '\\'] + block_tag().skip(1),
        "~~~"@ == seq!['~', '~', '~'],
        "~~ ~"@ == seq!['~', '~', ' ', '~'],
{
    reveal_strlit("</skill>");
    reveal_strlit("</skill_dynamic_context>");
    reveal_strlit("<\\/skill>");
    reveal_strlit("<\\/skill_dynamic_context>");
    reveal_strlit("~~~");
    reveal_strlit("~~ ~");
    assert("</skill>"@ =~= skill_tag());
    assert("</skill_dynamic_context>"@ =~= block_tag());
    assert("<\\/skill>"@ =~= seq!['<', '\\'] + skill_tag().skip(1));
    assert("<\\/skill_dynamic_context>"@ =~= seq!['<', '\\'] + block_tag().skip(1));
    assert("~~~"@ =~= seq!['~', '~', '~']);
    assert("~~ ~"@ =~= seq!['~', '~', ' ', '~']);
}

/// A neutralised text holds neither the closing tag of a skill nor that of the
/// block, whatever the text was.
pub proof fn law_closing_tags_broken_up(value: Seq<char>)
    ensures
        !contains_text(neutralized(value), "</skill>"@),
        !contains_text(neutralized(value), "</skill_dynamic_context>"@),
{
    lemma_tags();
    let skill = skill_tag();
    let block = block_tag();
    let broken_skill = seq!['<', '\\'] + skill.skip(1);
    let broken_block = seq!['<', '\\'] + block.skip(1);
    let fence = seq!['~', '~', '~'];
    let broken_fence = seq!['~', '~', ' ', '~'];
    let first = replace_all(value, skill, broken_skill);
    let second = replace_all(first, block, broken_block);
    lemma_replaced_is_free(value, skill, broken_skill, skill);
    lemma_replaced_is_free(first, block, broken_block, skill);
    lemma_replaced_is_free(first, block, broken_block, block);
    lemma_replaced_is_free(second, fence, broken_fence, skill);
    lemma_replaced_is_free(second, fence, broken_fence, block);
}

/// A run of `n` tildes at index `i`.
spec fn tildes_at(s: Seq<char>, i: int, n: int) -> bool {
    0 <= i && i + n <= s.len() && forall|j: int| i <= j < i + n ==> #[trigger] s[j] == '~'
}

proof fn lemma_tildes(s: Seq<char>, i: int)
    ensures
        occurs_at(s, seq!['~', '~', '~'], i) <==> tildes_at(s, i, 3),
        occurs_at(s, seq!['~', '~', '~', '~', '~'], i) <==> tildes_at(s, i, 5),
{
    let three = seq!['~', '~', '~'];
    let five = seq!['~', '~', '~', '~', '~'];
    if occurs_at(s, three, i) {
        assert forall|j: int| i <= j < i + 3 implies #[trigger] s[j] == '~' by {
            assert(s.subrange(i, i + 3)[j - i] == three[j - i]);
        }
    }
    if tildes_at(s, i, 3) {
        assert(s.subrange(i, i + 3) =~= three);
    }
    if occurs_at(s, five, i) {
        assert forall|j: int| i <= j < i + 5 implies #[trigger] s[j] == '~' by {
            assert(s.subrange(i, i + 5)[j - i] == five[j - i]);
        }
    }
    if tildes_at(s, i, 5) {
        assert(s.subrange(i, i + 5) =~= five);
    }
}

/// The text with its fences broken up.
spec fn unfenced(s: Seq<char>) -> Seq<char> {
    replace_all(s, seq!['~', '~', '~'], seq!['~', '~', ' ', '~'])
}

/// How a text begins tells how the text with its fences broken up begins.
proof fn lemma_unfenced_step(s: Seq<char>)
    ensures
        tildes_at(s, 0, 3) ==> unfenced(s) == seq!['~', '~', ' ', '~'] + unfenced(s.skip(3)),
        s.len() > 0 && !tildes_at(s, 0, 3) ==> unfenced(s) == seq![s[0]] + unfenced(s.drop_first()),
        s.len() == 0 ==> unfenced(s).len() == 0,
        tildes_at(s, 0, 1) <==> tildes_at(unfenced(s), 0, 1),
{
    lemma_tildes(s, 0);
    if 0 < s.len() < 3 {
        assert(s =~= seq![s[0]] + s.drop_first());
        assert(unfenced(s.drop_first()) == s.drop_first());
    }
    if s.len() > 0 {
        assert(unfenced(s)[0] == s[0]);
        assert(tildes_at(s, 0, 1) ==> s[0] == '~');
        assert(tildes_at(unfenced(s), 0, 1) ==> unfenced(s)[0] == '~');
    }
}

proof fn lemma_unfenced_begins(s: Seq<char>)
    ensures
        tildes_at(s, 0, 2) <==> tildes_at(unfenced(s), 0, 2),
{
    lemma_unfenced_step(s);
    if s.len() > 0 && !tildes_at(s, 0, 3) {
        let rest = s.drop_first();
        lemma_unfenced_step(rest);
        if tildes_at(s, 0, 2) {
            assert(s[0] == '~');
            assert(rest[0] == s[1]);
            assert(tildes_at(rest, 0, 1));
        }
        if tildes_at(unfenced(s), 0, 2) {
            assert(unfenced(s)[0] == s[0]);
            assert(unfenced(s)[1] == unfenced(rest)[0]);
            assert(tildes_at(unfenced(rest), 0, 1));
            assert(s[1] == rest[0]);
        }
    } else if s.len() > 0 {
        assert(unfenced(s)[0] == '~' && unfenced(s)[1] == '~');
        assert(s[0] == '~' && s[1] == '~');
    }
}

/// A fence is left only where five tildes stood in a row.
proof fn lemma_fence_left(s: Seq<char>, i: int) -> (k: int)
    requires
        tildes_at(unfenced(s), i, 3),
    ensures
        tildes_at(s, k, 5),
    decreases s.len(),
{
    let out = unfenced(s);
    lemma_unfenced_step(s);
    if tildes_at(s, 0, 3) {
        let rest = s.skip(3);
        let tail = unfenced(rest);
        if i >= 4 {
            assert forall|j: int| i - 4 <= j < i - 4 + 3 implies #[trigger] tail[j] == '~' by {
                assert(out[j + 4] == '~');
            }
            let k = lemma_fence_left(rest, i - 4);
            assert forall|j: int| k + 3 <= j < k + 3 + 5 implies #[trigger] s[j] == '~' by {
                assert(rest[j - 3] == '~');
            }
            k + 3
        } else {
            assert(out[2] == ' ');
            assert(i == 3);
            assert(tail[0] == out[4] && tail[1] == out[5]);
            assert(tildes_at(tail, 0, 2));
            lemma_unfenced_begins(rest);
            assert(s[3] == rest[0] && s[4] == rest[1]);
            0
        }
    } else {
        let rest = s.drop_first();
        let tail = unfenced(rest);
        if i >= 1 {
            assert forall|j: int| i - 1 <= j < i - 1 + 3 implies #[trigger] tail[j] == '~' by {
                assert(out[j + 1] == '~');
            }
            let k = lemma_fence_left(rest, i - 1);
            assert forall|j: int| k + 1 <= j < k + 1 + 5 implies #[trigger] s[j] == '~' by {
                assert(rest[j - 1] == '~');
            }
            k + 1
        } else {
            assert(out[0] == s[0]);
            assert(tail[0] == out[1] && tail[1] == out[2]);
            assert(tildes_at(tail, 0, 2));
            lemma_unfenced_begins(rest);
            assert(s[1] == rest[0] && s[2] == rest[1]);
            assert(tildes_at(s, 0, 3));
            0
        }
    }
}

/// Of five tildes in a row a fence is left.
proof fn lemma_five_leave_fence(s: Seq<char>, k: int) -> (i: int)
    requires
        tildes_at(s, k, 5),
    ensures
        tildes_at(unfenced(s), i, 3),
    decreases s.len(),
{
    let out = unfenced(s);
    lemma_unfenced_step(s);
    if tildes_at(s, 0, 3) {
        let rest = s.skip(3);
        let tail = unfenced(rest);
        if k < 3 {
            assert(s[3] == '~' && s[4] == '~') by {
                assert(s[k + 1] == '~' && s[k + 2] == '~' && s[k + 3] == '~' && s[k + 4] == '~');
            }
            assert(rest[0] == s[3] && rest[1] == s[4]);
            assert(tildes_at(rest, 0, 2));
            lemma_unfenced_begins(rest);
            assert(out[3] == '~' && out[4] == tail[0] && out[5] == tail[1]);
            3
        } else {
            assert forall|j: int| k - 3 <= j < k - 3 + 5 implies #[trigger] rest[j] == '~' by {
                assert(s[j + 3] == '~');
            }
            let i = lemma_five_leave_fence(rest, k - 3);
            assert forall|j: int| i + 4 <= j < i + 4 + 3 implies #[trigger] out[j] == '~' by {
                assert(tail[j - 4] == '~');
            }
            i + 4
        }
    } else {
        let rest = s.drop_first();
        let tail = unfenced(rest);
        if k == 0 {
            assert(s[0] == '~' && s[1] == '~' && s[2] == '~');
        }
        assert forall|j: int| k - 1 <= j < k - 1 + 5 implies #[trigger] rest[j] == '~' by {
            assert(s[j + 1] == '~');
        }
        let i = lemma_five_leave_fence(rest, k - 1);
        assert forall|j: int| i + 1 <= j < i + 1 + 3 implies #[trigger] out[j] == '~' by {
            assert(tail[j - 1] == '~');
        }
        i + 1
    }
}

/// A neutralised text holds no fence, unless five tildes stood in a row in the
/// text: of those a fence is left.
pub proof fn law_fence_broken_up(value: Seq<char>)
    ensures
        contains_text(neutralized(value), "~~~"@) <==> contains_text(value, "~~~~~"@),
{
    lemma_tags();
    reveal_strlit("~~~~~");
    let five = seq!['~', '~', '~', '~', '~'];
    let three = seq!['~', '~', '~'];
    assert("~~~~~"@ =~= five);
    let skill = skill_tag();
    let block = block_tag();
    let broken_skill = seq!['<', '\\'] + skill.skip(1);
    let broken_block = seq!['<', '\\'] + block.skip(1);
    let first = replace_all(value, skill, broken_skill);
    let second = replace_all(first, block, broken_block);
    assert(neutralized(value) == unfenced(second));
    if contains_text(value, five) {
        lemma_occurrence_survives(value, skill, broken_skill, five);
        lemma_occurrence_survives(first, block, broken_block, five);
        let k = choose|k: int| occurs_at(second, five, k);
        lemma_tildes(second, k);
        let i = lemma_five_leave_fence(second, k);
        lemma_tildes(unfenced(second), i);
        assert(occurs_at(unfenced(second), three, i));
    } else {
        lemma_replaced_is_free(value, skill, broken_skill, five);
        lemma_replaced_is_free(first, block, broken_block, five);
        if contains_text(unfenced(second), three) {
            let i = choose|i: int| occurs_at(unfenced(second), three, i);
            lemma_tildes(unfenced(second), i);
            let k = lemma_fence_left(second, i);
            lemma_tildes(second, k);
            assert(occurs_at(second, five, k));
        }
    }
}

/// Where the only angle bracket that opens, followed by a slash, can stand in a
/// block: before the closing tag at its end.
proof fn lemma_tag_in_block(command: Seq<char>, output: RunOutputView, q: Seq<char>, i: int)
    requires
        q.len() > 1,
        q[0] == '<',
        q[1] == '/',
        forall|j: int| 0 <= j < q.len() ==> #[trigger] q[j] != '\n',
        !contains_text(neutralized(body_text(output)), q),
        occurs_at(rendered_block(command, output), q, i),
    ensures
        i == rendered_block(command, output).len() - 24,
{
    let a = "<skill_dynamic_context command=\""@;
    let e = escaped(command);
    let b = "\">\n~~~text\n"@;
    let n = neutralized(body_text(output));
    let c = "\n~~~\n</skill_dynamic_context>"@;
    let block = rendered_block(command, output);
    reveal_strlit("<skill_dynamic_context command=\"");
    reveal_strlit("\">\n~~~text\n");
    reveal_strlit("\n~~~\n</skill_dynamic_context>");
    law_escaped_holds_no_markup(command);
    assert(c =~= seq!['\n', '~', '~', '~', '\n'] + block_tag());
    let found = block.subrange(i, i + q.len());
    assert(block[i] == found[0] && block[i + 1] == found[1]);
    let p1 = a.len() as int;
    let p2 = p1 + e.len();
    let p3 = p2 + b.len();
    let p4 = p3 + n.len();
    if i < p1 {
        assert(block[i] == a[i]);
        assert(block[1] == a[1]);
    } else if i < p2 {
        assert(block[i] == e[i - p1]);
    } else if i < p3 {
        assert(block[i] == b[i - p2]);
    } else if i < p4 {
        if i + q.len() <= p4 {
            assert(n.subrange(i - p3, i - p3 + q.len()) =~= found);
            assert(occurs_at(n, q, i - p3));
        } else {
            assert(block[p4] == c[0]);
            assert(found[p4 - i] == block[p4]);
            assert(q[p4 - i] == '\n');
        }
    } else {
        assert(block[i] == c[i - p4]);
    }
}

/// A block never holds the closing tag of a skill, and its own closing tag
/// stands at its end and nowhere else, whatever the command and its output.
pub proof fn law_block_closes_once(command: Seq<char>, output: RunOutputView)
    ensures
        !contains_text(rendered_block(command, output), "</skill>"@),
        forall|i: int|
            occurs_at(rendered_block(command, output), "</skill_dynamic_context>"@, i) <==> i + (
            "</skill_dynamic_context>"@).len() == rendered_block(command, output).len(),
{
    let block = rendered_block(command, output);
    let c = "\n~~~\n</skill_dynamic_context>"@;
    lemma_tags();
    reveal_strlit("\n~~~\n</skill_dynamic_context>");
    law_closing_tags_broken_up(body_text(output));
    let end = block.len() - 24;
    assert(block.subrange(end, end + 24) =~= block_tag()) by {
        assert(c =~= seq!['\n', '~', '~', '~', '\n'] + block_tag());
        assert forall|j: int| 0 <= j < 24 implies block[end + j] == block_tag()[j] by {
            assert(block[end + j] == c[5 + j]);
        }
    }
    assert forall|i: int| !occurs_at(block, skill_tag(), i) by {
        if occurs_at(block, skill_tag(), i) {
            lemma_tag_in_block(command, output, skill_tag(), i);
            assert(block.subrange(end, end + 8)[7] == block.subrange(end, end + 24)[7]);
        }
    }
    assert forall|i: int| occurs_at(block, block_tag(), i) <==> i + 24 == block.len() by {
        if occurs_at(block, block_tag(), i) {
            lemma_tag_in_block(command, output, block_tag(), i);
        }
    }
}

/// A text is written into an attribute value piece by piece and character by
/// character: four characters by their names, and every other as it is.
pub proof fn law_attribute_is_written_by_character(a: Seq<char>, b: Seq<char>, c: char)
    ensures
        escaped(a + b) == escaped(a) + escaped(b),
        escaped(seq!['&']) == "&amp;"@,
        escaped(seq!['"']) == "&quot;"@,
        escaped(seq!['<']) == "&lt;"@,
        escaped(seq!['>']) == "&gt;"@,
        c != '&' && c != '"' && c != '<' && c != '>' ==> escaped(seq![c]) == seq![c],
    decreases b.len(),
{
    lemma_escaped_one('&');
    lemma_escaped_one('"');
    lemma_escaped_one('<');
    lemma_escaped_one('>');
    lemma_escaped_one(c);
    if b.len() == 0 {
        assert(a + b =~= a);
        assert(escaped(a) + escaped(b) =~= escaped(a));
    } else {
        law_attribute_is_written_by_character(a, b.drop_last(), c);
        assert((a + b).drop_last() =~= a + b.drop_last());
        assert(escaped(a) + (escaped(b.drop_last()) + escaped_char(b.last())) =~= (escaped(a)
            + escaped(b.drop_last())) + escaped_char(b.last()));
    }
}

proof fn lemma_escaped_one(c: char)
    ensures
        escaped(seq![c]) == escaped_char(c),
{
    reveal_with_fuel(escaped, 2);
    assert(seq![c].drop_last() =~= Seq::<char>::empty());
    assert(Seq::<char>::empty() + escaped_char(c) =~= escaped_char(c));
}

/// What a replaced text with one more character in front of it begins with, it
/// began with before.
proof fn lemma_begins(c: char, s: Seq<char>, from: Seq<char>, to: Seq<char>, q: Seq<char>)
    requires
        from.len() > 0,
        to.len() > 0,
        q.len() > 0,
        forall|i: int| 1 <= i < q.len() ==> #[trigger] q[i] != to[0],
        q.is_prefix_of(seq![c] + replace_all(s, from, to)),
    ensures
        q.is_prefix_of(seq![c] + s),
{
    let w = q.drop_first();
    let out = replace_all(s, from, to);
    let text = seq![c] + out;
    assert(text.subrange(0, q.len() as int) =~= q);
    assert(out.subrange(0, w.len() as int) =~= w) by {
        assert forall|i: int| 0 <= i < w.len() implies out[i] == w[i] by {
            assert(text.subrange(0, q.len() as int)[i + 1] == q[i + 1]);
        }
    }
    lemma_beginning_kept(s, from, to, w);
    assert((seq![c] + s).subrange(0, q.len() as int) =~= q) by {
        assert forall|i: int| 0 <= i < q.len() implies (seq![c] + s)[i] == q[i] by {
            if i > 0 {
                assert(s.subrange(0, w.len() as int)[i - 1] == w[i - 1]);
            } else {
                assert(text.subrange(0, q.len() as int)[0] == q[0]);
            }
        }
    }
}

/// A beginning that `from` cannot begin in is passed over.
proof fn lemma_passed(p: Seq<char>, s: Seq<char>, from: Seq<char>, to: Seq<char>)
    requires
        from.len() > 1,
        p.len() > 0,
        forall|i: int| 1 <= i < p.len() ==> #[trigger] p[i] != from[0],
        !from.is_prefix_of(p + s),
    ensures
        replace_all(p + s, from, to) == p + replace_all(s, from, to),
{
    assert forall|i: int| 0 <= i < p.len() implies !(#[trigger] occurs_at(p + s, from, i)) by {
        if occurs_at(p + s, from, i) {
            assert((p + s).subrange(i, i + from.len())[0] == (p + s)[i]);
        }
    }
    lemma_beginning_passed(p, s, from, to);
}

/// A text is neutralised from the left: a backslash goes into each closing tag of
/// a skill or of the block, a space into each three tildes, and every other
/// character stays as it is.
pub proof fn law_text_is_neutralized_from_the_left(c: char, b: Seq<char>)
    ensures
        neutralized(Seq::empty()) == Seq::<char>::empty(),
        neutralized("</skill>"@ + b) == "<\\/skill>"@ + neutralized(b),
        neutralized("</skill_dynamic_context>"@ + b) == "<\\/skill_dynamic_context>"@
            + neutralized(b),
        neutralized("~~~"@ + b) == "~~ ~"@ + neutralized(b),
        ({
            let text = seq![c] + b;
            &&& !"</skill>"@.is_prefix_of(text)
            &&& !"</skill_dynamic_context>"@.is_prefix_of(text)
            &&& !"~~~"@.is_prefix_of(text)
        }) ==> neutralized(seq![c] + b) == seq![c] + neutralized(b),
{
    lemma_tags();
    let skill = skill_tag();
    let block = block_tag();
    let fence = seq!['~', '~', '~'];
    let broken_skill = seq!['<', '\\'] + skill.skip(1);
    let broken_block = seq!['<', '\\'] + block.skip(1);
    let broken_fence = seq!['~', '~', ' ', '~'];
    let first = replace_all(b, skill, broken_skill);
    let second = replace_all(first, block, broken_block);
    law_replacement_goes_from_the_left(b, c, skill, broken_skill);
    law_replacement_goes_from_the_left(first, c, block, broken_block);
    law_replacement_goes_from_the_left(second, c, fence, broken_fence);

    let t = broken_skill + first;
    assert(t[1] == '\\' && block[1] == '/');
    lemma_passed(broken_skill, first, block, broken_block);
    assert((broken_skill + second)[0] == '<');
    lemma_passed(broken_skill, second, fence, broken_fence);

    assert((block + b)[7] == '_' && skill[7] == '>');
    lemma_passed(block, b, skill, broken_skill);
    assert((broken_block + second)[0] == '<');
    lemma_passed(broken_block, second, fence, broken_fence);

    assert((fence + b)[0] == '~' && (fence + first)[0] == '~');
    lemma_passed(fence, b, skill, broken_skill);
    lemma_passed(fence, first, block, broken_block);

    let text = seq![c] + b;
    if !skill.is_prefix_of(text) && !block.is_prefix_of(text) && !fence.is_prefix_of(text) {
        if block.is_prefix_of(seq![c] + first) {
            lemma_begins(c, b, skill, broken_skill, block);
        }
        if fence.is_prefix_of(seq![c] + second) {
            lemma_begins(c, first, block, broken_block, fence);
            lemma_begins(c, b, skill, broken_skill, fence);
        }
    }
}

/// A text that holds no closing tag of a skill or of the block and no three tildes
/// in a row stays as it is.
pub proof fn law_text_without_markup_is_kept(text: Seq<char>)
    requires
        forall|i: int|
            0 <= i < text.len() ==> {
                let rest = #[trigger] text.skip(i);
                &&& !"</skill>"@.is_prefix_of(rest)
                &&& !"</skill_dynamic_context>"@.is_prefix_of(rest)
                &&& !"~~~"@.is_prefix_of(rest)
            },
    ensures
        neutralized(text) == text,
    decreases text.len(),
{
    if text.len() == 0 {
        law_text_is_neutralized_from_the_left('a', text);
        assert(text =~= Seq::<char>::empty());
    } else {
        let rest = text.drop_first();
        assert(text.skip(0) =~= text);
        assert(seq![text[0]] + rest =~= text);
        assert forall|i: int| 0 <= i < rest.len() implies {
            let end = #[trigger] rest.skip(i);
            &&& !"</skill>"@.is_prefix_of(end)
            &&& !"</skill_dynamic_context>"@.is_prefix_of(end)
            &&& !"~~~"@.is_prefix_of(end)
        } by {
            assert(rest.skip(i) =~= text.skip(i + 1));
        }
        law_text_without_markup_is_kept(rest);
        law_text_is_neutralized_from_the_left(text[0], rest);
    }
}

/// The block of a command that succeeded shows the whole of its standard output,
/// neutralised, with a mark where the output was cut; nothing else of the outcome
/// shows.
pub proof fn law_block_shows_all_of_stdout(command: Seq<char>, output: RunOutputView)
    requires
        output.exit_code == Some(0i32),
        output.stdout.len() > 0,
        !output.timed_out,
        output.failure is None,
        output.hook_feedback is None,
    ensures
        !output.truncated ==> rendered_block(command, output)
            == "<skill_dynamic_context command=\""@ + escaped(command) + "\">\n~~~text\n"@
            + neutralized(output.stdout) + "\n~~~\n</skill_dynamic_context>"@,
        output.truncated ==> rendered_block(command, output)
            == "<skill_dynamic_context command=\""@ + escaped(command) + "\">\n~~~text\n"@
            + neutralized(output.stdout + "\n[output truncated]"@)
            + "\n~~~\n</skill_dynamic_context>"@,
{
}

/// Standard output that holds nothing to break up stands in the block of a command
/// that succeeded as it is.
pub proof fn law_plain_stdout_stands_in_the_block(command: Seq<char>, output: RunOutputView)
    requires
        output.exit_code == Some(0i32),
        output.stdout.len() > 0,
        !output.timed_out,
        !output.truncated,
        output.failure is None,
        output.hook_feedback is None,
        forall|i: int|
            0 <= i < output.stdout.len() ==> {
                let rest = #[trigger] output.stdout.skip(i);
                &&& !"</skill>"@.is_prefix_of(rest)
                &&& !"</skill_dynamic_context>"@.is_prefix_of(rest)
                &&& !"~~~"@.is_prefix_of(rest)
            },
    ensures
        rendered_block(command, output) == "<skill_dynamic_context command=\""@ + escaped(command)
            + "\">\n~~~text\n"@ + output.stdout + "\n~~~\n</skill_dynamic_context>"@,
{
    law_text_without_markup_is_kept(output.stdout);
}

/// What the block of a command shows where there is no standard output to show: the
/// feedback of the hooks before all else, then that it timed out, that it failed,
/// and that it said nothing.
pub proof fn law_block_says_what_came_instead(command: Seq<char>, output: RunOutputView)
    ensures
        ({
            let open = "<skill_dynamic_context command=\""@ + escaped(command)
                + "\">\n~~~text\n"@;
            let close = "\n~~~\n</skill_dynamic_context>"@;
            let mark = if output.truncated {
                "\n[output truncated]"@
            } else {
                Seq::empty()
            };
            let block = rendered_block(command, output);
            let held_back = output.hook_feedback is Some;
            let ended = !held_back && !output.timed_out && output.failure is None;
            &&& held_back ==> block == open + neutralized(
                "post-tool hook feedback:\n"@ + output.hook_feedback->0 + mark,
            ) + close
            &&& !held_back && output.timed_out ==> block == open + neutralized(
                "command timed out"@ + mark,
            ) + close
            &&& !held_back && !output.timed_out && output.failure is Some ==> block == open
                + neutralized("command failed: "@ + output.failure->0 + mark) + close
            &&& ended && output.exit_code == Some(0i32) && output.stdout.len() == 0 ==> block
                == open + neutralized("command completed with no stdout"@ + mark) + close
        }),
{
    lemma_unmarked(output);
}

/// The block of a command that ended otherwise than with the exit code 0 shows that
/// exit code and the whole of its standard error, neutralised.
pub proof fn law_block_shows_status_and_stderr(
    command: Seq<char>,
    output: RunOutputView,
    code: i32,
)
    requires
        output.exit_code is None || (output.exit_code == Some(code) && code != 0),
        !output.timed_out,
        output.failure is None,
        output.hook_feedback is None,
    ensures
        ({
            let open = "<skill_dynamic_context command=\""@ + escaped(command)
                + "\">\n~~~text\n"@;
            let close = "\n~~~\n</skill_dynamic_context>"@;
            let mark = if output.truncated {
                "\n[output truncated]"@
            } else {
                Seq::empty()
            };
            let status = if output.exit_code is None {
                "None"@
            } else {
                "Some("@ + signed_decimal(code as int) + ")"@
            };
            let said = if output.stderr.len() > 0 {
                output.stderr
            } else {
                "no stderr"@
            };
            rendered_block(command, output) == open + neutralized(
                "command exited with status "@ + status + "\n"@ + said + mark,
            ) + close
        }),
{
    lemma_unmarked(output);
}

proof fn lemma_unmarked(output: RunOutputView)
    ensures
        !output.truncated ==> body_text(output) == outcome_text(output) + Seq::empty(),
{
    assert(outcome_text(output) + Seq::empty() =~= outcome_text(output));
}

/// An exit code is shown in its variant, by its numeral.
pub proof fn law_exit_code_is_shown_by_its_numeral(code: i32)
    ensures
        exit_code_text(None) == "None"@,
        exit_code_text(Some(code)) == "Some("@ + signed_decimal(code as int) + ")"@,
{
}

} // verus!
