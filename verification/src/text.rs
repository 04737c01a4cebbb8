//! Text operations over `char` sequences, with the mathematical definitions
//! that the rest of the library speaks of.

use vstd::prelude::*;

verus! {

/// `String::push`: the character goes to the end of the string.
pub assume_specification[ String::push ](s: &mut String, c: char)
    ensures
        final(s)@ == old(s)@.push(c),
;

/// Whether `pattern` stands in `s` at index `i`.
pub open spec fn occurs_at(s: Seq<char>, pattern: Seq<char>, i: int) -> bool {
    &&& 0 <= i
    &&& i + pattern.len() <= s.len()
    &&& s.subrange(i, i + pattern.len()) == pattern
}

/// Whether `pattern` stands anywhere in `s`.
pub open spec fn contains_text(s: Seq<char>, pattern: Seq<char>) -> bool {
    exists|i: int| occurs_at(s, pattern, i)
}

/// `s` with every occurrence of `from`, found from the left and without
/// overlap, replaced by `to`.
pub open spec fn replace_all(s: Seq<char>, from: Seq<char>, to: Seq<char>) -> Seq<char>
    decreases s.len(),
{
    if from.len() == 0 || s.len() < from.len() {
        s
    } else if occurs_at(s, from, 0) {
        to + replace_all(s.skip(from.len() as int), from, to)
    } else {
        seq![s[0]] + replace_all(s.drop_first(), from, to)
    }
}

/// A beginning of the replaced text that holds none of the character with which
/// each replacement begins was there before.
pub proof fn lemma_beginning_kept(s: Seq<char>, from: Seq<char>, to: Seq<char>, w: Seq<char>)
    requires
        from.len() > 0,
        to.len() > 0,
        forall|i: int| 0 <= i < w.len() ==> #[trigger] w[i] != to[0],
        occurs_at(replace_all(s, from, to), w, 0),
    ensures
        occurs_at(s, w, 0),
    decreases w.len(),
{
    let out = replace_all(s, from, to);
    if w.len() == 0 {
        assert(s.subrange(0, 0) =~= w);
    } else {
        assert(out[0] == out.subrange(0, w.len() as int)[0]);
        if s.len() >= from.len() {
            if occurs_at(s, from, 0) {
                assert(out[0] == to[0]);
            } else {
                let rest = replace_all(s.drop_first(), from, to);
                let v = w.drop_first();
                assert(rest =~= out.drop_first());
                assert(rest.subrange(0, v.len() as int) =~= out.subrange(
                    0,
                    w.len() as int,
                ).drop_first());
                lemma_beginning_kept(s.drop_first(), from, to, v);
                assert forall|i: int| 0 <= i < w.len() implies s[i] == w[i] by {
                    if i > 0 {
                        assert(v[i - 1] == s.drop_first().subrange(0, v.len() as int)[i - 1]);
                    }
                }
                assert(s.subrange(0, w.len() as int) =~= w);
            }
        }
    }
}

/// Replacing `from` by `to` leaves no `q` behind, where `q` is `from` itself or
/// was not there before, and where no `q` can begin inside a replacement, nor
/// reach from before one into it.
pub proof fn lemma_replaced_is_free(s: Seq<char>, from: Seq<char>, to: Seq<char>, q: Seq<char>)
    requires
        from.len() > 0,
        to.len() > 1,
        q.len() > 1,
        q == from || !contains_text(s, q),
        forall|i: int| 1 <= i < q.len() ==> #[trigger] q[i] != to[0],
        forall|i: int| 1 <= i < to.len() ==> #[trigger] to[i] != q[0],
        to[0] != q[0] || to[1] != q[1],
    ensures
        !contains_text(replace_all(s, from, to), q),
    decreases s.len(),
{
    let out = replace_all(s, from, to);
    assert forall|i: int| !occurs_at(out, q, i) by {
        if occurs_at(out, q, i) {
            let found = out.subrange(i, i + q.len());
            assert(found[0] == out[i] && found[1] == out[i + 1]);
            if s.len() < from.len() {
                assert(occurs_at(s, q, i));
            } else if occurs_at(s, from, 0) {
                let rest = s.skip(from.len() as int);
                let tail = replace_all(rest, from, to);
                if i >= to.len() {
                    assert(tail.subrange(i - to.len(), i - to.len() + q.len()) =~= found);
                    assert(occurs_at(tail, q, i - to.len()));
                    lemma_rest_is_free(s, from.len() as int, q);
                    lemma_replaced_is_free(rest, from, to, q);
                } else if i > 0 {
                    assert(out[i] == to[i]);
                } else {
                    assert(out[0] == to[0] && out[1] == to[1]);
                }
            } else {
                let rest = s.drop_first();
                let tail = replace_all(rest, from, to);
                assert(rest =~= s.skip(1));
                if i >= 1 {
                    assert(tail.subrange(i - 1, i - 1 + q.len()) =~= found);
                    assert(occurs_at(tail, q, i - 1));
                    lemma_rest_is_free(s, 1, q);
                    lemma_replaced_is_free(rest, from, to, q);
                } else {
                    let w = q.drop_first();
                    assert(tail.subrange(0, w.len() as int) =~= found.drop_first());
                    lemma_beginning_kept(rest, from, to, w);
                    assert(s.subrange(0, q.len() as int) =~= q) by {
                        assert forall|j: int| 0 <= j < q.len() implies s[j] == q[j] by {
                            if j > 0 {
                                assert(w[j - 1] == rest.subrange(0, w.len() as int)[j - 1]);
                            }
                        }
                    }
                    assert(occurs_at(s, q, 0));
                }
            }
        }
    }
}

/// A beginning that holds none of the character with which `from` begins is
/// still there after the replacement.
proof fn lemma_beginning_survives(s: Seq<char>, from: Seq<char>, to: Seq<char>, w: Seq<char>)
    requires
        from.len() > 0,
        forall|i: int| 0 <= i < w.len() ==> #[trigger] w[i] != from[0],
        occurs_at(s, w, 0),
    ensures
        occurs_at(replace_all(s, from, to), w, 0),
    decreases w.len(),
{
    let out = replace_all(s, from, to);
    if w.len() == 0 {
        assert(out.subrange(0, 0) =~= w);
    } else if s.len() >= from.len() {
        let found = s.subrange(0, w.len() as int);
        assert(found[0] == s[0]);
        if occurs_at(s, from, 0) {
            assert(s.subrange(0, from.len() as int)[0] == s[0]);
        }
        let rest = s.drop_first();
        let tail = replace_all(rest, from, to);
        let v = w.drop_first();
        assert(rest.subrange(0, v.len() as int) =~= found.drop_first());
        lemma_beginning_survives(rest, from, to, v);
        assert(out =~= seq![s[0]] + tail);
        assert forall|i: int| 0 <= i < w.len() implies out[i] == w[i] by {
            if i > 0 {
                assert(v[i - 1] == tail.subrange(0, v.len() as int)[i - 1]);
            }
        }
        assert(out.subrange(0, w.len() as int) =~= w);
    }
}

/// What shares no character with `from` is still there after the replacement.
pub proof fn lemma_occurrence_survives(s: Seq<char>, from: Seq<char>, to: Seq<char>, q: Seq<char>)
    requires
        from.len() > 0,
        q.len() > 0,
        forall|i: int, j: int|
            0 <= i < q.len() && 0 <= j < from.len() ==> #[trigger] q[i] != #[trigger] from[j],
        contains_text(s, q),
    ensures
        contains_text(replace_all(s, from, to), q),
    decreases s.len(),
{
    let out = replace_all(s, from, to);
    let i = choose|i: int| occurs_at(s, q, i);
    let found = s.subrange(i, i + q.len());
    assert(found[0] == s[i]);
    if s.len() >= from.len() {
        let (n, added) = if occurs_at(s, from, 0) {
            (from.len() as int, to)
        } else {
            (1int, seq![s[0]])
        };
        if i < n && occurs_at(s, from, 0) {
            assert(s.subrange(0, from.len() as int)[i] == s[i]);
        } else if i == 0 {
            lemma_beginning_survives(s, from, to, q);
        } else {
            let rest = s.skip(n);
            assert(s.drop_first() =~= s.skip(1));
            assert(rest.subrange(i - n, i - n + q.len()) =~= found);
            assert(occurs_at(rest, q, i - n));
            lemma_occurrence_survives(rest, from, to, q);
            let tail = replace_all(rest, from, to);
            let k = choose|k: int| occurs_at(tail, q, k);
            assert(out =~= added + tail);
            assert(out.subrange(k + added.len(), k + added.len() + q.len()) =~= tail.subrange(
                k,
                k + q.len(),
            ));
            assert(occurs_at(out, q, k + added.len()));
        }
    }
}

/// What does not stand in a text does not stand in a rest of it.
proof fn lemma_rest_is_free(s: Seq<char>, n: int, q: Seq<char>)
    requires
        0 <= n <= s.len(),
    ensures
        !contains_text(s, q) ==> !contains_text(s.skip(n), q),
{
    assert forall|i: int| occurs_at(s.skip(n), q, i) implies occurs_at(s, q, i + n) by {
        assert(s.skip(n).subrange(i, i + q.len()) =~= s.subrange(i + n, i + n + q.len()));
    }
    if contains_text(s.skip(n), q) {
        let i = choose|i: int| occurs_at(s.skip(n), q, i);
        assert(occurs_at(s, q, i + n));
    }
}

/// The characters of `s`.
pub fn chars_of(s: &str) -> (r: Vec<char>)
    ensures
        r@ == s@,
{
    let mut r: Vec<char> = Vec::new();
    for c in it: s.chars()
        invariant
            r@ == s@.take(it.index()),
            it.seq() == s@,
    {
        r.push(c);
    }
    r
}

/// Whether `pattern` stands in `s` at index `at`.
fn matches_at(s: &Vec<char>, pattern: &Vec<char>, at: usize) -> (r: bool)
    requires
        at <= s.len(),
    ensures
        r == occurs_at(s@, pattern@, at as int),
{
    if s.len() - at < pattern.len() {
        return false;
    }
    let mut i: usize = 0;
    while i < pattern.len()
        invariant
            at + pattern.len() <= s.len(),
            i <= pattern.len(),
            forall|j: int| 0 <= j < i ==> s@[at + j] == pattern@[j],
        decreases pattern.len() - i,
    {
        if s[at + i] != pattern[i] {
            assert(s@.subrange(at as int, at + pattern.len())[i as int] != pattern@[i as int]);
            return false;
        }
        i += 1;
    }
    assert(s@.subrange(at as int, at + pattern.len()) =~= pattern@);
    true
}

/// Replaces every occurrence of `from` in `s` by `to`, from the left and
/// without overlap.
pub(crate) fn replace_text(s: &str, from: &str, to: &str) -> (r: String)
    requires
        from@.len() > 0,
    ensures
        r@ == replace_all(s@, from@, to@),
{
    let chars = chars_of(s);
    let pattern = chars_of(from);
    let mut r = String::new();
    let mut i: usize = 0;
    assert(s@.skip(0) =~= s@);
    while i < chars.len()
        invariant
            chars@ == s@,
            pattern@ == from@,
            from@.len() > 0,
            i <= chars.len(),
            r@ + replace_all(s@.skip(i as int), from@, to@) == replace_all(s@, from@, to@),
        decreases chars.len() - i,
    {
        let ghost rest = s@.skip(i as int);
        let ghost before = r@;
        if matches_at(&chars, &pattern, i) {
            proof {
                assert(rest.subrange(0, from@.len() as int) =~= s@.subrange(
                    i as int,
                    i + from@.len(),
                ));
                assert(occurs_at(rest, from@, 0));
                assert(rest.skip(from@.len() as int) =~= s@.skip(i + from@.len()));
                assert(before + (to@ + replace_all(rest.skip(from@.len() as int), from@, to@))
                    =~= (before + to@) + replace_all(s@.skip(i + from@.len()), from@, to@));
            }
            r.append(to);
            i += pattern.len();
        } else {
            proof {
                if occurs_at(rest, from@, 0) {
                    assert(rest.subrange(0, from@.len() as int) =~= s@.subrange(
                        i as int,
                        i + from@.len(),
                    ));
                }
                assert(rest.drop_first() =~= s@.skip(i + 1));
                if rest.len() < from@.len() {
                    assert(rest =~= seq![rest[0]] + replace_all(rest.drop_first(), from@, to@));
                }
                assert(before + (seq![rest[0]] + replace_all(rest.drop_first(), from@, to@))
                    =~= before.push(rest[0]) + replace_all(s@.skip(i + 1), from@, to@));
            }
            r.push(chars[i]);
            i += 1;
        }
    }
    assert(s@.skip(i as int) =~= Seq::<char>::empty());
    assert(r@ + replace_all(s@.skip(i as int), from@, to@) =~= r@);
    r
}

/// The digit `d` of a decimal numeral.
pub open spec fn digit(d: nat) -> char {
    (('0' as nat) + d) as char
}

/// The decimal numeral of `n`.
pub open spec fn decimal(n: nat) -> Seq<char>
    decreases n,
{
    if n < 10 {
        seq![digit(n)]
    } else {
        decimal(n / 10).push(digit(n % 10))
    }
}

/// The decimal numeral of `n`, with a sign where `n` is negative.
pub open spec fn signed_decimal(n: int) -> Seq<char> {
    if n < 0 {
        seq!['-'] + decimal((-n) as nat)
    } else {
        decimal(n as nat)
    }
}

/// Appends the decimal numeral of `n`.
pub fn append_decimal(s: &mut String, n: u64)
    ensures
        final(s)@ == old(s)@ + decimal(n as nat),
    decreases n,
{
    if n >= 10 {
        append_decimal(s, n / 10);
    }
    let d: u8 = (n % 10) as u8;
    s.push(('0' as u8 + d) as char);
    assert(s@ =~= old(s)@ + decimal(n as nat));
}

/// Appends the decimal numeral of `n`, with a sign where `n` is negative.
pub fn append_signed_decimal(s: &mut String, n: i32)
    ensures
        final(s)@ == old(s)@ + signed_decimal(n as int),
{
    let wide: i64 = n as i64;
    if wide < 0 {
        s.push('-');
        append_decimal(s, (-wide) as u64);
    } else {
        append_decimal(s, wide as u64);
    }
    assert(s@ =~= old(s)@ + signed_decimal(n as int));
}

/// The characters with the Unicode property `White_Space`.
pub open spec fn is_white_space(c: char) -> bool {
    ||| '\u{9}' <= c <= '\u{d}'
    ||| c == ' '
    ||| c == '\u{85}'
    ||| c == '\u{a0}'
    ||| c == '\u{1680}'
    ||| '\u{2000}' <= c <= '\u{200a}'
    ||| c == '\u{2028}'
    ||| c == '\u{2029}'
    ||| c == '\u{202f}'
    ||| c == '\u{205f}'
    ||| c == '\u{3000}'
}

/// Whether `c` has the Unicode property `White_Space`.
pub fn char_is_white_space(c: char) -> (r: bool)
    ensures
        r == is_white_space(c),
{
    ('\u{9}' <= c && c <= '\u{d}') || c == ' ' || c == '\u{85}' || c == '\u{a0}' || c == '\u{1680}'
        || ('\u{2000}' <= c && c <= '\u{200a}') || c == '\u{2028}' || c == '\u{2029}' || c
        == '\u{202f}' || c == '\u{205f}' || c == '\u{3000}'
}

/// Whether nothing but white space stands in `s`.
pub open spec fn is_blank(s: Seq<char>) -> bool {
    forall|i: int| 0 <= i < s.len() ==> is_white_space(#[trigger] s[i])
}

/// Whether nothing is left of `s` once the white space around it is trimmed.
pub fn text_is_blank(s: &str) -> (r: bool)
    ensures
        r == is_blank(s@),
{
    let chars = chars_of(s);
    let mut i: usize = 0;
    while i < chars.len()
        invariant
            chars@ == s@,
            i <= chars.len(),
            forall|j: int| 0 <= j < i ==> is_white_space(#[trigger] s@[j]),
        decreases chars.len() - i,
    {
        if !char_is_white_space(chars[i]) {
            assert(!is_white_space(s@[i as int]));
            return false;
        }
        i += 1;
    }
    true
}

/// The first `max_chars` characters of a text, or all of it where it is shorter.
pub open spec fn first_chars(s: Seq<char>, max_chars: nat) -> Seq<char> {
    if s.len() <= max_chars {
        s
    } else {
        s.take(max_chars as int)
    }
}

/// The first `max_chars` characters of `text`.
pub fn take_chars(text: &str, max_chars: usize) -> (r: String)
    ensures
        r@ == first_chars(text@, max_chars as nat),
{
    let chars = chars_of(text);
    let mut r = String::new();
    let mut i: usize = 0;
    while i < chars.len() && i < max_chars
        invariant
            chars@ == text@,
            i <= chars.len(),
            i <= max_chars,
            r@ == text@.take(i as int),
        decreases chars.len() - i,
    {
        r.push(chars[i]);
        i += 1;
        assert(r@ =~= text@.take(i as int));
    }
    assert(r@ =~= first_chars(text@, max_chars as nat));
    r
}

/// The first `max_chars` characters of `text`, and whether any are left out.
pub fn take_chars_with_truncation(text: &str, max_chars: usize) -> (r: (String, bool))
    ensures
        r.0@ == first_chars(text@, max_chars as nat),
        r.1 == (text@.len() > max_chars),
{
    let truncated = text.unicode_len() > max_chars;
    (take_chars(text, max_chars), truncated)
}

/// Replacement goes through a text from the left: where the text begins with what
/// is replaced, it goes on behind it, and else behind the first character.
pub proof fn law_replacement_goes_from_the_left(
    s: Seq<char>,
    c: char,
    from: Seq<char>,
    to: Seq<char>,
)
    requires
        from.len() > 0,
    ensures
        replace_all(Seq::empty(), from, to) == Seq::<char>::empty(),
        replace_all(from + s, from, to) == to + replace_all(s, from, to),
        !from.is_prefix_of(seq![c] + s) ==> replace_all(seq![c] + s, from, to) == seq![c]
            + replace_all(s, from, to),
{
    assert((from + s).subrange(0, from.len() as int) =~= from);
    assert((from + s).skip(from.len() as int) =~= s);
    let text = seq![c] + s;
    assert(text.drop_first() =~= s);
    if !from.is_prefix_of(text) {
        if text.len() >= from.len() {
            assert(!occurs_at(text, from, 0));
        } else {
            assert(s.len() < from.len());
        }
    }
}

/// A beginning in which nothing is found to replace is passed over.
pub proof fn lemma_beginning_passed(p: Seq<char>, s: Seq<char>, from: Seq<char>, to: Seq<char>)
    requires
        from.len() > 0,
        forall|i: int| 0 <= i < p.len() ==> !(#[trigger] occurs_at(p + s, from, i)),
    ensures
        replace_all(p + s, from, to) == p + replace_all(s, from, to),
    decreases p.len(),
{
    if p.len() == 0 {
        assert(p + s =~= s);
        assert(p + replace_all(s, from, to) =~= replace_all(s, from, to));
    } else {
        let q = p.drop_first();
        assert forall|i: int| 0 <= i < q.len() implies !(#[trigger] occurs_at(q + s, from, i)) by {
            if occurs_at(q + s, from, i) {
                assert((p + s).subrange(i + 1, i + 1 + from.len()) =~= (q + s).subrange(
                    i,
                    i + from.len(),
                ));
                assert(occurs_at(p + s, from, i + 1));
            }
        }
        lemma_beginning_passed(q, s, from, to);
        assert(seq![p[0]] + (q + s) =~= p + s);
        if from.is_prefix_of(p + s) {
            assert(occurs_at(p + s, from, 0));
        }
        law_replacement_goes_from_the_left(q + s, p[0], from, to);
        assert(seq![p[0]] + (q + replace_all(s, from, to)) =~= p + replace_all(s, from, to));
    }
}

/// The number that a row of decimal digits stands for.
pub open spec fn numeral_value(s: Seq<char>) -> int
    decreases s.len(),
{
    if s.len() == 0 {
        0
    } else {
        10 * numeral_value(s.drop_last()) + (s.last() as int - '0' as int)
    }
}

/// A numeral is a row of decimal digits without a needless zero in front, and reads
/// as its number.
pub proof fn law_numeral_reads_as_its_number(n: nat)
    ensures
        decimal(n).len() > 0,
        forall|i: int| 0 <= i < decimal(n).len() ==> '0' <= #[trigger] decimal(n)[i] <= '9',
        decimal(n).len() > 1 ==> decimal(n)[0] != '0',
        numeral_value(decimal(n)) == n,
    decreases n,
{
    reveal_with_fuel(numeral_value, 2);
    if n < 10 {
        assert(decimal(n).drop_last() =~= Seq::<char>::empty());
        assert(decimal(n).last() == digit(n));
    } else {
        law_numeral_reads_as_its_number(n / 10);
        assert(decimal(n).drop_last() =~= decimal(n / 10));
        assert(decimal(n)[0] == decimal(n / 10)[0]);
        if n / 10 < 10 {
            assert(decimal(n / 10)[0] == digit(n / 10));
        }
        assert forall|i: int| 0 <= i < decimal(n).len() implies '0' <= #[trigger] decimal(n)[i]
            <= '9' by {
            if i < decimal(n / 10).len() {
                assert(decimal(n)[i] == decimal(n / 10)[i]);
            }
        }
    }
}

/// The numeral of a negative number is a minus sign and the numeral of its amount;
/// that of any other number has no sign.
pub proof fn law_signed_numeral_reads_as_its_number(n: nat)
    ensures
        signed_decimal(n as int) == decimal(n),
        n > 0 ==> signed_decimal(-(n as int)) == seq!['-'] + decimal(n),
{
}

/// A text is blank where each of its characters is white space, and the characters
/// that are white space are those of Unicode.
pub proof fn law_blank_is_all_white_space(a: Seq<char>, b: Seq<char>, c: char)
    ensures
        is_blank(Seq::empty()),
        is_blank(a + b) <==> is_blank(a) && is_blank(b),
        is_blank(seq![c]) <==> {
            ||| c == '\t' || c == '\n' || c == '\u{b}' || c == '\u{c}' || c == '\r'
            ||| c == ' ' || c == '\u{85}' || c == '\u{a0}' || c == '\u{1680}'
            ||| 0x2000 <= c as int <= 0x200a
            ||| c == '\u{2028}' || c == '\u{2029}' || c == '\u{202f}' || c == '\u{205f}'
            ||| c == '\u{3000}'
        },
{
    if is_blank(a + b) {
        assert forall|i: int| 0 <= i < a.len() implies is_white_space(#[trigger] a[i]) by {
            assert(is_white_space((a + b)[i]));
        }
        assert forall|i: int| 0 <= i < b.len() implies is_white_space(#[trigger] b[i]) by {
            assert(is_white_space((a + b)[a.len() + i]));
        }
    }
    if is_blank(seq![c]) {
        assert(is_white_space(seq![c][0]));
    }
}

/// What is taken of a text is its beginning: the whole text where it is no longer
/// than the limit, and else just as many characters as the limit.
pub proof fn law_first_chars_are_a_beginning(s: Seq<char>, max_chars: nat)
    ensures
        s.len() <= max_chars ==> first_chars(s, max_chars) == s,
        s.len() > max_chars ==> first_chars(s, max_chars).len() == max_chars,
        forall|i: int|
            0 <= i < first_chars(s, max_chars).len() ==> #[trigger] first_chars(s, max_chars)[i]
                == s[i],
{
}

} // verus!
