//! What splitting, trimming and joining text is for: the pieces that a text was put together
//! from are found again.

use crate::text;
use vstd::prelude::*;

verus! {

/// All characters are white space.
pub open spec fn blank(s: Seq<char>) -> bool {
    forall|i: int| 0 <= i < s.len() ==> text::is_space(#[trigger] s[i])
}

/// A text that is not empty and has no white space in it.
pub open spec fn is_word(s: Seq<char>) -> bool {
    s.len() > 0 && forall|i: int| 0 <= i < s.len() ==> !text::is_space(#[trigger] s[i])
}

/// White space is a blank, the controls from the tabulator to the carriage return, and the
/// spaces and separators that Unicode has beyond ASCII.
pub proof fn lemma_space_characters(c: char)
    ensures
        (c as u32) < 0x80 ==> text::is_space(c) == (c == ' ' || c == '\t' || c == '\n' || c
            == '\u{b}' || c == '\u{c}' || c == '\r'),
        (c as u32) >= 0x80 ==> text::is_space(c) == (c as u32 == 0x85 || c as u32 == 0xa0
            || c as u32 == 0x1680 || (0x2000 <= c as u32 && c as u32 <= 0x200a) || c as u32
            == 0x2028 || c as u32 == 0x2029 || c as u32 == 0x202f || c as u32 == 0x205f || c as u32
            == 0x3000),
{
}

/// A word with white space before it is the first word of a text; the others are those of
/// what follows it.
pub proof fn lemma_words_first(gap: Seq<char>, word: Seq<char>, rest: Seq<char>)
    requires
        blank(gap),
        is_word(word),
        rest.len() == 0 || text::is_space(rest[0]),
    ensures
        text::words(gap + word + rest) == seq![word] + text::words(rest),
{
    let s = gap + word + rest;
    assert(!text::is_space(word[0]));
    text::lemma_prefix_len_is(s, text::space(), gap.len() as int);
    let tail = text::trim_start(s);
    assert(tail =~= word + rest);
    text::lemma_prefix_len_is(tail, text::visible(), word.len() as int);
    assert(tail.take(word.len() as int) =~= word);
    assert(tail.skip(word.len() as int) =~= rest);
}

/// White space alone has no words.
pub proof fn lemma_words_blank(gap: Seq<char>)
    requires
        blank(gap),
    ensures
        text::words(gap).len() == 0,
{
    text::lemma_prefix_len_is(gap, text::space(), gap.len() as int);
}

/// All of the texts are words.
pub open spec fn all_words(parts: Seq<Seq<char>>) -> bool {
    forall|i: int| 0 <= i < parts.len() ==> is_word(#[trigger] parts[i])
}

/// Words with blanks between them are found again.
pub proof fn lemma_words_joined(parts: Seq<Seq<char>>)
    requires
        all_words(parts),
    ensures
        text::words(text::join(parts, seq![' '])) == parts,
    decreases parts.len(),
{
    let none = Seq::<char>::empty();
    if parts.len() == 0 {
        lemma_words_blank(none);
        assert(text::join(parts, seq![' ']) =~= none);
        assert(text::words(none) =~= parts);
    } else if parts.len() == 1 {
        assert(is_word(parts[0]));
        lemma_words_first(none, parts[0], none);
        lemma_words_blank(none);
        assert(none + parts[0] + none =~= parts[0]);
        assert(seq![parts[0]] + text::words(none) =~= parts);
    } else {
        let rest = parts.skip(1);
        assert forall|i: int| 0 <= i < rest.len() implies is_word(#[trigger] rest[i]) by {
            assert(rest[i] == parts[i + 1]);
        }
        lemma_words_joined(rest);
        text::lemma_join_first(parts, seq![' ']);
        let tail = text::join(rest, seq![' ']);
        assert(is_word(parts[0]));
        lemma_words_first(none, parts[0], seq![' '] + tail);
        assert(none + parts[0] + (seq![' '] + tail) =~= parts[0] + seq![' '] + tail);
        lemma_words_after_gap(seq![' '], tail);
        assert(seq![parts[0]] + rest =~= parts);
    }
}

/// White space before a text does not change its words.
pub proof fn lemma_words_after_gap(gap: Seq<char>, s: Seq<char>)
    requires
        blank(gap),
    ensures
        text::words(gap + s) == text::words(s),
{
    let space = text::space();
    let all = gap + s;
    let n = text::prefix_len(s, space);
    text::lemma_prefix_len(s, space);
    assert forall|i: int| 0 <= i < gap.len() + n implies space(#[trigger] all[i]) by {
        if i >= gap.len() {
            assert(all[i] == s[i - gap.len()]);
        }
    }
    text::lemma_prefix_len_is(all, space, gap.len() + n);
    assert(text::trim_start(all) =~= text::trim_start(s));
}

/// What a text is split into at white space are words.
pub proof fn lemma_words_are_words(s: Seq<char>)
    ensures
        all_words(text::words(s)),
    decreases s.len(),
{
    let space = text::space();
    text::lemma_prefix_len(s, space);
    let rest = text::trim_start(s);
    if rest.len() > 0 {
        let n = text::prefix_len(rest, text::visible());
        text::lemma_prefix_len(rest, text::visible());
        assert(rest[0] == s[text::prefix_len(s, space)]);
        assert(text::visible()(rest[0]));
        lemma_words_are_words(rest.skip(n));
        let first = rest.take(n);
        assert forall|i: int| 0 <= i < first.len() implies !text::is_space(#[trigger] first[i]) by {
            assert(first[i] == rest[i]);
            assert(text::visible()(rest[i]));
        }
        let all = text::words(s);
        assert forall|i: int| 0 <= i < all.len() implies is_word(#[trigger] all[i]) by {
            if i > 0 {
                assert(all[i] == text::words(rest.skip(n))[i - 1]);
            }
        }
    }
}

/// What stands before the first line feed of a text is its first line, without the carriage
/// return at its end; the others are those of what follows.
pub proof fn lemma_lines_first(line: Seq<char>, rest: Seq<char>)
    requires
        !line.contains('\n'),
    ensures
        text::lines(line.push('\n') + rest) == seq![
            if line.len() > 0 && line.last() == '\r' {
                line.drop_last()
            } else {
                line
            },
        ] + text::lines(rest),
{
    let s = line.push('\n') + rest;
    let other = text::other_than('\n');
    assert forall|i: int| 0 <= i < line.len() implies other(#[trigger] s[i]) by {
        assert(s[i] == line[i]);
        assert(line.contains(line[i]));
    }
    text::lemma_prefix_len_is(s, other, line.len() as int);
    assert(s.take(line.len() as int) =~= line);
    assert(s.skip(line.len() as int + 1) =~= rest);
}

/// A text without a line feed is one line, the empty text none.
pub proof fn lemma_lines_last(line: Seq<char>)
    requires
        !line.contains('\n'),
    ensures
        text::lines(line) == if line.len() == 0 {
            Seq::empty()
        } else {
            seq![line]
        },
{
    let other = text::other_than('\n');
    assert forall|i: int| 0 <= i < line.len() implies other(#[trigger] line[i]) by {
        assert(line.contains(line[i]));
    }
    text::lemma_prefix_len_is(line, other, line.len() as int);
}

/// A text that starts and ends with something visible is left as it is, and nothing is left
/// of the white space around it.
pub proof fn lemma_trim_around(before: Seq<char>, s: Seq<char>, after: Seq<char>)
    requires
        blank(before),
        blank(after),
        s.len() > 0 ==> !text::is_space(s[0]) && !text::is_space(s.last()),
    ensures
        text::trim(before + s + after) == s,
{
    let all = before + s + after;
    if s.len() > 0 {
        text::lemma_prefix_len_is(all, text::space(), before.len() as int);
        assert(text::trim_start(all) =~= s + after);
        lemma_trim_end(s, after);
    } else {
        assert forall|i: int| 0 <= i < all.len() implies text::space()(#[trigger] all[i]) by {
            if i >= before.len() {
                assert(all[i] == after[i - before.len()]);
            } else {
                assert(all[i] == before[i]);
            }
        }
        text::lemma_prefix_len_is(all, text::space(), all.len() as int);
        assert(text::trim_start(all) =~= s);
    }
}

proof fn lemma_trim_end(s: Seq<char>, after: Seq<char>)
    requires
        blank(after),
        s.len() > 0 ==> !text::is_space(s.last()),
    ensures
        text::trim_end(s + after) == s,
    decreases after.len(),
{
    if after.len() > 0 {
        assert((s + after).last() == after.last());
        assert(text::is_space(after[after.len() - 1]));
        assert((s + after).drop_last() =~= s + after.drop_last());
        lemma_trim_end(s, after.drop_last());
    } else {
        assert(s + after =~= s);
    }
}

/// The piece before the first `d` is the first piece of a text; the others are those of what
/// follows.
pub proof fn lemma_split_first<T>(piece: Seq<T>, d: T, rest: Seq<T>)
    requires
        !piece.contains(d),
    ensures
        text::split(piece.push(d) + rest, d) == seq![piece] + text::split(rest, d),
        text::split(piece, d) == seq![piece],
{
    let s = piece.push(d) + rest;
    let other = text::other_than(d);
    assert forall|i: int| 0 <= i < piece.len() implies other(#[trigger] s[i]) && other(
        piece[i],
    ) by {
        assert(s[i] == piece[i]);
        assert(piece.contains(piece[i]));
    }
    text::lemma_prefix_len_is(s, other, piece.len() as int);
    text::lemma_prefix_len_is(piece, other, piece.len() as int);
    assert(s.take(piece.len() as int) =~= piece);
    assert(s.skip(piece.len() as int + 1) =~= rest);
}

/// A text is parted at its first `d`; one without it is not parted.
pub proof fn lemma_split_once_at(front: Seq<char>, d: char, tail: Seq<char>)
    requires
        !front.contains(d),
    ensures
        text::split_once(front.push(d) + tail, d) == Some((front, tail)),
        text::split_once(front, d) is None,
{
    let s = front.push(d) + tail;
    let other = text::other_than(d);
    assert forall|i: int| 0 <= i < front.len() implies other(#[trigger] s[i]) && other(
        front[i],
    ) by {
        assert(s[i] == front[i]);
        assert(front.contains(front[i]));
    }
    text::lemma_prefix_len_is(s, other, front.len() as int);
    text::lemma_prefix_len_is(front, other, front.len() as int);
    assert(s.take(front.len() as int) =~= front);
    assert(s.skip(front.len() as int + 1) =~= tail);
}

/// What stands behind the last `d` is found whatever stands before it; a text without it is
/// found whole.
pub proof fn lemma_after_last(front: Seq<char>, d: char, tail: Seq<char>)
    requires
        !tail.contains(d),
    ensures
        text::after_last(front.push(d) + tail, d) == tail,
        text::after_last(tail, d) == tail,
{
    crate::bytes::lemma_split_concat(front, tail, d);
    lemma_split_first(tail, d, Seq::empty());
    assert((text::split(front, d) + seq![tail]).last() == tail);
}

/// A prefix is taken off exactly where a text starts with it, and nothing else is.
pub proof fn lemma_strip_prefix(s: Seq<char>, prefix: Seq<char>)
    ensures
        match text::strip_prefix(s, prefix) {
            Some(rest) => s == prefix + rest,
            None => s.len() < prefix.len() || s.take(prefix.len() as int) != prefix,
        },
        text::strip_prefix(prefix + s, prefix) == Some(s),
{
    if prefix.is_prefix_of(s) {
        assert(s =~= prefix + s.skip(prefix.len() as int));
    }
    assert(prefix.is_prefix_of(prefix + s));
    assert((prefix + s).skip(prefix.len() as int) =~= s);
}

/// A text occurs in whatever has it in its middle, and in nothing else.
pub proof fn lemma_occurs(s: Seq<char>, needle: Seq<char>, before: Seq<char>, after: Seq<char>)
    ensures
        s == before + needle + after ==> text::occurs(s, needle),
        text::occurs(s, needle) ==> exists|i: int|
            0 <= i <= s.len() - needle.len() && s == #[trigger] s.take(i) + needle + s.skip(
                i + needle.len(),
            ),
{
    if s == before + needle + after {
        assert(s.subrange(before.len() as int, (before.len() + needle.len()) as int) =~= needle);
        assert(text::occurs_at(s, needle, before.len() as int));
    }
    if text::occurs(s, needle) {
        let i = choose|i: int| #[trigger] text::occurs_at(s, needle, i);
        assert(s =~= s.take(i) + needle + s.skip(i + needle.len()));
    }
}

/// Joined parts start with the first part, and each further part follows a separator.
pub proof fn lemma_join_grows<T>(parts: Seq<Seq<T>>, part: Seq<T>, sep: Seq<T>)
    ensures
        text::join(Seq::<Seq<T>>::empty(), sep) == Seq::<T>::empty(),
        text::join(seq![part], sep) == part,
        parts.len() > 0 ==> text::join(parts.push(part), sep) == text::join(parts, sep) + sep
            + part,
{
    if parts.len() > 0 {
        assert(parts.push(part).drop_last() =~= parts);
        assert(parts.push(part).last() == part);
    }
}

/// A text that stands in a list before is not added to those that are kept; any other one is
/// added at the end.
pub proof fn lemma_first_occurrences_grow(list: Seq<Seq<char>>, item: Seq<char>)
    ensures
        text::first_occurrences(Seq::<Seq<char>>::empty()).len() == 0,
        list.contains(item) ==> text::first_occurrences(list.push(item))
            == text::first_occurrences(list),
        !list.contains(item) ==> text::first_occurrences(list.push(item))
            == text::first_occurrences(list).push(item),
{
    assert(list.push(item).drop_last() =~= list);
    assert(list.push(item).last() == item);
}

/// White space behind a text does not change its words.
pub proof fn lemma_words_before_gap(s: Seq<char>, gap: Seq<char>)
    requires
        blank(gap),
    ensures
        text::words(s + gap) == text::words(s),
    decreases s.len(),
{
    let space = text::space();
    let visible = text::visible();
    text::lemma_prefix_len(s, space);
    let m = text::prefix_len(s, space);
    let rest = s.skip(m);
    assert(s =~= s.take(m) + rest);
    assert(s + gap =~= s.take(m) + (rest + gap));
    assert forall|i: int| 0 <= i < m implies text::is_space(#[trigger] s.take(m)[i]) by {
        assert(space(s[i]));
    }
    lemma_words_after_gap(s.take(m), rest + gap);
    lemma_words_after_gap(s.take(m), rest);
    if rest.len() == 0 {
        assert(rest + gap =~= gap);
        lemma_words_blank(gap);
        lemma_words_blank(rest);
        assert(text::words(gap) =~= text::words(rest));
    } else {
        assert(rest[0] == s[m]);
        let n = text::prefix_len(rest, visible);
        text::lemma_prefix_len(rest, visible);
        assert(visible(rest[0]));
        let word = rest.take(n);
        let tail = rest.skip(n);
        assert forall|i: int| 0 <= i < word.len() implies !text::is_space(#[trigger] word[i]) by {
            assert(visible(rest[i]));
        }
        let none = Seq::<char>::empty();
        assert(none + word + tail =~= rest);
        assert(none + word + (tail + gap) =~= rest + gap);
        if tail.len() > 0 {
            assert(tail[0] == rest[n]);
        } else if gap.len() > 0 {
            assert((tail + gap)[0] == gap[0]);
        }
        lemma_words_first(none, word, tail);
        lemma_words_first(none, word, tail + gap);
        lemma_words_before_gap(tail, gap);
    }
}

proof fn lemma_trim_end_gap(s: Seq<char>) -> (gap: Seq<char>)
    ensures
        blank(gap),
        s == text::trim_end(s) + gap,
    decreases s.len(),
{
    if s.len() > 0 && text::is_space(s.last()) {
        let more = lemma_trim_end_gap(s.drop_last());
        let gap = more.push(s.last());
        assert(s =~= s.drop_last().push(s.last()));
        assert((text::trim_end(s) + more).push(s.last()) =~= text::trim_end(s) + gap);
        gap
    } else {
        assert(s =~= s + Seq::<char>::empty());
        Seq::empty()
    }
}

/// The words of a text are those of the text without the white space around it.
pub proof fn lemma_words_of_trimmed(s: Seq<char>)
    ensures
        text::words(text::trim(s)) == text::words(s),
{
    let space = text::space();
    text::lemma_prefix_len(s, space);
    let m = text::prefix_len(s, space);
    let gap = s.take(m);
    let rest = text::trim_start(s);
    assert forall|i: int| 0 <= i < gap.len() implies text::is_space(#[trigger] gap[i]) by {
        assert(space(s[i]));
    }
    assert(s =~= gap + rest);
    lemma_words_after_gap(gap, rest);
    let behind = lemma_trim_end_gap(rest);
    lemma_words_before_gap(text::trim(s), behind);
}

/// Nothing of a text that starts with something visible is lost but white space at its end.
pub proof fn lemma_trim_keeps_visible(before: Seq<char>, s: Seq<char>)
    requires
        blank(before),
        s.len() > 0,
        !text::is_space(s[0]),
    ensures
        text::trim(before + s).len() > 0,
        text::trim(before + s) == text::trim_end(s),
{
    text::lemma_prefix_len_is(before + s, text::space(), before.len() as int);
    assert(text::trim_start(before + s) =~= s);
    lemma_trim_end_keeps(s);
}

proof fn lemma_trim_end_keeps(s: Seq<char>)
    requires
        s.len() > 0,
        !text::is_space(s[0]),
    ensures
        text::trim_end(s).len() > 0,
    decreases s.len(),
{
    if text::is_space(s.last()) {
        lemma_trim_end_keeps(s.drop_last());
    }
}

/// The digits of a number are a word.
pub proof fn lemma_digits_are_a_word(k: nat, n: int)
    requires
        0 <= n,
    ensures
        is_word(crate::laws::number::zeros(k) + crate::number::decimal(n)),
        is_word(crate::number::decimal(n)),
{
    crate::number::lemma_decimal_digits(n);
    let digits = crate::number::decimal(n);
    let s = crate::laws::number::zeros(k) + digits;
    assert forall|i: int| 0 <= i < digits.len() implies !text::is_space(#[trigger] digits[i]) by {
        assert('0' <= digits[i] <= '9');
    }
    assert forall|i: int| 0 <= i < s.len() implies !text::is_space(#[trigger] s[i]) by {
        if i >= k {
            assert(s[i] == digits[i - k]);
        }
    }
}

/// The lines from `at` on are those of the block.
pub open spec fn runs_at(lines: Seq<Seq<char>>, at: int, block: Seq<Seq<char>>) -> bool {
    0 <= at && at + block.len() <= lines.len() && lines.subrange(at, at + block.len()) == block
}

/// The blocks stand at these places, and none of them reaches into the next.
pub open spec fn placed(lines: Seq<Seq<char>>, blocks: Seq<Seq<Seq<char>>>, at: Seq<int>) -> bool {
    &&& at.len() == blocks.len()
    &&& forall|i: int| 0 <= i < at.len() ==> runs_at(lines, #[trigger] at[i], blocks[i])
    &&& forall|i: int, j: int|
        0 <= i < j < at.len() ==> #[trigger] at[i] + blocks[i].len() <= #[trigger] at[j]
}

/// The blocks stand among the lines, in their order.
pub open spec fn in_order(lines: Seq<Seq<char>>, blocks: Seq<Seq<Seq<char>>>) -> bool {
    exists|at: Seq<int>| placed(lines, blocks, at)
}

/// A line of a block that stands among the lines is one of them.
pub proof fn lemma_block_is_shown(
    lines: Seq<Seq<char>>,
    blocks: Seq<Seq<Seq<char>>>,
    i: int,
    k: int,
)
    requires
        in_order(lines, blocks),
        0 <= i < blocks.len(),
        0 <= k < blocks[i].len(),
    ensures
        lines.contains(blocks[i][k]),
{
    let at = choose|at: Seq<int>| placed(lines, blocks, at);
    assert(runs_at(lines, at[i], blocks[i]));
    assert(lines.subrange(at[i], at[i] + blocks[i].len())[k] == lines[at[i] + k]);
}

/// Blocks that stand in the middle of lines stand in all of them.
pub proof fn lemma_order_inside(
    before: Seq<Seq<char>>,
    lines: Seq<Seq<char>>,
    after: Seq<Seq<char>>,
    blocks: Seq<Seq<Seq<char>>>,
)
    requires
        in_order(lines, blocks),
    ensures
        in_order(before + lines + after, blocks),
{
    let all = before + lines + after;
    let at = choose|at: Seq<int>| placed(lines, blocks, at);
    let moved = Seq::new(at.len(), |i: int| before.len() + at[i]);
    assert forall|i: int| 0 <= i < moved.len() implies runs_at(all, #[trigger] moved[i], blocks[i]) by {
        assert(runs_at(lines, at[i], blocks[i]));
        assert(all.subrange(moved[i], moved[i] + blocks[i].len()) =~= lines.subrange(
            at[i],
            at[i] + blocks[i].len(),
        ));
    }
    assert forall|i: int, j: int| 0 <= i < j < moved.len() implies #[trigger] moved[i]
        + blocks[i].len() <= #[trigger] moved[j] by {
        assert(at[i] + blocks[i].len() <= at[j]);
    }
    assert(placed(all, blocks, moved));
}

/// One more block behind the lines stands behind all the others.
pub proof fn lemma_order_grows(
    lines: Seq<Seq<char>>,
    blocks: Seq<Seq<Seq<char>>>,
    block: Seq<Seq<char>>,
)
    requires
        in_order(lines, blocks),
    ensures
        in_order(lines + block, blocks.push(block)),
{
    let all = lines + block;
    let more = blocks.push(block);
    let old_at = choose|at: Seq<int>| placed(lines, blocks, at);
    let at = old_at.push(lines.len() as int);
    assert forall|i: int| 0 <= i < at.len() implies runs_at(all, #[trigger] at[i], more[i]) by {
        if i < old_at.len() {
            assert(runs_at(lines, old_at[i], blocks[i]));
            assert(all.subrange(at[i], at[i] + more[i].len()) =~= lines.subrange(
                old_at[i],
                old_at[i] + blocks[i].len(),
            ));
        } else {
            assert(all.subrange(at[i], at[i] + more[i].len()) =~= block);
        }
    }
    assert forall|i: int, j: int| 0 <= i < j < at.len() implies #[trigger] at[i] + more[i].len()
        <= #[trigger] at[j] by {
        assert(runs_at(lines, old_at[i], blocks[i]));
        if j < old_at.len() {
            assert(old_at[i] + blocks[i].len() <= old_at[j]);
        }
    }
    assert(placed(all, more, at));
}

/// No blocks stand among any lines.
pub proof fn lemma_order_of_none(lines: Seq<Seq<char>>)
    ensures
        in_order(lines, Seq::<Seq<Seq<char>>>::empty()),
{
    assert(placed(lines, Seq::<Seq<Seq<char>>>::empty(), Seq::<int>::empty()));
}

/// The blocks, one after the other.
pub open spec fn stacked(blocks: Seq<Seq<Seq<char>>>) -> Seq<Seq<char>>
    decreases blocks.len(),
{
    if blocks.len() == 0 {
        Seq::empty()
    } else {
        stacked(blocks.drop_last()) + blocks.last()
    }
}

/// Blocks one after the other stand in their order.
pub proof fn lemma_stacked_in_order(blocks: Seq<Seq<Seq<char>>>)
    ensures
        in_order(stacked(blocks), blocks),
    decreases blocks.len(),
{
    if blocks.len() == 0 {
        lemma_order_of_none(stacked(blocks));
        assert(blocks =~= Seq::<Seq<Seq<char>>>::empty());
    } else {
        lemma_stacked_in_order(blocks.drop_last());
        lemma_order_grows(stacked(blocks.drop_last()), blocks.drop_last(), blocks.last());
        assert(blocks.drop_last().push(blocks.last()) =~= blocks);
    }
}

/// A list of strings stands for their texts, in their order, and a string that may be missing
/// for its text.
pub proof fn lemma_texts_of_strings(list: Seq<String>, i: int, s: String)
    requires
        0 <= i < list.len(),
    ensures
        text::views(list).len() == list.len(),
        text::views(list)[i] == list[i]@,
        crate::process::opt_view(Some(s)) == Some(s@),
        crate::process::opt_view(None) is None,
{
}

} // verus!
