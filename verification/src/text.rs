//! Text as a sequence of characters: splitting, trimming and joining.

use vstd::prelude::*;

verus! {

/// `String::push` of std: the character is added at the end and nothing else changes.
pub assume_specification[ String::push ](s: &mut String, c: char)
    ensures
        final(s)@ == old(s)@.push(c),
;

// ---------------------------------------------------------------------------
// What the operations mean
// ---------------------------------------------------------------------------

/// The texts that a list of strings holds.
pub open spec fn views(v: Seq<String>) -> Seq<Seq<char>> {
    v.map_values(|s: String| s@)
}

/// The Unicode `White_Space` property.
pub open spec fn is_space(c: char) -> bool {
    ||| '\u{9}' <= c <= '\u{d}'
    ||| c == ' '
    ||| c == '\u{85}'
    ||| c == '\u{a0}'
    ||| c == '\u{1680}'
    ||| '\u{2000}' <= c <= '\u{200a}'
    ||| c == '\u{2028}'
    ||| c == '\u{2029}'
    ||| c == '\u{202f}'
    ||| c == '\u{205f}'
    ||| c == '\u{3000}'
}

/// The predicate "is white space".
pub open spec fn space() -> spec_fn(char) -> bool {
    |c: char| is_space(c)
}

/// The predicate "is not white space".
pub open spec fn visible() -> spec_fn(char) -> bool {
    |c: char| !is_space(c)
}

/// The predicate "is not `d`".
pub open spec fn other_than<T>(d: T) -> spec_fn(T) -> bool {
    |c: T| c != d
}

/// How many elements at the start of `s` satisfy `p` before the first that does not.
pub open spec fn prefix_len<T>(s: Seq<T>, p: spec_fn(T) -> bool) -> int
    decreases s.len(),
{
    if s.len() > 0 && p(s[0]) {
        1 + prefix_len(s.skip(1), p)
    } else {
        0
    }
}

/// `s` without the white space at its start.
pub open spec fn trim_start(s: Seq<char>) -> Seq<char> {
    s.skip(prefix_len(s, space()))
}

/// `s` without the white space at its end.
pub open spec fn trim_end(s: Seq<char>) -> Seq<char>
    decreases s.len(),
{
    if s.len() > 0 && is_space(s.last()) {
        trim_end(s.drop_last())
    } else {
        s
    }
}

/// `s` without the white space at both ends.
pub open spec fn trim(s: Seq<char>) -> Seq<char> {
    trim_end(trim_start(s))
}

/// A line that ended in a line feed, without the carriage return in front of it.
pub open spec fn without_return(line: Seq<char>) -> Seq<char> {
    if line.len() > 0 && line.last() == '\r' {
        line.drop_last()
    } else {
        line
    }
}

/// The lines of `s`: each ends at a line feed (with or without a carriage return in
/// front of it) or at the end of the text. A text that ends in a line feed has no
/// further empty line.
pub open spec fn lines(s: Seq<char>) -> Seq<Seq<char>>
    decreases s.len(),
    via lines_decreases
{
    if s.len() == 0 {
        Seq::empty()
    } else {
        let n = prefix_len(s, other_than('\n'));
        if n >= s.len() {
            seq![s]
        } else {
            seq![without_return(s.take(n))] + lines(s.skip(n + 1))
        }
    }
}

#[via_fn]
proof fn lines_decreases(s: Seq<char>) {
    lemma_prefix_len(s, other_than('\n'));
}

/// The pieces of `s` between white space; none of them is empty.
pub open spec fn words(s: Seq<char>) -> Seq<Seq<char>>
    decreases s.len(),
    via words_decreases
{
    let rest = trim_start(s);
    if rest.len() == 0 {
        Seq::empty()
    } else {
        let n = prefix_len(rest, visible());
        seq![rest.take(n)] + words(rest.skip(n))
    }
}

#[via_fn]
proof fn words_decreases(s: Seq<char>) {
    lemma_prefix_len(s, space());
    let rest = trim_start(s);
    lemma_prefix_len(rest, visible());
}

/// The pieces of `s` between the occurrences of `d`; there is always at least one.
pub open spec fn split<T>(s: Seq<T>, d: T) -> Seq<Seq<T>>
    decreases s.len(),
{
    proof {
        lemma_prefix_len(s, other_than(d));
    }
    let n = prefix_len(s, other_than(d));
    if n >= s.len() {
        seq![s]
    } else {
        seq![s.take(n)] + split(s.skip(n + 1), d)
    }
}

/// What stands before and after the first `d` of `s`, or `None` where there is none.
pub open spec fn split_once(s: Seq<char>, d: char) -> Option<(Seq<char>, Seq<char>)> {
    let n = prefix_len(s, other_than(d));
    if n >= s.len() {
        None
    } else {
        Some((s.take(n), s.skip(n + 1)))
    }
}

/// What stands after the last `d` of `s`, or all of `s` where there is none.
pub open spec fn after_last(s: Seq<char>, d: char) -> Seq<char> {
    split(s, d).last()
}

/// What follows `prefix` in `s`, or `None` where `s` does not start with it.
pub open spec fn strip_prefix(s: Seq<char>, prefix: Seq<char>) -> Option<Seq<char>> {
    if prefix.is_prefix_of(s) {
        Some(s.skip(prefix.len() as int))
    } else {
        None
    }
}

/// `needle` occurs somewhere in `s`.
pub open spec fn occurs(s: Seq<char>, needle: Seq<char>) -> bool {
    exists|i: int| #[trigger] occurs_at(s, needle, i)
}

/// `needle` stands in `s` at position `i`.
pub open spec fn occurs_at(s: Seq<char>, needle: Seq<char>, i: int) -> bool {
    0 <= i && i + needle.len() <= s.len() && s.subrange(i, i + needle.len()) == needle
}

/// The sequences of `parts` one after another with `sep` between each two.
pub open spec fn join<T>(parts: Seq<Seq<T>>, sep: Seq<T>) -> Seq<T>
    decreases parts.len(),
{
    if parts.len() == 0 {
        Seq::empty()
    } else if parts.len() == 1 {
        parts[0]
    } else {
        join(parts.drop_last(), sep) + sep + parts.last()
    }
}

/// The elements of `s` that differ from every element before them, in order.
pub open spec fn first_occurrences(s: Seq<Seq<char>>) -> Seq<Seq<char>>
    decreases s.len(),
{
    if s.len() == 0 {
        Seq::empty()
    } else {
        let before = first_occurrences(s.drop_last());
        if s.drop_last().contains(s.last()) {
            before
        } else {
            before.push(s.last())
        }
    }
}

// ---------------------------------------------------------------------------
// Facts about them
// ---------------------------------------------------------------------------

/// The elements that `prefix_len` counts satisfy the predicate, and the next one,
/// if there is one, does not.
pub proof fn lemma_prefix_len<T>(s: Seq<T>, p: spec_fn(T) -> bool)
    ensures
        0 <= prefix_len(s, p) <= s.len(),
        forall|i: int| 0 <= i < prefix_len(s, p) ==> p(#[trigger] s[i]),
        prefix_len(s, p) < s.len() ==> !p(s[prefix_len(s, p)]),
    decreases s.len(),
{
    if s.len() > 0 && p(s[0]) {
        let rest = s.skip(1);
        lemma_prefix_len(rest, p);
        assert forall|i: int| 0 <= i < prefix_len(s, p) implies p(#[trigger] s[i]) by {
            if i > 0 {
                assert(s[i] == rest[i - 1]);
            }
        }
    }
}

/// A position before which all elements satisfy the predicate, and at which none
/// does, is the one that `prefix_len` gives.
pub proof fn lemma_prefix_len_is<T>(s: Seq<T>, p: spec_fn(T) -> bool, n: int)
    requires
        0 <= n <= s.len(),
        forall|i: int| 0 <= i < n ==> p(#[trigger] s[i]),
        n < s.len() ==> !p(s[n]),
    ensures
        prefix_len(s, p) == n,
{
    lemma_prefix_len(s, p);
    let m = prefix_len(s, p);
    if m < n {
        assert(p(s[m]));
    } else if n < m {
        assert(p(s[n]));
    }
}

// ---------------------------------------------------------------------------
// Characters and strings
// ---------------------------------------------------------------------------

/// Whether `c` is white space.
pub fn is_whitespace(c: char) -> (r: bool)
    ensures
        r == is_space(c),
{
    ('\u{9}' <= c && c <= '\u{d}') || c == ' ' || c == '\u{85}' || c == '\u{a0}' || c == '\u{1680}'
        || ('\u{2000}' <= c && c <= '\u{200a}') || c == '\u{2028}' || c == '\u{2029}' || c
        == '\u{202f}' || c == '\u{205f}' || c == '\u{3000}'
}

/// The characters of a text.
pub fn chars_of(s: &str) -> (r: Vec<char>)
    ensures
        r@ == s@,
{
    let mut r: Vec<char> = Vec::new();
    for c in it: s.chars()
        invariant
            r@ == it.seq().take(it.index()),
            it.seq() == s@,
    {
        r.push(c);
        assert(it.seq().take(it.index() + 1) =~= it.seq().take(it.index()).push(c));
    }
    r
}

/// The text of the characters from `from` up to, not with, `to`.
pub fn text_of(cs: &[char], from: usize, to: usize) -> (r: String)
    requires
        from <= to <= cs@.len(),
    ensures
        r@ == cs@.subrange(from as int, to as int),
{
    let mut r = String::new();
    let mut i: usize = from;
    while i < to
        invariant
            from <= i <= to <= cs@.len(),
            r@ == cs@.subrange(from as int, i as int),
        decreases to - i,
    {
        r.push(cs[i]);
        assert(cs@.subrange(from as int, i + 1) =~= cs@.subrange(from as int, i as int).push(
            cs@[i as int],
        ));
        i += 1;
    }
    r
}

/// Whether two texts are the same.
pub fn text_eq(a: &str, b: &str) -> (r: bool)
    ensures
        r == (a@ == b@),
{
    let left = a.to_owned();
    let right = b.to_owned();
    left == right
}

/// The empty list of texts.
pub fn no_texts() -> (r: Vec<String>)
    ensures
        views(r@) == Seq::<Seq<char>>::empty(),
        r@.len() == 0,
{
    let r: Vec<String> = Vec::new();
    assert(views(r@) =~= Seq::<Seq<char>>::empty());
    r
}

/// Adds a text to a list of texts.
pub fn push_text(list: &mut Vec<String>, item: String)
    ensures
        views(final(list)@) == views(old(list)@).push(item@),
        final(list)@ == old(list)@.push(item),
{
    list.push(item);
    assert(views(list@) =~= views(old(list)@).push(item@));
}

/// Two texts one after the other.
pub fn cat2(a: &str, b: &str) -> (r: String)
    ensures
        r@ == a@ + b@,
{
    let mut r = a.to_owned();
    r.append(b);
    r
}

/// Three texts one after the other.
pub fn cat3(a: &str, b: &str, c: &str) -> (r: String)
    ensures
        r@ == a@ + b@ + c@,
{
    let mut r = cat2(a, b);
    r.append(c);
    r
}

/// Four texts one after the other.
pub fn cat4(a: &str, b: &str, c: &str, d: &str) -> (r: String)
    ensures
        r@ == a@ + b@ + c@ + d@,
{
    let mut r = cat3(a, b, c);
    r.append(d);
    r
}

/// Five texts one after the other.
pub fn cat5(a: &str, b: &str, c: &str, d: &str, e: &str) -> (r: String)
    ensures
        r@ == a@ + b@ + c@ + d@ + e@,
{
    let mut r = cat4(a, b, c, d);
    r.append(e);
    r
}

/// Six texts one after the other.
pub fn cat6(a: &str, b: &str, c: &str, d: &str, e: &str, f: &str) -> (r: String)
    ensures
        r@ == a@ + b@ + c@ + d@ + e@ + f@,
{
    let mut r = cat5(a, b, c, d, e);
    r.append(f);
    r
}

/// Seven texts one after the other.
pub fn cat7(a: &str, b: &str, c: &str, d: &str, e: &str, f: &str, g: &str) -> (r: String)
    ensures
        r@ == a@ + b@ + c@ + d@ + e@ + f@ + g@,
{
    let mut r = cat6(a, b, c, d, e, f);
    r.append(g);
    r
}

/// The texts of a list with `sep` between each two.
pub fn join_texts(parts: &Vec<String>, sep: &str) -> (r: String)
    ensures
        r@ == join(views(parts@), sep@),
{
    let ghost all = views(parts@);
    let mut r = String::new();
    let mut i: usize = 0;
    while i < parts.len()
        invariant
            i <= parts@.len(),
            all == views(parts@),
            r@ == join(all.take(i as int), sep@),
        decreases parts@.len() - i,
    {
        if i > 0 {
            r.append(sep);
        }
        let ghost before = r@;
        r.append(parts[i].as_str());
        proof {
            let next = all.take(i + 1);
            assert(next.drop_last() =~= all.take(i as int));
            assert(next.last() == parts@[i as int]@);
            if i == 0 {
                assert(r@ =~= parts@[0]@);
            }
        }
        i += 1;
    }
    assert(all.take(i as int) =~= all);
    r
}

// ---------------------------------------------------------------------------
// Searching
// ---------------------------------------------------------------------------

/// The first position at or after `from` at which `d` stands, or the length.
pub fn find_char(cs: &[char], from: usize, d: char) -> (r: usize)
    requires
        from <= cs@.len(),
    ensures
        from <= r <= cs@.len(),
        r - from == prefix_len(cs@.skip(from as int), other_than(d)),
        r < cs@.len() ==> cs@[r as int] == d,
{
    let mut i: usize = from;
    while i < cs.len() && cs[i] != d
        invariant
            from <= i <= cs@.len(),
            forall|k: int| from <= k < i ==> cs@[k] != d,
        decreases cs@.len() - i,
    {
        i += 1;
    }
    proof {
        lemma_prefix_len_is(cs@.skip(from as int), other_than(d), i - from);
    }
    i
}

/// The first position at or after `from` that holds white space, or the length.
fn find_space(cs: &[char], from: usize) -> (r: usize)
    requires
        from <= cs@.len(),
    ensures
        from <= r <= cs@.len(),
        r - from == prefix_len(cs@.skip(from as int), visible()),
{
    let mut i: usize = from;
    while i < cs.len() && !is_whitespace(cs[i])
        invariant
            from <= i <= cs@.len(),
            forall|k: int| from <= k < i ==> !is_space(#[trigger] cs@[k]),
        decreases cs@.len() - i,
    {
        i += 1;
    }
    proof {
        lemma_prefix_len_is(cs@.skip(from as int), visible(), i - from);
    }
    i
}

/// The first position at or after `from` that holds no white space, or the length.
fn find_visible(cs: &[char], from: usize) -> (r: usize)
    requires
        from <= cs@.len(),
    ensures
        from <= r <= cs@.len(),
        r - from == prefix_len(cs@.skip(from as int), space()),
{
    let mut i: usize = from;
    while i < cs.len() && is_whitespace(cs[i])
        invariant
            from <= i <= cs@.len(),
            forall|k: int| from <= k < i ==> is_space(#[trigger] cs@[k]),
        decreases cs@.len() - i,
    {
        i += 1;
    }
    proof {
        lemma_prefix_len_is(cs@.skip(from as int), space(), i - from);
    }
    i
}

/// Whether `s` starts with `prefix`.
pub fn starts_with(s: &str, prefix: &str) -> (r: bool)
    ensures
        r == prefix@.is_prefix_of(s@),
{
    let cs = chars_of(s);
    let ps = chars_of(prefix);
    if ps.len() > cs.len() {
        return false;
    }
    let mut i: usize = 0;
    while i < ps.len()
        invariant
            i <= ps@.len() <= cs@.len(),
            forall|k: int| 0 <= k < i ==> ps@[k] == cs@[k],
            ps@ == prefix@,
            cs@ == s@,
        decreases ps@.len() - i,
    {
        if ps[i] != cs[i] {
            assert(s@.subrange(0, prefix@.len() as int)[i as int] != prefix@[i as int]);
            return false;
        }
        i += 1;
    }
    assert(ps@ =~= cs@.subrange(0, ps@.len() as int));
    true
}

/// What follows `prefix` in `s`.
pub fn strip_prefix_text(s: &str, prefix: &str) -> (r: Option<String>)
    ensures
        match r {
            Some(rest) => strip_prefix(s@, prefix@) == Some(rest@),
            None => strip_prefix(s@, prefix@) is None,
        },
{
    if starts_with(s, prefix) {
        let cs = chars_of(s);
        let n: usize = prefix.unicode_len();
        Some(text_of(cs.as_slice(), n, cs.len()))
    } else {
        None
    }
}

/// Whether `s` ends with `suffix`.
pub fn ends_with(s: &str, suffix: &str) -> (r: bool)
    ensures
        r == suffix@.is_suffix_of(s@),
{
    let cs = chars_of(s);
    let ps = chars_of(suffix);
    if ps.len() > cs.len() {
        return false;
    }
    let d: usize = cs.len() - ps.len();
    let mut i: usize = 0;
    while i < ps.len()
        invariant
            i <= ps@.len(),
            d + ps.len() == cs.len(),
            forall|k: int| 0 <= k < i ==> ps@[k] == cs@[d + k],
            ps@ == suffix@,
            cs@ == s@,
        decreases ps@.len() - i,
    {
        if ps[i] != cs[d + i] {
            assert(s@.subrange(d as int, s@.len() as int)[i as int] != suffix@[i as int]);
            return false;
        }
        i += 1;
    }
    assert(ps@ =~= cs@.subrange(d as int, cs@.len() as int));
    true
}

/// Whether `c` occurs in `s`.
pub fn contains_char(s: &str, c: char) -> (r: bool)
    ensures
        r == s@.contains(c),
{
    let cs = chars_of(s);
    let n: usize = find_char(cs.as_slice(), 0, c);
    proof {
        assert(cs@.skip(0) =~= cs@);
        lemma_prefix_len(cs@, other_than(c));
    }
    n < cs.len()
}

/// Whether `needle` occurs in `s`.
pub fn contains_text(s: &str, needle: &str) -> (r: bool)
    ensures
        r == occurs(s@, needle@),
{
    let cs = chars_of(s);
    let ps = chars_of(needle);
    if ps.len() > cs.len() {
        return false;
    }
    let mut i: usize = 0;
    while i <= cs.len() - ps.len()
        invariant
            i <= cs@.len() - ps@.len() + 1,
            ps@.len() <= cs@.len(),
            ps@ == needle@,
            cs@ == s@,
            forall|k: int| 0 <= k < i ==> !occurs_at(s@, needle@, k),
        decreases cs@.len() - i,
    {
        let mut j: usize = 0;
        while j < ps.len() && cs[i + j] == ps[j]
            invariant
                j <= ps@.len(),
                i + ps.len() <= cs.len(),
                forall|k: int| 0 <= k < j ==> ps@[k] == cs@[i + k],
            decreases ps@.len() - j,
        {
            j += 1;
        }
        if j == ps.len() {
            assert(cs@.subrange(i as int, i + ps@.len()) =~= ps@);
            assert(occurs_at(s@, needle@, i as int));
            return true;
        }
        assert(cs@.subrange(i as int, i + ps@.len())[j as int] != ps@[j as int]);
        if i == cs.len() - ps.len() {
            return false;
        }
        i += 1;
    }
    false
}

// ---------------------------------------------------------------------------
// Splitting and trimming
// ---------------------------------------------------------------------------

/// `s` without the white space at both ends.
pub fn trim_text(s: &str) -> (r: String)
    ensures
        r@ == trim(s@),
{
    let cs = chars_of(s);
    let from: usize = find_visible(cs.as_slice(), 0);
    let mut to: usize = cs.len();
    proof {
        assert(cs@.skip(0) =~= cs@);
        assert(cs@.subrange(from as int, to as int) =~= trim_start(s@));
    }
    while to > from && is_whitespace(cs[to - 1])
        invariant
            from <= to <= cs@.len(),
            trim_end(cs@.subrange(from as int, to as int)) == trim(s@),
        decreases to - from,
    {
        assert(cs@.subrange(from as int, to as int).drop_last() =~= cs@.subrange(
            from as int,
            to - 1,
        ));
        to -= 1;
    }
    text_of(cs.as_slice(), from, to)
}

/// The lines of a text.
pub fn split_lines(s: &str) -> (r: Vec<String>)
    ensures
        views(r@) == lines(s@),
{
    let cs = chars_of(s);
    let mut r: Vec<String> = Vec::new();
    let mut from: usize = 0;
    proof {
        assert(cs@.skip(0) =~= cs@);
        assert(views(r@) + lines(cs@) =~= lines(cs@));
    }
    while from < cs.len()
        invariant
            from <= cs@.len(),
            cs@ == s@,
            views(r@) + lines(cs@.skip(from as int)) == lines(s@),
        decreases cs@.len() - from,
    {
        let ghost rest = cs@.skip(from as int);
        let ghost done = views(r@);
        let to: usize = find_char(cs.as_slice(), from, '\n');
        if to == cs.len() {
            push_text(&mut r, text_of(cs.as_slice(), from, to));
            proof {
                assert(rest =~= cs@.subrange(from as int, to as int));
                assert(cs@.skip(cs@.len() as int).len() == 0);
                assert(views(r@) + lines(cs@.skip(cs@.len() as int)) =~= done + seq![rest]);
            }
            from = to;
        } else {
            let mut end: usize = to;
            if end > from && cs[end - 1] == '\r' {
                end -= 1;
            }
            push_text(&mut r, text_of(cs.as_slice(), from, end));
            proof {
                assert(rest.take(to - from) =~= cs@.subrange(from as int, to as int));
                assert(without_return(rest.take(to - from)) =~= cs@.subrange(
                    from as int,
                    end as int,
                ));
                assert(rest.skip(to - from + 1) =~= cs@.skip(to + 1));
                assert(views(r@) + lines(cs@.skip(to + 1)) =~= done + (seq![
                    without_return(rest.take(to - from)),
                ] + lines(cs@.skip(to + 1))));
            }
            from = to + 1;
        }
    }
    assert(cs@.skip(from as int).len() == 0);
    assert(views(r@) + lines(cs@.skip(from as int)) =~= views(r@));
    r
}

/// The words of a text: the pieces between white space.
pub fn split_words(s: &str) -> (r: Vec<String>)
    ensures
        views(r@) == words(s@),
{
    let cs = chars_of(s);
    let mut r: Vec<String> = Vec::new();
    let mut from: usize = find_visible(cs.as_slice(), 0);
    proof {
        assert(cs@.skip(0) =~= cs@);
        assert(cs@.skip(from as int) =~= trim_start(s@));
        lemma_trim_start_twice(s@);
        lemma_words_of_trimmed(s@);
        assert(views(r@) + words(cs@.skip(from as int)) =~= words(s@));
    }
    while from < cs.len()
        invariant
            from <= cs@.len(),
            trim_start(cs@.skip(from as int)) == cs@.skip(from as int),
            views(r@) + words(cs@.skip(from as int)) == words(s@),
        decreases cs@.len() - from,
    {
        let ghost rest = cs@.skip(from as int);
        let ghost done = views(r@);
        let to: usize = find_space(cs.as_slice(), from);
        push_text(&mut r, text_of(cs.as_slice(), from, to));
        let next: usize = find_visible(cs.as_slice(), to);
        proof {
            lemma_prefix_len(rest, space());
            lemma_prefix_len(rest, visible());
            if prefix_len(rest, space()) > 0 {
                assert(rest.skip(prefix_len(rest, space())).len() < rest.len());
            }
            assert(to > from);
            assert(rest.take(to - from) =~= cs@.subrange(from as int, to as int));
            assert(rest.skip(to - from) =~= cs@.skip(to as int));
            assert(trim_start(cs@.skip(to as int)) =~= cs@.skip(next as int));
            lemma_trim_start_twice(cs@.skip(to as int));
            lemma_words_of_trimmed(cs@.skip(to as int));
            assert(views(r@) + words(cs@.skip(next as int)) =~= done + (seq![rest.take(to - from)]
                + words(cs@.skip(to as int))));
        }
        from = next;
    }
    proof {
        assert(cs@.skip(from as int).len() == 0);
        lemma_prefix_len(cs@.skip(from as int), space());
        assert(views(r@) + words(cs@.skip(from as int)) =~= views(r@));
    }
    r
}

proof fn lemma_trim_start_twice(s: Seq<char>)
    ensures
        trim_start(trim_start(s)) == trim_start(s),
{
    lemma_prefix_len(s, space());
    let rest = trim_start(s);
    if rest.len() > 0 {
        assert(rest[0] == s[prefix_len(s, space())]);
    }
    lemma_prefix_len_is(rest, space(), 0);
    assert(rest.skip(0) =~= rest);
}

proof fn lemma_words_of_trimmed(s: Seq<char>)
    ensures
        words(trim_start(s)) == words(s),
{
    lemma_trim_start_twice(s);
}

/// The pieces of a text between the occurrences of `d`.
pub fn split_on(s: &str, d: char) -> (r: Vec<String>)
    ensures
        views(r@) == split(s@, d),
        r@.len() > 0,
{
    let cs = chars_of(s);
    let mut r: Vec<String> = Vec::new();
    let mut from: usize = 0;
    let mut to: usize = find_char(cs.as_slice(), 0, d);
    proof {
        assert(cs@.skip(0) =~= cs@);
        assert(views(r@) + split(cs@, d) =~= split(cs@, d));
    }
    while to < cs.len()
        invariant
            from <= to <= cs@.len(),
            cs@ == s@,
            to - from == prefix_len(cs@.skip(from as int), other_than(d)),
            views(r@) + split(cs@.skip(from as int), d) == split(s@, d),
        decreases cs@.len() - to,
    {
        let ghost rest = cs@.skip(from as int);
        let ghost done = views(r@);
        push_text(&mut r, text_of(cs.as_slice(), from, to));
        proof {
            assert(rest.take(to - from) =~= cs@.subrange(from as int, to as int));
            assert(rest.skip(to - from + 1) =~= cs@.skip(to + 1));
            assert(views(r@) + split(cs@.skip(to + 1), d) =~= done + (seq![rest.take(to - from)]
                + split(cs@.skip(to + 1), d)));
        }
        from = to + 1;
        to = find_char(cs.as_slice(), from, d);
    }
    let ghost done = views(r@);
    push_text(&mut r, text_of(cs.as_slice(), from, to));
    proof {
        assert(cs@.skip(from as int) =~= cs@.subrange(from as int, to as int));
        assert(views(r@) =~= done + seq![cs@.skip(from as int)]);
    }
    r
}

/// What stands before and after the first `d`.
pub fn split_once_on(s: &str, d: char) -> (r: Option<(String, String)>)
    ensures
        match r {
            Some(pair) => split_once(s@, d) == Some((pair.0@, pair.1@)),
            None => split_once(s@, d) is None,
        },
{
    let cs = chars_of(s);
    let n: usize = find_char(cs.as_slice(), 0, d);
    assert(cs@.skip(0) =~= cs@);
    if n == cs.len() {
        return None;
    }
    Some((text_of(cs.as_slice(), 0, n), text_of(cs.as_slice(), n + 1, cs.len())))
}

/// What stands after the last `d`, or the whole text.
pub fn after_last_of(s: &str, d: char) -> (r: String)
    ensures
        r@ == after_last(s@, d),
{
    let parts = split_on(s, d);
    parts[parts.len() - 1].clone()
}

/// Whether a list of texts holds a text.
pub fn holds_text(list: &Vec<String>, item: &str) -> (r: bool)
    ensures
        r == views(list@).contains(item@),
{
    let mut i: usize = 0;
    while i < list.len()
        invariant
            i <= list@.len(),
            forall|k: int| 0 <= k < i ==> views(list@)[k] != item@,
        decreases list@.len() - i,
    {
        if text_eq(list[i].as_str(), item) {
            assert(views(list@)[i as int] == item@);
            return true;
        }
        i += 1;
    }
    false
}

/// The texts of a list that differ from every text before them.
pub fn unique_texts(list: &Vec<String>) -> (r: Vec<String>)
    ensures
        views(r@) == first_occurrences(views(list@)),
{
    let ghost all = views(list@);
    let mut r: Vec<String> = Vec::new();
    let mut i: usize = 0;
    while i < list.len()
        invariant
            i <= list@.len(),
            all == views(list@),
            views(r@) == first_occurrences(all.take(i as int)),
        decreases list@.len() - i,
    {
        proof {
            lemma_first_occurrences(all.take(i as int));
            let next = all.take(i + 1);
            assert(next.drop_last() =~= all.take(i as int));
            assert(next.last() == list@[i as int]@);
        }
        if !holds_text(&r, list[i].as_str()) {
            let copy = list[i].clone();
            push_text(&mut r, copy);
        }
        i += 1;
    }
    assert(all.take(i as int) =~= all);
    r
}

/// What `first_occurrences` keeps: the same texts, none of them twice.
pub proof fn lemma_first_occurrences(s: Seq<Seq<char>>)
    ensures
        first_occurrences(s).no_duplicates(),
        first_occurrences(s).len() <= s.len(),
        s.len() > 0 ==> first_occurrences(s).len() > 0,
        forall|x: Seq<char>| #[trigger] first_occurrences(s).contains(x) <==> s.contains(x),
    decreases s.len(),
{
    if s.len() > 0 {
        let init = s.drop_last();
        let before = first_occurrences(init);
        lemma_first_occurrences(init);
        assert forall|x: Seq<char>| #[trigger] first_occurrences(s).contains(x) <==> s.contains(
            x,
        ) by {
            if s.contains(x) {
                let i = choose|i: int| 0 <= i < s.len() && s[i] == x;
                if i < init.len() {
                    assert(init[i] == x);
                    assert(init.contains(x));
                    assert(before.contains(x));
                    let j = choose|j: int| 0 <= j < before.len() && before[j] == x;
                    assert(first_occurrences(s)[j] == x);
                } else if init.contains(x) {
                    assert(before.contains(x));
                } else {
                    assert(first_occurrences(s)[before.len() as int] == x);
                }
            }
            if first_occurrences(s).contains(x) {
                let j = choose|j: int|
                    0 <= j < first_occurrences(s).len() && first_occurrences(s)[j] == x;
                if j < before.len() {
                    assert(before[j] == x);
                    assert(before.contains(x));
                    assert(init.contains(x));
                    let i = choose|i: int| 0 <= i < init.len() && init[i] == x;
                    assert(s[i] == x);
                } else {
                    assert(s[s.len() - 1] == x);
                }
            }
        }
        assert(first_occurrences(s).no_duplicates()) by {
            if !init.contains(s.last()) {
                assert(!before.contains(s.last()));
            }
        }
    }
}

/// Parts that are joined start with the first part and the separator.
pub proof fn lemma_join_first<T>(parts: Seq<Seq<T>>, sep: Seq<T>)
    requires
        parts.len() > 1,
    ensures
        join(parts, sep) == parts[0] + sep + join(parts.skip(1), sep),
    decreases parts.len(),
{
    let rest = parts.skip(1);
    assert(parts.drop_last().skip(1) =~= rest.drop_last());
    assert(rest.last() == parts.last());
    if parts.len() > 2 {
        lemma_join_first(parts.drop_last(), sep);
        assert(parts.drop_last()[0] == parts[0]);
        assert(join(parts, sep) =~= parts[0] + sep + join(rest, sep));
    } else {
        assert(join(parts.drop_last(), sep) == parts[0]);
        assert(join(rest, sep) == parts.last());
    }
}

/// The text is one line: it holds no line feed and does not end in a carriage return.
pub open spec fn is_line(s: Seq<char>) -> bool {
    !s.contains('\n') && !(s.len() > 0 && s.last() == '\r')
}

/// Lines that are joined with line feeds are found again, unless the last one is empty.
pub proof fn lemma_joined_lines(parts: Seq<Seq<char>>)
    requires
        parts.len() > 0,
        parts.last().len() > 0,
        forall|i: int| 0 <= i < parts.len() ==> is_line(#[trigger] parts[i]),
    ensures
        lines(join(parts, seq!['\n'])) == parts,
    decreases parts.len(),
{
    let other = other_than('\n');
    let first = parts[0];
    assert(is_line(parts[0]));
    assert forall|k: int| 0 <= k < first.len() implies other(#[trigger] first[k]) by {
        assert(first.contains(first[k]));
    }
    if parts.len() == 1 {
        lemma_prefix_len_is(first, other, first.len() as int);
        assert(parts =~= seq![first]);
    } else {
        let rest = parts.skip(1);
        assert forall|i: int| 0 <= i < rest.len() implies is_line(#[trigger] rest[i]) by {
            assert(rest[i] == parts[i + 1]);
        }
        assert(rest.last() == parts.last());
        lemma_joined_lines(rest);
        lemma_join_first(parts, seq!['\n']);
        let tail = join(rest, seq!['\n']);
        let all = join(parts, seq!['\n']);
        assert(all =~= first.push('\n') + tail);
        lemma_prefix_len_is(all, other, first.len() as int);
        assert(all.take(first.len() as int) =~= first);
        assert(all.skip(first.len() as int + 1) =~= tail);
        assert(seq![first] + rest =~= parts);
    }
}

} // verus!
