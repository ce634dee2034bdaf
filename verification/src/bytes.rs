//! Raw bytes: splitting, and the text that they hold.

use crate::text;
use vstd::prelude::*;
use vstd::utf8;

verus! {

/// The text that `String::from_utf8_lossy` of std makes of bytes that are not UTF-8: it
/// puts replacement characters where they are not.
pub uninterp spec fn repaired(bytes: Seq<u8>) -> Seq<char>;

/// The text that stands for bytes: the text that they hold if they are UTF-8, else one with
/// replacement characters.
pub open spec fn lossy(bytes: Seq<u8>) -> Seq<char> {
    if utf8::valid_utf8(bytes) {
        utf8::decode_utf8(bytes)
    } else {
        repaired(bytes)
    }
}

/// `String::from_utf8_lossy` of std. Bytes that are UTF-8 keep their text; of others the
/// text depends on the bytes alone.
#[verifier::external_body]
pub(crate) fn lossy_text(bytes: &[u8]) -> (r: String)
    ensures
        utf8::valid_utf8(bytes@) ==> r@ == utf8::decode_utf8(bytes@),
        !utf8::valid_utf8(bytes@) ==> r@ == repaired(bytes@),
{
    String::from_utf8_lossy(bytes).into_owned()
}

/// `std::str::from_utf8`: it succeeds exactly on UTF-8, with the text that the bytes hold.
#[verifier::external_body]
pub(crate) fn exact_text(bytes: &[u8]) -> (r: Option<String>)
    ensures
        match r {
            Some(s) => utf8::valid_utf8(bytes@) && s@ == utf8::decode_utf8(bytes@),
            None => !utf8::valid_utf8(bytes@),
        },
{
    std::str::from_utf8(bytes).ok().map(str::to_owned)
}

/// The byte strings that a list holds.
pub open spec fn byte_views(v: Seq<Vec<u8>>) -> Seq<Seq<u8>> {
    v.map_values(|b: Vec<u8>| b@)
}

/// The bytes from `from` up to, not with, `to`.
pub fn bytes_of(b: &[u8], from: usize, to: usize) -> (r: Vec<u8>)
    requires
        from <= to <= b@.len(),
    ensures
        r@ == b@.subrange(from as int, to as int),
{
    let mut r: Vec<u8> = Vec::new();
    let mut i: usize = from;
    while i < to
        invariant
            from <= i <= to <= b@.len(),
            r@ == b@.subrange(from as int, i as int),
        decreases to - i,
    {
        r.push(b[i]);
        assert(b@.subrange(from as int, i + 1) =~= b@.subrange(from as int, i as int).push(
            b@[i as int],
        ));
        i += 1;
    }
    r
}

/// Adds a byte string to a list.
pub fn push_bytes(list: &mut Vec<Vec<u8>>, item: Vec<u8>)
    ensures
        byte_views(final(list)@) == byte_views(old(list)@).push(item@),
        final(list)@ == old(list)@.push(item),
{
    list.push(item);
    assert(byte_views(list@) =~= byte_views(old(list)@).push(item@));
}

/// Whether two byte strings are the same.
pub fn bytes_eq(a: &[u8], b: &[u8]) -> (r: bool)
    ensures
        r == (a@ == b@),
{
    if a.len() != b.len() {
        return false;
    }
    let mut i: usize = 0;
    while i < a.len()
        invariant
            i <= a@.len() == b@.len(),
            forall|k: int| 0 <= k < i ==> a@[k] == b@[k],
        decreases a@.len() - i,
    {
        if a[i] != b[i] {
            return false;
        }
        i += 1;
    }
    assert(a@ =~= b@);
    true
}

/// The first position at or after `from` at which `d` stands, or the length.
pub fn find_byte(b: &[u8], from: usize, d: u8) -> (r: usize)
    requires
        from <= b@.len(),
    ensures
        from <= r <= b@.len(),
        r - from == text::prefix_len(b@.skip(from as int), text::other_than(d)),
{
    let mut i: usize = from;
    while i < b.len() && b[i] != d
        invariant
            from <= i <= b@.len(),
            forall|k: int| from <= k < i ==> b@[k] != d,
        decreases b@.len() - i,
    {
        i += 1;
    }
    proof {
        text::lemma_prefix_len_is(b@.skip(from as int), text::other_than(d), i - from);
    }
    i
}

/// The pieces of a byte string between the occurrences of `d`.
pub fn split_bytes(b: &[u8], d: u8) -> (r: Vec<Vec<u8>>)
    ensures
        byte_views(r@) == text::split(b@, d),
        r@.len() > 0,
{
    let mut r: Vec<Vec<u8>> = Vec::new();
    let mut from: usize = 0;
    let mut to: usize = find_byte(b, 0, d);
    proof {
        assert(b@.skip(0) =~= b@);
        assert(byte_views(r@) + text::split(b@, d) =~= text::split(b@, d));
    }
    while to < b.len()
        invariant
            from <= to <= b@.len(),
            to - from == text::prefix_len(b@.skip(from as int), text::other_than(d)),
            byte_views(r@) + text::split(b@.skip(from as int), d) == text::split(b@, d),
        decreases b@.len() - to,
    {
        let ghost rest = b@.skip(from as int);
        let ghost done = byte_views(r@);
        push_bytes(&mut r, bytes_of(b, from, to));
        proof {
            assert(rest.take(to - from) =~= b@.subrange(from as int, to as int));
            assert(rest.skip(to - from + 1) =~= b@.skip(to + 1));
            assert(byte_views(r@) + text::split(b@.skip(to + 1), d) =~= done + (seq![
                rest.take(to - from),
            ] + text::split(b@.skip(to + 1), d)));
        }
        from = to + 1;
        to = find_byte(b, from, d);
    }
    let ghost done = byte_views(r@);
    push_bytes(&mut r, bytes_of(b, from, to));
    proof {
        assert(b@.skip(from as int) =~= b@.subrange(from as int, to as int));
        assert(byte_views(r@) =~= done + seq![b@.skip(from as int)]);
    }
    r
}

/// No piece of a byte string holds the byte that it was split at.
pub proof fn lemma_split_pieces<T>(s: Seq<T>, d: T)
    ensures
        text::split(s, d).len() > 0,
        forall|i: int| 0 <= i < text::split(s, d).len() ==> !(#[trigger] text::split(s, d)[i]).contains(d),
    decreases s.len(),
{
    text::lemma_prefix_len(s, text::other_than(d));
    let n = text::prefix_len(s, text::other_than(d));
    if n < s.len() {
        let rest = text::split(s.skip(n + 1), d);
        lemma_split_pieces(s.skip(n + 1), d);
        assert forall|i: int| 0 <= i < text::split(s, d).len() implies !(#[trigger] text::split(
            s,
            d,
        )[i]).contains(d) by {
            if i > 0 {
                assert(text::split(s, d)[i] == rest[i - 1]);
            } else {
                assert(text::split(s, d)[0] == s.take(n));
            }
        }
    } else {
        assert(text::split(s, d) =~= seq![s]);
    }
}

/// The pieces of two byte strings with `d` between them are those of the first and then
/// those of the second.
pub proof fn lemma_split_concat<T>(a: Seq<T>, b: Seq<T>, d: T)
    ensures
        text::split(a.push(d) + b, d) == text::split(a, d) + text::split(b, d),
    decreases a.len(),
{
    let other = text::other_than(d);
    let s = a.push(d) + b;
    let n = text::prefix_len(a, other);
    text::lemma_prefix_len(a, other);
    if n < a.len() {
        text::lemma_prefix_len_is(s, other, n);
        assert(s.take(n) =~= a.take(n));
        assert(s.skip(n + 1) =~= a.skip(n + 1).push(d) + b);
        lemma_split_concat(a.skip(n + 1), b, d);
        assert(text::split(s, d) =~= text::split(a, d) + text::split(b, d));
    } else {
        text::lemma_prefix_len_is(s, other, a.len() as int);
        assert(s.take(a.len() as int) =~= a);
        assert(s.skip(a.len() as int + 1) =~= b);
        assert(text::split(a, d) =~= seq![a]);
    }
}

/// Pieces without `d` that are joined with `d` are found again when that is split.
pub proof fn lemma_join_splits<T>(parts: Seq<Seq<T>>, d: T)
    requires
        parts.len() > 0,
        forall|i: int| 0 <= i < parts.len() ==> !(#[trigger] parts[i]).contains(d),
    ensures
        text::split(text::join(parts, seq![d]), d) == parts,
    decreases parts.len(),
{
    let other = text::other_than(d);
    let last = parts.last();
    assert forall|k: int| 0 <= k < last.len() implies other(#[trigger] last[k]) by {
        assert(last.contains(last[k]));
        assert(parts[parts.len() - 1] == last);
    }
    text::lemma_prefix_len_is(last, other, last.len() as int);
    assert(text::split(last, d) =~= seq![last]);
    if parts.len() > 1 {
        let rest = parts.drop_last();
        assert forall|i: int| 0 <= i < rest.len() implies !(#[trigger] rest[i]).contains(d) by {
            assert(rest[i] == parts[i]);
        }
        lemma_join_splits(rest, d);
        let before = text::join(rest, seq![d]);
        assert(text::join(parts, seq![d]) =~= before.push(d) + last);
        lemma_split_concat(before, last, d);
        assert(rest + seq![last] =~= parts);
    } else {
        assert(parts =~= seq![last]);
    }
}

} // verus!
