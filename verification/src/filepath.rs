//! Unix paths: byte strings whose names are separated by slashes.

use crate::bytes;
use crate::bytes::{bytes_eq, bytes_of, lossy_text, split_bytes};
use crate::text;
use vstd::prelude::*;

verus! {

/// A path as the system hands it out. It need not be UTF-8. Paths are equal where they lead
/// through the same names, however often a slash is repeated.
#[derive(Debug)]
pub struct FilePath {
    pub bytes: Vec<u8>,
}

impl View for FilePath {
    type V = Seq<u8>;

    open spec fn view(&self) -> Seq<u8> {
        self.bytes@
    }
}

/// The paths that a list holds.
pub open spec fn path_views(v: Seq<FilePath>) -> Seq<Seq<u8>> {
    v.map_values(|p: FilePath| p@)
}

/// The slash.
pub open spec fn slash() -> u8 {
    0x2f
}

/// The full stop.
pub open spec fn dot() -> u8 {
    0x2e
}

/// The path starts at the root.
pub open spec fn is_rooted(p: Seq<u8>) -> bool {
    p.len() > 0 && p[0] == slash()
}

/// `base` followed by `tail`: a tail that starts at the root stands alone, another one is
/// set off by a slash unless the base is empty or ends in one.
pub open spec fn joined(base: Seq<u8>, tail: Seq<u8>) -> Seq<u8> {
    if is_rooted(tail) {
        tail
    } else if base.len() == 0 || base.last() == slash() {
        base + tail
    } else {
        base.push(slash()) + tail
    }
}

/// The piece of a path between two slashes names an entry: it is neither empty nor `.`.
pub open spec fn is_name(piece: Seq<u8>) -> bool {
    piece.len() > 0 && piece != seq![dot()]
}

/// The predicate `is_name`.
pub open spec fn naming() -> spec_fn(Seq<u8>) -> bool {
    |piece: Seq<u8>| is_name(piece)
}

/// The names on a path, from its start to its end; `..` is one of them.
pub open spec fn names(p: Seq<u8>) -> Seq<Seq<u8>> {
    text::split(p, slash()).filter(naming())
}

/// How many bytes at the start of a path stand before its first name can: the slash of
/// the root, or the `.` of a path that starts in the current directory.
pub open spec fn body_start(p: Seq<u8>) -> int {
    if is_rooted(p) || starts_here(p) {
        1
    } else {
        0
    }
}

/// The path is `.` or starts with `./`.
pub open spec fn starts_here(p: Seq<u8>) -> bool {
    p.len() > 0 && p[0] == dot() && (p.len() == 1 || p[1] == slash())
}

/// Two paths lead through the same names from the same start. Repeated slashes, a slash at
/// the end, and each `.` but one at the start make no difference.
pub open spec fn same_path(a: Seq<u8>, b: Seq<u8>) -> bool {
    &&& is_rooted(a) == is_rooted(b)
    &&& starts_here(a) == starts_here(b)
    &&& names(a) == names(b)
}

/// Where the last piece of a path starts: behind the last slash at or after `start`.
pub open spec fn last_piece(p: Seq<u8>, start: int) -> int
    decreases p.len(),
{
    if p.len() == 0 || p.len() <= start {
        start
    } else if p.last() == slash() {
        p.len() as int
    } else {
        last_piece(p.drop_last(), start)
    }
}

/// A path without its last piece, which starts at `at`, and without the slash before it.
pub open spec fn before_piece(p: Seq<u8>, start: int, at: int) -> Seq<u8> {
    if at > start {
        p.take(at - 1)
    } else {
        p.take(start)
    }
}

/// A path without the pieces at its end that name nothing.
pub open spec fn trim_unnamed(p: Seq<u8>, start: int) -> Seq<u8>
    decreases p.len(),
{
    proof {
        lemma_last_piece(p, start);
    }
    let at = last_piece(p, start);
    if 0 <= start < p.len() && !is_name(p.skip(at)) {
        trim_unnamed(before_piece(p, start, at), start)
    } else {
        p
    }
}

/// The path of the directory that holds the last entry of `p`; the root and the empty
/// path have none.
pub open spec fn parent_of(p: Seq<u8>) -> Option<Seq<u8>> {
    let start = body_start(p);
    let named = trim_unnamed(p, start);
    if named.len() > start {
        Some(trim_unnamed(before_piece(named, start, last_piece(named, start)), start))
    } else if starts_here(p) {
        Some(Seq::empty())
    } else {
        None
    }
}

/// Where the last piece of a path starts, in bounds.
pub proof fn lemma_last_piece(p: Seq<u8>, start: int)
    ensures
        0 <= start < p.len() ==> start <= last_piece(p, start) <= p.len(),
        start >= p.len() ==> last_piece(p, start) == start,
    decreases p.len(),
{
    if 0 <= start < p.len() && p.last() != slash() {
        lemma_last_piece(p.drop_last(), start);
    }
}

/// A path that a text writes is shown as that text.
pub proof fn lemma_text_is_shown(s: Seq<char>)
    ensures
        bytes::lossy(vstd::utf8::encode_utf8(s)) == s,
{
    vstd::utf8::encode_utf8_valid_utf8(s);
    vstd::utf8::encode_utf8_decode_utf8(s);
}

/// Whether a piece of a path names an entry.
pub fn names_entry(piece: &[u8]) -> (r: bool)
    ensures
        r == is_name(piece@),
{
    proof {
        if piece@.len() == 1 && piece@[0] == dot() {
            assert(piece@ =~= seq![dot()]);
        }
        if piece@ == seq![dot()] {
            assert(piece@[0] == dot());
        }
    }
    piece.len() > 0 && !(piece.len() == 1 && piece[0] == 0x2e)
}

/// Where the last piece of the first `len` bytes starts.
fn find_last_piece(b: &Vec<u8>, len: usize, start: usize) -> (r: usize)
    requires
        start <= len <= b@.len(),
    ensures
        r == last_piece(b@.take(len as int), start as int),
        start <= r <= len,
{
    let mut i: usize = len;
    while i > start && b[i - 1] != 0x2f
        invariant
            start <= i <= len <= b@.len(),
            last_piece(b@.take(len as int), start as int) == last_piece(
                b@.take(i as int),
                start as int,
            ),
        decreases i,
    {
        assert(b@.take(i as int).drop_last() =~= b@.take(i - 1));
        i -= 1;
    }
    i
}

/// How many bytes are left without the unnamed pieces at the end of the first `len`.
fn find_named_end(b: &Vec<u8>, len: usize, start: usize) -> (r: usize)
    requires
        start <= len <= b@.len(),
    ensures
        start <= r <= len,
        trim_unnamed(b@.take(len as int), start as int) == b@.take(r as int),
{
    let mut n: usize = len;
    loop
        invariant
            start <= n <= len <= b@.len(),
            trim_unnamed(b@.take(len as int), start as int) == trim_unnamed(
                b@.take(n as int),
                start as int,
            ),
        decreases n,
    {
        if n <= start {
            return n;
        }
        let at: usize = find_last_piece(b, n, start);
        let piece = bytes_of(b.as_slice(), at, n);
        assert(piece@ =~= b@.take(n as int).skip(at as int));
        if names_entry(piece.as_slice()) {
            return n;
        }
        proof {
            if at > start {
                assert(b@.take(n as int).take(at - 1) =~= b@.take(at - 1));
            } else {
                assert(b@.take(n as int).take(start as int) =~= b@.take(start as int));
            }
        }
        n = if at > start {
            at - 1
        } else {
            start
        };
    }
}

fn same_names(a: &Vec<Vec<u8>>, b: &Vec<Vec<u8>>) -> (r: bool)
    ensures
        r == (bytes::byte_views(a@) == bytes::byte_views(b@)),
{
    let ghost left = bytes::byte_views(a@);
    let ghost right = bytes::byte_views(b@);
    assert(left.len() == a@.len() && right.len() == b@.len());
    if a.len() != b.len() {
        return false;
    }
    let mut i: usize = 0;
    while i < a.len()
        invariant
            i <= a@.len() == b@.len(),
            left == bytes::byte_views(a@),
            right == bytes::byte_views(b@),
            forall|k: int| 0 <= k < i ==> left[k] == right[k],
        decreases a@.len() - i,
    {
        assert(left[i as int] == a@[i as int]@ && right[i as int] == b@[i as int]@);
        if !bytes_eq(a[i].as_slice(), b[i].as_slice()) {
            return false;
        }
        i += 1;
    }
    assert(left =~= right);
    true
}

impl PartialEq for FilePath {
    fn eq(&self, other: &Self) -> (r: bool) {
        self.leads_as(other)
    }
}

impl vstd::std_specs::cmp::PartialEqSpecImpl for FilePath {
    open spec fn obeys_eq_spec() -> bool {
        true
    }

    open spec fn eq_spec(&self, other: &Self) -> bool {
        same_path(self@, other@)
    }
}

impl Eq for FilePath {

}

impl Clone for FilePath {
    fn clone(&self) -> (r: Self)
        ensures
            r@ == self@,
    {
        let r = FilePath { bytes: bytes_of(self.bytes.as_slice(), 0, self.bytes.len()) };
        assert(r@ =~= self@);
        r
    }
}

impl FilePath {
    /// The path that a text writes.
    pub fn new(s: &str) -> (r: FilePath)
        ensures
            r@ == vstd::utf8::encode_utf8(s@),
    {
        let b = s.as_bytes();
        FilePath { bytes: bytes_of(b, 0, b.len()) }
    }

    /// The text that shows the path.
    pub fn display(&self) -> (r: String)
        ensures
            r@ == bytes::lossy(self@),
    {
        lossy_text(self.bytes.as_slice())
    }

    /// Whether the path starts at the root.
    pub fn is_absolute(&self) -> (r: bool)
        ensures
            r == is_rooted(self@),
    {
        self.bytes.len() > 0 && self.bytes[0] == 0x2f
    }

    /// Whether the path is `.` or starts with `./`.
    pub fn is_from_here(&self) -> (r: bool)
        ensures
            r == starts_here(self@),
    {
        let b = &self.bytes;
        b.len() > 0 && b[0] == 0x2e && (b.len() == 1 || b[1] == 0x2f)
    }

    /// Whether two paths lead through the same names from the same start.
    pub fn leads_as(&self, other: &FilePath) -> (r: bool)
        ensures
            r == same_path(self@, other@),
    {
        self.is_absolute() == other.is_absolute() && self.is_from_here() == other.is_from_here()
            && same_names(&self.split_names(), &other.split_names())
    }

    /// Whether two paths are the same byte for byte.
    pub fn same(&self, other: &FilePath) -> (r: bool)
        ensures
            r == (self@ == other@),
    {
        bytes_eq(self.bytes.as_slice(), other.bytes.as_slice())
    }

    /// The path `tail` as seen from this one.
    pub fn join(&self, tail: &FilePath) -> (r: FilePath)
        ensures
            r@ == joined(self@, tail@),
    {
        if tail.is_absolute() {
            return tail.clone();
        }
        let mut b = bytes_of(self.bytes.as_slice(), 0, self.bytes.len());
        assert(b@ =~= self@);
        if b.len() > 0 && b[b.len() - 1] != 0x2f {
            b.push(0x2f);
        }
        let ghost base = b@;
        let mut i: usize = 0;
        while i < tail.bytes.len()
            invariant
                i <= tail@.len(),
                b@ == base + tail@.take(i as int),
            decreases tail@.len() - i,
        {
            b.push(tail.bytes[i]);
            assert(base + tail@.take(i + 1) =~= (base + tail@.take(i as int)).push(
                tail@[i as int],
            ));
            i += 1;
        }
        assert(tail@.take(i as int) =~= tail@);
        FilePath { bytes: b }
    }

    /// The path of the directory that holds the last entry.
    pub fn parent(&self) -> (r: Option<FilePath>)
        ensures
            match r {
                Some(p) => parent_of(self@) == Some(p@),
                None => parent_of(self@) is None,
            },
    {
        let b = &self.bytes;
        let here = self.is_from_here();
        let start: usize = if self.is_absolute() || here {
            1
        } else {
            0
        };
        assert(b@.take(b@.len() as int) =~= b@);
        let n: usize = find_named_end(b, b.len(), start);
        if n > start {
            let at: usize = find_last_piece(b, n, start);
            let before: usize = if at > start {
                at - 1
            } else {
                start
            };
            assert(b@.take(n as int).take(before as int) =~= b@.take(before as int));
            let end: usize = find_named_end(b, before, start);
            assert(b@.subrange(0, end as int) =~= b@.take(end as int));
            Some(FilePath { bytes: bytes_of(b.as_slice(), 0, end) })
        } else if here {
            let none: Vec<u8> = Vec::new();
            Some(FilePath { bytes: none })
        } else {
            None
        }
    }

    /// The names on the path.
    pub fn split_names(&self) -> (r: Vec<Vec<u8>>)
        ensures
            bytes::byte_views(r@) == names(self@),
    {
        let pieces = split_bytes(self.bytes.as_slice(), 0x2f);
        let ghost all = bytes::byte_views(pieces@);
        let mut r: Vec<Vec<u8>> = Vec::new();
        let mut i: usize = 0;
        assert(all.take(0).filter(naming()) =~= Seq::<Seq<u8>>::empty()) by {
            reveal(Seq::filter);
        }
        while i < pieces.len()
            invariant
                i <= pieces@.len(),
                all == bytes::byte_views(pieces@),
                bytes::byte_views(r@) == all.take(i as int).filter(naming()),
            decreases pieces@.len() - i,
        {
            proof {
                reveal(Seq::filter);
                let next = all.take(i + 1);
                assert(next.drop_last() =~= all.take(i as int));
                assert(next.last() == pieces@[i as int]@);
            }
            if names_entry(pieces[i].as_slice()) {
                let piece = bytes_of(pieces[i].as_slice(), 0, pieces[i].len());
                assert(piece@ =~= pieces@[i as int]@);
                bytes::push_bytes(&mut r, piece);
            }
            i += 1;
        }
        assert(all.take(i as int) =~= all);
        r
    }
}

} // verus!
