//! The guard of the directory that the program keeps its own state in.
//!
//! The directory is `$XDG_DATA_HOME/zejtron`, or `~/.local/share/zejtron` where that
//! variable is not set, and no other. The directories of the system and the credential
//! stores of the user are refused, with everything in them, whatever the environment says.
//! Paths that are only looked at are not guarded.

use crate::bytes;
use crate::bytes::{bytes_eq, bytes_of};
use crate::filepath;
use crate::filepath::FilePath;
use crate::order;
use crate::text;
use crate::text::cat2;
use vstd::prelude::*;

verus! {

// ---------------------------------------------------------------------------
// Lexical normalization
// ---------------------------------------------------------------------------

/// The name `..`.
pub open spec fn dotdot() -> Seq<u8> {
    seq![filepath::dot(), filepath::dot()]
}

/// The names that are left when each `..` takes the name before it away. There is nothing
/// above the first name.
pub open spec fn resolved(names: Seq<Seq<u8>>) -> Seq<Seq<u8>>
    decreases names.len(),
{
    if names.len() == 0 {
        Seq::empty()
    } else {
        let before = resolved(names.drop_last());
        if names.last() != dotdot() {
            before.push(names.last())
        } else if before.len() > 0 {
            before.drop_last()
        } else {
            before
        }
    }
}

/// The names with slashes between them.
pub open spec fn spelled(names: Seq<Seq<u8>>) -> Seq<u8> {
    text::join(names, seq![filepath::slash()])
}

/// The path without `.` and `..`, or nothing where a relative path has no name left.
pub open spec fn normalized(path: Seq<u8>) -> Option<Seq<u8>> {
    let names = resolved(filepath::names(path));
    if filepath::is_rooted(path) {
        Some(seq![filepath::slash()] + spelled(names))
    } else if names.len() > 0 {
        Some(spelled(names))
    } else {
        None
    }
}

/// A name that stays when a path is normalized: it is a name, not `..`, and holds no slash.
pub open spec fn is_plain(name: Seq<u8>) -> bool {
    filepath::is_name(name) && name != dotdot() && !name.contains(filepath::slash())
}

/// All of the names stay when a path is normalized.
pub open spec fn all_plain(names: Seq<Seq<u8>>) -> bool {
    forall|i: int| 0 <= i < names.len() ==> is_plain(#[trigger] names[i])
}

/// Names without slashes leave names that stay.
proof fn lemma_resolved_plain(names: Seq<Seq<u8>>)
    requires
        forall|i: int|
            0 <= i < names.len() ==> filepath::is_name(#[trigger] names[i]) && !names[i].contains(
                filepath::slash(),
            ),
    ensures
        all_plain(resolved(names)),
    decreases names.len(),
{
    if names.len() > 0 {
        let rest = names.drop_last();
        assert forall|i: int| 0 <= i < rest.len() implies filepath::is_name(#[trigger] rest[i])
            && !rest[i].contains(filepath::slash()) by {
            assert(rest[i] == names[i]);
        }
        lemma_resolved_plain(rest);
        assert(names[names.len() - 1] == names.last());
    }
}

/// Names that stay resolve to themselves.
proof fn lemma_resolved_same(names: Seq<Seq<u8>>)
    requires
        all_plain(names),
    ensures
        resolved(names) == names,
    decreases names.len(),
{
    if names.len() > 0 {
        let rest = names.drop_last();
        assert forall|i: int| 0 <= i < rest.len() implies is_plain(#[trigger] rest[i]) by {
            assert(rest[i] == names[i]);
        }
        lemma_resolved_same(rest);
        assert(is_plain(names[names.len() - 1]));
        assert(rest.push(names.last()) =~= names);
    }
}

/// The names on a path hold no slash.
proof fn lemma_names(path: Seq<u8>)
    ensures
        forall|i: int|
            0 <= i < filepath::names(path).len() ==> filepath::is_name(
                #[trigger] filepath::names(path)[i],
            ) && !filepath::names(path)[i].contains(filepath::slash()),
{
    let pieces = text::split(path, filepath::slash());
    bytes::lemma_split_pieces(path, filepath::slash());
    assert forall|i: int| 0 <= i < filepath::names(path).len() implies filepath::is_name(
        #[trigger] filepath::names(path)[i],
    ) && !filepath::names(path)[i].contains(filepath::slash()) by {
        let name = filepath::names(path)[i];
        order::lemma_filter_member(pieces, filepath::naming(), name);
        assert(filepath::names(path).contains(name));
        let k = choose|k: int| 0 <= k < pieces.len() && pieces[k] == name;
        assert(!pieces[k].contains(filepath::slash()));
    }
}

/// Nothing is lost of a list whose elements all satisfy the predicate.
proof fn lemma_filter_all(s: Seq<Seq<u8>>)
    requires
        all_plain(s),
    ensures
        s.filter(filepath::naming()) == s,
    decreases s.len(),
{
    reveal(Seq::filter);
    if s.len() > 0 {
        let rest = s.drop_last();
        assert forall|i: int| 0 <= i < rest.len() implies is_plain(#[trigger] rest[i]) by {
            assert(rest[i] == s[i]);
        }
        lemma_filter_all(rest);
        assert(is_plain(s[s.len() - 1]));
        assert(rest.push(s.last()) =~= s);
    }
}

/// The names on a path that was spelled from names that stay are those names.
proof fn lemma_spelled_names(names: Seq<Seq<u8>>)
    requires
        all_plain(names),
    ensures
        filepath::names(seq![filepath::slash()] + spelled(names)) == names,
        names.len() > 0 ==> filepath::names(spelled(names)) == names,
        names.len() > 0 ==> !filepath::is_rooted(spelled(names)),
{
    let slash = filepath::slash();
    let naming = filepath::naming();
    lemma_filter_all(names);
    let none = Seq::<u8>::empty();
    bytes::lemma_split_concat(none, spelled(names), slash);
    assert(none.push(slash) + spelled(names) =~= seq![slash] + spelled(names));
    assert(text::split(none, slash) =~= seq![none]);
    order::lemma_filter_one(none, naming);
    if names.len() > 0 {
        assert forall|i: int| 0 <= i < names.len() implies !(#[trigger] names[i]).contains(
            slash,
        ) by {
            assert(is_plain(names[i]));
        }
        bytes::lemma_join_splits(names, slash);
        lemma_first_byte(names);
    } else {
        assert(spelled(names) =~= none);
    }
    Seq::filter_distributes_over_add(seq![none], text::split(spelled(names), slash), naming);
    assert(filepath::names(seq![slash] + spelled(names)) =~= names);
}

proof fn lemma_first_byte(names: Seq<Seq<u8>>)
    requires
        all_plain(names),
        names.len() > 0,
    ensures
        spelled(names).len() > 0,
        spelled(names)[0] != filepath::slash(),
    decreases names.len(),
{
    assert(is_plain(names[0]));
    assert(names[0].contains(names[0][0]));
    if names.len() > 1 {
        let rest = names.drop_last();
        assert forall|i: int| 0 <= i < rest.len() implies is_plain(#[trigger] rest[i]) by {
            assert(rest[i] == names[i]);
        }
        lemma_first_byte(rest);
    }
}

/// A normalized path has no `.` and no `..` on it, and no empty name.
pub proof fn lemma_normalized_is_plain(path: Seq<u8>)
    ensures
        match normalized(path) {
            Some(p) => all_plain(filepath::names(p)) && filepath::names(p) == resolved(
                filepath::names(path),
            ) && filepath::is_rooted(p) == filepath::is_rooted(path),
            None => !filepath::is_rooted(path),
        },
{
    let names = resolved(filepath::names(path));
    lemma_names(path);
    lemma_resolved_plain(filepath::names(path));
    lemma_spelled_names(names);
}

/// Normalizing a path a second time changes nothing.
pub proof fn lemma_normalized_idempotent(path: Seq<u8>)
    ensures
        match normalized(path) {
            Some(p) => normalized(p) == Some(p),
            None => true,
        },
{
    lemma_normalized_is_plain(path);
    if let Some(p) = normalized(path) {
        lemma_resolved_same(filepath::names(p));
    }
}

fn is_dotdot(name: &Vec<u8>) -> (r: bool)
    ensures
        r == (name@ == dotdot()),
{
    let r: bool = name.len() == 2 && name[0] == 0x2e && name[1] == 0x2e;
    proof {
        if r {
            assert(name@ =~= dotdot());
        }
    }
    r
}

fn resolve_names(names: Vec<Vec<u8>>) -> (r: Vec<Vec<u8>>)
    ensures
        bytes::byte_views(r@) == resolved(bytes::byte_views(names@)),
{
    let ghost all = bytes::byte_views(names@);
    let mut stack: Vec<Vec<u8>> = Vec::new();
    let mut i: usize = 0;
    assert(bytes::byte_views(stack@) =~= resolved(all.take(0)));
    while i < names.len()
        invariant
            i <= names@.len(),
            all == bytes::byte_views(names@),
            bytes::byte_views(stack@) == resolved(all.take(i as int)),
        decreases names@.len() - i,
    {
        let ghost before = stack@;
        proof {
            let next = all.take(i + 1);
            assert(next.drop_last() =~= all.take(i as int));
            assert(next.last() == names@[i as int]@);
        }
        if is_dotdot(&names[i]) {
            let gone = stack.pop();
            if gone.is_some() {
                assert(bytes::byte_views(stack@) =~= bytes::byte_views(before).drop_last());
            }
        } else {
            let name = bytes_of(names[i].as_slice(), 0, names[i].len());
            assert(name@ =~= names@[i as int]@);
            bytes::push_bytes(&mut stack, name);
        }
        i += 1;
    }
    assert(all.take(i as int) =~= all);
    stack
}

fn append_bytes(b: &mut Vec<u8>, more: &Vec<u8>)
    ensures
        final(b)@ == old(b)@ + more@,
{
    let ghost first = b@;
    let mut i: usize = 0;
    assert(first + more@.take(0) =~= first);
    while i < more.len()
        invariant
            i <= more@.len(),
            b@ == first + more@.take(i as int),
        decreases more@.len() - i,
    {
        b.push(more[i]);
        assert((first + more@.take(i as int)).push(more@[i as int]) =~= first + more@.take(i + 1));
        i += 1;
    }
    assert(more@.take(i as int) =~= more@);
}

fn spell(b: &mut Vec<u8>, names: &Vec<Vec<u8>>)
    ensures
        final(b)@ == old(b)@ + spelled(bytes::byte_views(names@)),
{
    let ghost first = b@;
    let ghost all = bytes::byte_views(names@);
    let ghost sep = seq![filepath::slash()];
    let mut i: usize = 0;
    assert(first + text::join(all.take(0), sep) =~= first);
    while i < names.len()
        invariant
            i <= names@.len(),
            all == bytes::byte_views(names@),
            sep == seq![filepath::slash()],
            b@ == first + text::join(all.take(i as int), sep),
        decreases names@.len() - i,
    {
        if i > 0 {
            b.push(0x2f);
        }
        append_bytes(b, &names[i]);
        proof {
            let next = all.take(i + 1);
            assert(next.drop_last() =~= all.take(i as int));
            assert(next.last() == names@[i as int]@);
            assert(b@ =~= first + text::join(next, sep));
        }
        i += 1;
    }
    assert(all.take(i as int) =~= all);
}

/// The path without `.` and `..`, or nothing where a relative path has no name left. It
/// need not exist, and links are not followed.
pub fn lexical_normalize(path: &FilePath) -> (r: Option<FilePath>)
    ensures
        match r {
            Some(p) => normalized(path@) == Some(p@),
            None => normalized(path@) is None,
        },
{
    let names = resolve_names(path.split_names());
    assert(bytes::byte_views(names@).len() == names@.len());
    let mut b: Vec<u8> = Vec::new();
    if path.is_absolute() {
        b.push(0x2f);
        assert(b@ =~= seq![filepath::slash()]);
        spell(&mut b, &names);
        Some(FilePath { bytes: b })
    } else if names.len() > 0 {
        spell(&mut b, &names);
        assert(b@ =~= spelled(bytes::byte_views(names@)));
        Some(FilePath { bytes: b })
    } else {
        None
    }
}

// ---------------------------------------------------------------------------
// Protected directories
// ---------------------------------------------------------------------------

/// The bytes of a text.
pub open spec fn spelt(s: Seq<char>) -> Seq<u8> {
    vstd::utf8::encode_utf8(s)
}

/// The path is the directory `dir` or lies in it, as the two are written or once they are
/// normalized.
pub open spec fn lies_in(path: Seq<u8>, dir: Seq<u8>) -> bool {
    &&& filepath::is_rooted(path) == filepath::is_rooted(dir)
    &&& {
        ||| filepath::names(dir).is_prefix_of(filepath::names(path))
        ||| resolved(filepath::names(dir)).is_prefix_of(resolved(filepath::names(path)))
    }
}

/// The path is a directory of the system or lies in one.
pub open spec fn in_system(path: Seq<u8>) -> bool {
    ||| lies_in(path, spelt("/etc"@))
    ||| lies_in(path, spelt("/usr"@))
    ||| lies_in(path, spelt("/var"@))
    ||| lies_in(path, spelt("/bin"@))
    ||| lies_in(path, spelt("/sbin"@))
    ||| lies_in(path, spelt("/lib"@))
    ||| lies_in(path, spelt("/lib64"@))
    ||| lies_in(path, spelt("/boot"@))
    ||| lies_in(path, spelt("/root"@))
    ||| lies_in(path, spelt("/proc"@))
    ||| lies_in(path, spelt("/sys"@))
    ||| lies_in(path, spelt("/dev"@))
}

/// The path is the directory `sub` of the home directory or lies in it.
pub open spec fn in_home(path: Seq<u8>, home: Seq<u8>, sub: Seq<u8>) -> bool {
    lies_in(path, filepath::joined(home, sub))
}

/// The path is a credential store of the user with this home directory or lies in one.
pub open spec fn in_credentials(path: Seq<u8>, home: Seq<u8>) -> bool {
    ||| in_home(path, home, spelt(".ssh"@))
    ||| in_home(path, home, spelt(".gnupg"@))
    ||| in_home(path, home, spelt(".kwallet"@))
    ||| in_home(path, home, spelt(".local/share/keyrings"@))
}

/// The value of a variable that is set and not empty.
pub open spec fn set_value(variable: Option<FilePath>) -> Option<Seq<u8>> {
    match variable {
        Some(value) => if value@.len() > 0 {
            Some(value@)
        } else {
            None
        },
        None => None,
    }
}

/// The path must not hold the state of the program.
pub open spec fn dangerous(path: Seq<u8>, home: Option<FilePath>) -> bool {
    in_system(path) || match set_value(home) {
        Some(base) => in_credentials(path, base),
        None => false,
    }
}

fn names_start_with(names: &Vec<Vec<u8>>, start: &Vec<Vec<u8>>) -> (r: bool)
    ensures
        r == bytes::byte_views(start@).is_prefix_of(bytes::byte_views(names@)),
{
    let ghost whole = bytes::byte_views(names@);
    let ghost first = bytes::byte_views(start@);
    assert(whole.len() == names@.len());
    assert(first.len() == start@.len());
    if start.len() > names.len() {
        return false;
    }
    let mut i: usize = 0;
    while i < start.len()
        invariant
            i <= start@.len() <= names@.len(),
            whole == bytes::byte_views(names@),
            first == bytes::byte_views(start@),
            forall|k: int| 0 <= k < i ==> first[k] == whole[k],
        decreases start@.len() - i,
    {
        proof {
            assert(first[i as int] == start@[i as int]@);
            assert(whole[i as int] == names@[i as int]@);
        }
        if !bytes_eq(start[i].as_slice(), names[i].as_slice()) {
            assert(whole.subrange(0, first.len() as int)[i as int] == whole[i as int]);
            return false;
        }
        i += 1;
    }
    assert(first =~= whole.subrange(0, first.len() as int));
    true
}

/// Whether the path is the directory `dir` or lies in it.
pub fn is_in_directory(path: &FilePath, dir: &FilePath) -> (r: bool)
    ensures
        r == lies_in(path@, dir@),
{
    if path.is_absolute() != dir.is_absolute() {
        return false;
    }
    let names = path.split_names();
    let start = dir.split_names();
    if names_start_with(&names, &start) {
        return true;
    }
    names_start_with(&resolve_names(names), &resolve_names(start))
}

fn is_in_system(path: &FilePath, dir: &str) -> (r: bool)
    ensures
        r == lies_in(path@, spelt(dir@)),
{
    is_in_directory(path, &FilePath::new(dir))
}

fn is_in_home(path: &FilePath, home: &FilePath, sub: &str) -> (r: bool)
    ensures
        r == in_home(path@, home@, spelt(sub@)),
{
    is_in_directory(path, &home.join(&FilePath::new(sub)))
}

/// Whether a path must not hold the state of the program.
pub fn is_dangerous(canonical: &FilePath, home: &Option<FilePath>) -> (r: bool)
    ensures
        r == dangerous(canonical@, *home),
{
    if is_in_system(canonical, "/etc") || is_in_system(canonical, "/usr") || is_in_system(
        canonical,
        "/var",
    ) || is_in_system(canonical, "/bin") || is_in_system(canonical, "/sbin") || is_in_system(
        canonical,
        "/lib",
    ) || is_in_system(canonical, "/lib64") || is_in_system(canonical, "/boot") || is_in_system(
        canonical,
        "/root",
    ) || is_in_system(canonical, "/proc") || is_in_system(canonical, "/sys") || is_in_system(
        canonical,
        "/dev",
    ) {
        return true;
    }
    match home {
        Some(base) => base.bytes.len() > 0 && (is_in_home(canonical, base, ".ssh") || is_in_home(
            canonical,
            base,
            ".gnupg",
        ) || is_in_home(canonical, base, ".kwallet") || is_in_home(
            canonical,
            base,
            ".local/share/keyrings",
        )),
        None => false,
    }
}

// ---------------------------------------------------------------------------
// What is protected
// ---------------------------------------------------------------------------

/// The names on two paths with a slash between them are those of the first and then those
/// of the second.
proof fn lemma_names_concat(front: Seq<u8>, tail: Seq<u8>)
    ensures
        filepath::names(front.push(filepath::slash()) + tail) == filepath::names(front)
            + filepath::names(tail),
{
    let slash = filepath::slash();
    bytes::lemma_split_concat(front, tail, slash);
    Seq::filter_distributes_over_add(
        text::split(front, slash),
        text::split(tail, slash),
        filepath::naming(),
    );
}

/// The empty path has no names.
proof fn lemma_no_names()
    ensures
        filepath::names(Seq::<u8>::empty()) == Seq::<Seq<u8>>::empty(),
{
    let none = Seq::<u8>::empty();
    assert(text::split(none, filepath::slash()) =~= seq![none]);
    order::lemma_filter_one(none, filepath::naming());
}

/// The names on a joined path are those of its start and then those of its end.
proof fn lemma_joined_names(base: Seq<u8>, tail: Seq<u8>)
    requires
        !filepath::is_rooted(tail),
    ensures
        filepath::names(filepath::joined(base, tail)) == filepath::names(base)
            + filepath::names(tail),
        base.len() > 0 ==> filepath::is_rooted(filepath::joined(base, tail))
            == filepath::is_rooted(base),
{
    let slash = filepath::slash();
    let none = Seq::<u8>::empty();
    lemma_no_names();
    if base.len() == 0 {
        assert(base =~= none);
        assert(filepath::joined(base, tail) =~= tail);
        assert(filepath::names(base) + filepath::names(tail) =~= filepath::names(tail));
    } else if base.last() == slash {
        let front = base.drop_last();
        lemma_names_concat(front, tail);
        lemma_names_concat(front, none);
        assert(base =~= front.push(slash) + none);
        assert(filepath::joined(base, tail) =~= front.push(slash) + tail);
        assert(filepath::names(base) =~= filepath::names(front));
    } else {
        lemma_names_concat(base, tail);
    }
}

/// Names that stay are left as they are behind other names.
proof fn lemma_resolved_append(first: Seq<Seq<u8>>, more: Seq<Seq<u8>>)
    requires
        all_plain(more),
    ensures
        resolved(first + more) == resolved(first) + more,
    decreases more.len(),
{
    if more.len() == 0 {
        assert(first + more =~= first);
        assert(resolved(first) + more =~= resolved(first));
    } else {
        let rest = more.drop_last();
        assert forall|i: int| 0 <= i < rest.len() implies is_plain(#[trigger] rest[i]) by {
            assert(rest[i] == more[i]);
        }
        lemma_resolved_append(first, rest);
        assert((first + more).drop_last() =~= first + rest);
        assert((first + more).last() == more.last());
        assert(is_plain(more[more.len() - 1]));
        assert((resolved(first) + rest).push(more.last()) =~= resolved(first) + more);
    }
}

/// A directory lies in itself, and so does every path that starts with it and a slash.
pub proof fn lemma_directory_holds_what_is_below(dir: Seq<u8>, tail: Seq<u8>)
    requires
        dir.len() > 0,
    ensures
        lies_in(dir, dir),
        lies_in(dir.push(filepath::slash()) + tail, dir),
{
    let whole = dir.push(filepath::slash()) + tail;
    let names = filepath::names(dir);
    lemma_names_concat(dir, tail);
    assert(names.is_prefix_of(names));
    assert(names.is_prefix_of(names + filepath::names(tail)));
    assert(whole[0] == dir[0]);
}

/// The bytes of a text of ASCII characters are those characters.
proof fn lemma_ascii(s: Seq<char>)
    requires
        vstd::utf8::is_ascii_chars(s),
    ensures
        spelt(s) == s.map_values(|c: char| c as u8),
{
    vstd::utf8::is_ascii_chars_encode_utf8(s);
    assert(spelt(s) =~= s.map_values(|c: char| c as u8));
}

/// The text is one plain name of ASCII characters.
spec fn is_plain_text(s: Seq<char>) -> bool {
    &&& vstd::utf8::is_ascii_chars(s)
    &&& s.len() > 2
    &&& forall|i: int| 0 <= i < s.len() ==> #[trigger] s[i] != '/'
}

proof fn lemma_plain_text(s: Seq<char>)
    requires
        is_plain_text(s),
    ensures
        is_plain(spelt(s)),
        !filepath::is_rooted(spelt(s)),
        filepath::names(spelt(s)) == seq![spelt(s)],
{
    lemma_ascii(s);
    let name = spelt(s);
    assert forall|i: int| 0 <= i < name.len() implies name[i] != filepath::slash() by {
        assert(name[i] == s[i] as u8);
    }
    assert(!name.contains(filepath::slash()));
    assert(name.len() > 2);
    assert(all_plain(seq![name]));
    lemma_spelled_names(seq![name]);
    assert(spelled(seq![name]) =~= name);
}

/// The directories of the system.
pub open spec fn is_system_dir(dir: Seq<u8>) -> bool {
    ||| dir == spelt("/etc"@)
    ||| dir == spelt("/usr"@)
    ||| dir == spelt("/var"@)
    ||| dir == spelt("/bin"@)
    ||| dir == spelt("/sbin"@)
    ||| dir == spelt("/lib"@)
    ||| dir == spelt("/lib64"@)
    ||| dir == spelt("/boot"@)
    ||| dir == spelt("/root"@)
    ||| dir == spelt("/proc"@)
    ||| dir == spelt("/sys"@)
    ||| dir == spelt("/dev"@)
}

proof fn lemma_spelt_not_empty(s: Seq<char>)
    requires
        s.len() > 0,
        vstd::utf8::is_ascii_chars(s),
    ensures
        spelt(s).len() > 0,
{
    lemma_ascii(s);
}

proof fn lemma_system_dir_not_empty(dir: Seq<u8>)
    requires
        is_system_dir(dir),
    ensures
        dir.len() > 0,
{
    reveal_strlit("/etc");
    reveal_strlit("/usr");
    reveal_strlit("/var");
    reveal_strlit("/bin");
    reveal_strlit("/sbin");
    reveal_strlit("/lib");
    reveal_strlit("/lib64");
    reveal_strlit("/boot");
    reveal_strlit("/root");
    reveal_strlit("/proc");
    reveal_strlit("/sys");
    reveal_strlit("/dev");
    lemma_spelt_not_empty("/etc"@);
    lemma_spelt_not_empty("/usr"@);
    lemma_spelt_not_empty("/var"@);
    lemma_spelt_not_empty("/bin"@);
    lemma_spelt_not_empty("/sbin"@);
    lemma_spelt_not_empty("/lib"@);
    lemma_spelt_not_empty("/lib64"@);
    lemma_spelt_not_empty("/boot"@);
    lemma_spelt_not_empty("/root"@);
    lemma_spelt_not_empty("/proc"@);
    lemma_spelt_not_empty("/sys"@);
    lemma_spelt_not_empty("/dev"@);
}

/// A directory of the system is protected, and so is everything below it.
pub proof fn lemma_system_is_protected(dir: Seq<u8>, tail: Seq<u8>, home: Option<FilePath>)
    requires
        is_system_dir(dir),
    ensures
        dangerous(dir, home),
        dangerous(dir.push(filepath::slash()) + tail, home),
{
    lemma_system_dir_not_empty(dir);
    lemma_directory_holds_what_is_below(dir, tail);
}

/// The credential stores of a user, as seen from the home directory.
pub open spec fn is_store(sub: Seq<u8>) -> bool {
    ||| sub == spelt(".ssh"@)
    ||| sub == spelt(".gnupg"@)
    ||| sub == spelt(".kwallet"@)
    ||| sub == spelt(".local/share/keyrings"@)
}

proof fn lemma_keyrings()
    ensures
        !filepath::is_rooted(spelt(".local/share/keyrings"@)),
        all_plain(filepath::names(spelt(".local/share/keyrings"@))),
{
    reveal_strlit(".local/share/keyrings");
    reveal_strlit(".local");
    reveal_strlit("share");
    reveal_strlit("keyrings");
    let whole = ".local/share/keyrings"@;
    lemma_plain_text(".local"@);
    lemma_plain_text("share"@);
    lemma_plain_text("keyrings"@);
    let a = spelt(".local"@);
    let b = spelt("share"@);
    let c = spelt("keyrings"@);
    let slash = filepath::slash();
    assert(whole =~= (".local"@.push('/') + "share"@).push('/') + "keyrings"@);
    assert(vstd::utf8::is_ascii_chars(whole));
    lemma_ascii(whole);
    lemma_ascii(".local"@);
    lemma_ascii("share"@);
    lemma_ascii("keyrings"@);
    assert(spelt(whole) =~= (a.push(slash) + b).push(slash) + c);
    lemma_names_concat(a, b);
    lemma_names_concat(a.push(slash) + b, c);
    assert(filepath::names(spelt(whole)) =~= seq![a, b, c]);
    assert(spelt(whole)[0] == a[0]);
}

proof fn lemma_store(sub: Seq<u8>)
    requires
        is_store(sub),
    ensures
        !filepath::is_rooted(sub),
        all_plain(filepath::names(sub)),
{
    reveal_strlit(".ssh");
    reveal_strlit(".gnupg");
    reveal_strlit(".kwallet");
    lemma_plain_text(".ssh"@);
    lemma_plain_text(".gnupg"@);
    lemma_plain_text(".kwallet"@);
    lemma_keyrings();
}

/// A credential store is protected, and so is everything below it, however the home
/// directory and the path are written: it is enough that the path leads through the names
/// of the home directory and of the store once both are normalized.
pub proof fn lemma_credentials_are_protected(home: FilePath, sub: Seq<u8>, path: Seq<u8>)
    requires
        home@.len() > 0,
        is_store(sub),
        filepath::is_rooted(path) == filepath::is_rooted(home@),
        (resolved(filepath::names(home@)) + filepath::names(sub)).is_prefix_of(
            resolved(filepath::names(path)),
        ),
    ensures
        dangerous(path, Some(home)),
{
    lemma_store(sub);
    lemma_joined_names(home@, sub);
    lemma_resolved_append(filepath::names(home@), filepath::names(sub));
    assert(in_home(path, home@, sub));
}

// ---------------------------------------------------------------------------
// The state directory
// ---------------------------------------------------------------------------

/// The name of the state directory.
pub open spec fn state_name() -> Seq<u8> {
    spelt("zejtron"@)
}

/// The directory that the state directory is asked to be in.
pub open spec fn base_of(xdg: Option<FilePath>, home: Option<FilePath>) -> Option<Seq<u8>> {
    match set_value(xdg) {
        Some(base) => Some(base),
        None => match set_value(home) {
            Some(base) => Some(filepath::joined(base, spelt(".local/share"@))),
            None => None,
        },
    }
}

/// The path that is judged in place of `path`: the canonical one where the file system
/// gives it, else the normalized one, else the path itself.
pub open spec fn compared(path: Seq<u8>, canonical: Option<FilePath>) -> Seq<u8> {
    match canonical {
        Some(found) => found@,
        None => match normalized(path) {
            Some(p) => p,
            None => path,
        },
    }
}

/// What is said about a directory in a protected place.
pub open spec fn refusal(shown: Seq<char>) -> Seq<char> {
    "zejtron state directory resolves to a protected path (blocked by pathguard): "@ + shown
}

/// What is said about a directory that is not where it was asked to be.
pub open spec fn stray(shown: Seq<char>) -> Seq<char> {
    "zejtron state directory resolves to an unexpected path (blocked by pathguard): "@ + shown
}

/// The canonical paths that the file system gives: of the home directory, of the base
/// directory, and of the state directory in it. What does not exist has none.
#[derive(Debug)]
pub struct OnDisk {
    pub home: Option<FilePath>,
    pub base: Option<FilePath>,
    pub directory: Option<FilePath>,
}

/// The path is protected, be it by the home directory as it is written or as it resolves.
pub open spec fn is_protected(path: Seq<u8>, home: Option<FilePath>, disk: OnDisk) -> bool {
    dangerous(path, home) || dangerous(path, disk.home)
}

/// The place that the state directory may resolve to.
pub open spec fn allowed(base: Seq<u8>, disk: OnDisk) -> Seq<u8> {
    filepath::joined(compared(base, disk.base), state_name())
}

/// The state directory that is asked for in `base`, or why it is refused. It is the
/// directory with the name of the program in the place that `base` resolves to, it resolves
/// to no other place, and it is not protected, neither as it is written nor there.
pub open spec fn judgement(base: Seq<u8>, home: Option<FilePath>, disk: OnDisk) -> Result<
    Seq<u8>,
    Seq<char>,
> {
    let asked = filepath::joined(base, state_name());
    let written = compared(asked, None);
    let judged = compared(asked, disk.directory);
    let place = allowed(base, disk);
    if is_protected(judged, home, disk) {
        Err(refusal(bytes::lossy(judged)))
    } else if is_protected(written, home, disk) {
        Err(refusal(bytes::lossy(written)))
    } else if is_protected(place, home, disk) {
        Err(refusal(bytes::lossy(place)))
    } else if disk.directory is Some && judged != place {
        Err(stray(bytes::lossy(judged)))
    } else {
        Ok(judged)
    }
}

/// The state directory that the variables ask for, or why it is refused.
pub open spec fn verdict(xdg: Option<FilePath>, home: Option<FilePath>, disk: OnDisk) -> Result<
    Seq<u8>,
    Seq<char>,
> {
    match base_of(xdg, home) {
        Some(base) => judgement(base, home, disk),
        None => Err("HOME is required when XDG_DATA_HOME is not set"@),
    }
}

/// The directory that the state directory is asked to be in.
pub fn state_base(xdg_data_home: &Option<FilePath>, home: &Option<FilePath>) -> (r: Result<
    FilePath,
    String,
>)
    ensures
        match r {
            Ok(base) => base_of(*xdg_data_home, *home) == Some(base@),
            Err(message) => base_of(*xdg_data_home, *home) is None && message@
                == "HOME is required when XDG_DATA_HOME is not set"@,
        },
{
    if let Some(base) = xdg_data_home {
        if base.bytes.len() > 0 {
            return Ok(base.clone());
        }
    }
    if let Some(base) = home {
        if base.bytes.len() > 0 {
            return Ok(base.join(&FilePath::new(".local/share")));
        }
    }
    Err("HOME is required when XDG_DATA_HOME is not set".to_owned())
}

/// The state directory in a base directory, before it is judged.
pub fn state_candidate(base: &FilePath) -> (r: FilePath)
    ensures
        r@ == filepath::joined(base@, state_name()),
{
    base.join(&FilePath::new("zejtron"))
}

/// The path that is judged in place of `path`.
pub fn canonical_for_compare(path: &FilePath, canonical: &Option<FilePath>) -> (r: FilePath)
    ensures
        r@ == compared(path@, *canonical),
{
    match canonical {
        Some(found) => found.clone(),
        None => match lexical_normalize(path) {
            Some(p) => p,
            None => path.clone(),
        },
    }
}

/// The refusal of a directory in a protected place, where `shown` is its path as shown.
pub fn refuse(shown: &str) -> (r: String)
    ensures
        r@ == refusal(shown@),
{
    cat2(
        "zejtron state directory resolves to a protected path (blocked by pathguard): ",
        shown,
    )
}

/// The refusal of a directory that is not where it was asked to be, where `shown` is its
/// path as shown.
pub fn refuse_stray(shown: &str) -> (r: String)
    ensures
        r@ == stray(shown@),
{
    cat2(
        "zejtron state directory resolves to an unexpected path (blocked by pathguard): ",
        shown,
    )
}

fn is_protected_path(path: &FilePath, home: &Option<FilePath>, disk: &OnDisk) -> (r: bool)
    ensures
        r == is_protected(path@, *home, *disk),
{
    is_dangerous(path, home) || is_dangerous(path, &disk.home)
}

fn refuse_path(path: &FilePath) -> (r: String)
    ensures
        r@ == refusal(bytes::lossy(path@)),
{
    let shown = path.display();
    refuse(shown.as_str())
}

/// The state directory, or why it is refused. The canonical paths are those of `home`, of
/// `state_base` and of `state_candidate`.
pub fn resolve_state_dir(
    xdg_data_home: &Option<FilePath>,
    home: &Option<FilePath>,
    disk: &OnDisk,
) -> (r: Result<FilePath, String>)
    ensures
        match verdict(*xdg_data_home, *home, *disk) {
            Ok(path) => r matches Ok(dir) && dir@ == path,
            Err(words) => r matches Err(message) && message@ == words,
        },
{
    let base = match state_base(xdg_data_home, home) {
        Ok(base) => base,
        Err(message) => return Err(message),
    };
    let asked = state_candidate(&base);
    let written = canonical_for_compare(&asked, &None);
    let judged = canonical_for_compare(&asked, &disk.directory);
    let place = state_candidate(&canonical_for_compare(&base, &disk.base));
    if is_protected_path(&judged, home, disk) {
        return Err(refuse_path(&judged));
    }
    if is_protected_path(&written, home, disk) {
        return Err(refuse_path(&written));
    }
    if is_protected_path(&place, home, disk) {
        return Err(refuse_path(&place));
    }
    if disk.directory.is_some() && !judged.same(&place) {
        let shown = judged.display();
        return Err(refuse_stray(shown.as_str()));
    }
    Ok(judged)
}

proof fn lemma_state_name()
    ensures
        is_plain(state_name()),
        !filepath::is_rooted(state_name()),
        filepath::names(state_name()) == seq![state_name()],
{
    reveal_strlit("zejtron");
    lemma_plain_text("zejtron"@);
}

/// A state directory that is accepted is not protected, has the name of the program, and
/// is where the base directory resolves to: it is the canonical directory there, or, where
/// it does not exist yet, the normalized path that was asked for.
pub proof fn lemma_accepted_is_allowed(
    xdg: Option<FilePath>,
    home: Option<FilePath>,
    disk: OnDisk,
)
    requires
        verdict(xdg, home, disk) is Ok,
    ensures
        ({
            let dir = verdict(xdg, home, disk)->Ok_0;
            let base = base_of(xdg, home)->0;
            &&& base_of(xdg, home) is Some
            &&& !is_protected(dir, home, disk)
            &&& !is_protected(allowed(base, disk), home, disk)
            &&& filepath::names(dir).len() > 0
            &&& filepath::names(dir).last() == state_name()
            &&& disk.directory is Some ==> dir == allowed(base, disk)
            &&& disk.directory is None ==> normalized(filepath::joined(base, state_name()))
                == Some(dir) && all_plain(filepath::names(dir))
        }),
{
    let base = base_of(xdg, home)->0;
    let path = filepath::joined(base, state_name());
    lemma_state_name();
    lemma_joined_names(base, state_name());
    lemma_joined_names(compared(base, disk.base), state_name());
    lemma_resolved_append(filepath::names(base), seq![state_name()]);
    lemma_normalized_is_plain(path);
}

/// A state directory that resolves to a protected place is refused, whatever was asked for.
pub proof fn lemma_protected_is_refused(
    xdg: Option<FilePath>,
    home: Option<FilePath>,
    disk: OnDisk,
)
    requires
        disk.directory matches Some(found) && is_protected(found@, home, disk),
    ensures
        verdict(xdg, home, disk) is Err,
{
}

} // verus!
