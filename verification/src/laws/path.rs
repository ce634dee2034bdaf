//! What looking for a command is for: the places of the search path are tried in their order,
//! a file is found once, links are followed, and everything found is shown with its package.

use crate::bytes;
use crate::failure::{FailureKind, IoFailure};
use crate::filepath;
use crate::filepath::FilePath;
use crate::laws::text::{in_order, stacked};
use crate::number;
use crate::path;
use crate::path::packages;
use crate::path::packages::{CommandOutput, PackageReplies};
use crate::path::report;
use crate::path::report::{DirFacts, FileFacts, FileMeta, PathFacts};
use crate::path::{EntryKind, Link, PathMatch, Probe};
use crate::process;
use crate::text;
use vstd::prelude::*;

verus! {

// ---------------------------------------------------------------------------
// Paths
// ---------------------------------------------------------------------------

/// A path behind a directory is set off by one slash, and one from the root stands alone.
pub proof fn lemma_joining(dir: Seq<u8>, tail: Seq<u8>)
    requires
        tail.len() > 0,
    ensures
        tail[0] == 0x2f ==> filepath::joined(dir, tail) == tail,
        tail[0] != 0x2f && dir.len() > 0 && dir.last() != 0x2f ==> filepath::joined(dir, tail)
            == dir + seq![0x2fu8] + tail,
        tail[0] != 0x2f && dir.len() > 0 && dir.last() == 0x2f ==> filepath::joined(dir, tail)
            == dir + tail,
        dir.len() == 0 ==> filepath::joined(dir, tail) == tail,
{
    if dir.len() == 0 {
        assert(dir + tail =~= tail);
    } else {
        assert(dir.push(0x2f) + tail =~= dir + seq![0x2fu8] + tail);
    }
}

proof fn lemma_names_between(front: Seq<u8>, tail: Seq<u8>)
    ensures
        filepath::names(front.push(0x2f) + tail) == filepath::names(front) + filepath::names(tail),
{
    bytes::lemma_split_concat(front, tail, 0x2fu8);
    Seq::filter_distributes_over_add(
        text::split(front, 0x2fu8),
        text::split(tail, 0x2fu8),
        filepath::naming(),
    );
}

proof fn lemma_no_names()
    ensures
        filepath::names(Seq::<u8>::empty()).len() == 0,
        filepath::names(seq![0x2eu8]).len() == 0,
{
    let none = Seq::<u8>::empty();
    let dot = seq![0x2eu8];
    crate::laws::text::lemma_split_first(none, 0x2fu8, none);
    crate::laws::text::lemma_split_first(dot, 0x2fu8, none);
    crate::order::lemma_filter_one(none, filepath::naming());
    crate::order::lemma_filter_one(dot, filepath::naming());
}

/// A repeated slash, a `.` in the middle and a slash at the end make no other path of a path;
/// another name does.
pub proof fn lemma_spellings(front: Seq<u8>, tail: Seq<u8>, name: Seq<u8>)
    requires
        front.len() > 0,
        name.len() > 0,
        name != seq![0x2eu8],
        !name.contains(0x2fu8),
    ensures
        filepath::same_path(front + seq![0x2fu8, 0x2fu8] + tail, front + seq![0x2fu8] + tail),
        filepath::same_path(
            front + seq![0x2fu8, 0x2eu8, 0x2fu8] + tail,
            front + seq![0x2fu8] + tail,
        ),
        filepath::same_path(front + seq![0x2fu8], front),
        !filepath::same_path(front + seq![0x2fu8] + name, front),
        front[0] != 0x2f ==> !filepath::same_path(seq![0x2fu8] + front, front),
        front[0] != 0x2f && !filepath::starts_here(front) ==> !filepath::same_path(
            seq![0x2eu8, 0x2fu8] + front,
            front,
        ),
{
    let none = Seq::<u8>::empty();
    let dot = seq![0x2eu8];
    lemma_no_names();
    lemma_names_between(front, tail);
    assert(front + seq![0x2fu8] + tail =~= front.push(0x2f) + tail);
    let twice = none.push(0x2f) + tail;
    lemma_names_between(front, twice);
    lemma_names_between(none, tail);
    assert(front + seq![0x2fu8, 0x2fu8] + tail =~= front.push(0x2f) + twice);
    assert(filepath::names(none) + filepath::names(tail) =~= filepath::names(tail));
    let dotted = dot.push(0x2f) + tail;
    lemma_names_between(front, dotted);
    lemma_names_between(dot, tail);
    assert(front + seq![0x2fu8, 0x2eu8, 0x2fu8] + tail =~= front.push(0x2f) + dotted);
    assert(filepath::names(dot) + filepath::names(tail) =~= filepath::names(tail));
    lemma_names_between(front, none);
    assert(front + seq![0x2fu8] =~= front.push(0x2f) + none);
    assert(filepath::names(front) + filepath::names(none) =~= filepath::names(front));
    lemma_names_between(front, name);
    assert(front + seq![0x2fu8] + name =~= front.push(0x2f) + name);
    crate::laws::text::lemma_split_first(name, 0x2fu8, none);
    crate::order::lemma_filter_one(name, filepath::naming());
    assert(filepath::names(name).len() == 1);
}

proof fn lemma_last_piece_at(front: Seq<u8>, piece: Seq<u8>, start: int)
    requires
        0 <= start <= front.len(),
        !piece.contains(0x2fu8),
        front.len() == start || front.last() == 0x2f,
    ensures
        filepath::last_piece(front + piece, start) == front.len(),
    decreases piece.len(),
{
    let p = front + piece;
    if piece.len() > 0 {
        assert(piece.contains(piece[piece.len() - 1]));
        assert(p.last() == piece.last());
        assert(p.drop_last() =~= front + piece.drop_last());
        assert(!piece.drop_last().contains(0x2fu8)) by {
            if piece.drop_last().contains(0x2fu8) {
                let i = choose|i: int| 0 <= i < piece.len() - 1 && piece.drop_last()[i] == 0x2f;
                assert(piece[i] == 0x2f);
            }
        }
        lemma_last_piece_at(front, piece.drop_last(), start);
    } else {
        assert(p =~= front);
    }
}

/// A name in a directory, where the directory is the root or ends in a name itself, has that
/// directory for its parent.
pub proof fn lemma_parent(front: Seq<u8>, dir: Seq<u8>, name: Seq<u8>)
    requires
        front.len() > 0,
        front[0] == 0x2f,
        front.last() == 0x2f,
        dir.len() > 0,
        dir != seq![0x2eu8],
        !dir.contains(0x2fu8),
        name.len() > 0,
        name != seq![0x2eu8],
        !name.contains(0x2fu8),
    ensures
        filepath::parent_of(front + dir + seq![0x2fu8] + name) == Some(front + dir),
        filepath::parent_of(seq![0x2fu8] + name) == Some(seq![0x2fu8]),
{
    let above = front + dir;
    let long = above.push(0x2f);
    let p = above + seq![0x2fu8] + name;
    assert(p =~= long + name);
    assert(p[0] == front[0]);
    lemma_last_piece_at(long, name, 1);
    assert(p.skip(long.len() as int) =~= name);
    assert(filepath::trim_unnamed(p, 1) == p);
    assert(p.take(above.len() as int) =~= above);
    lemma_last_piece_at(front, dir, 1);
    assert(above.skip(front.len() as int) =~= dir);
    assert(filepath::trim_unnamed(above, 1) == above);
    let root = seq![0x2fu8];
    let q = root + name;
    lemma_last_piece_at(root, name, 1);
    assert(q.skip(1) =~= name);
    assert(filepath::trim_unnamed(q, 1) == q);
    assert(q.take(1) =~= root);
    assert(filepath::trim_unnamed(root, 1) == root);
}

// ---------------------------------------------------------------------------
// The search path
// ---------------------------------------------------------------------------

/// The directories of the search path are those between its colons, in their order; empty ones
/// are left out.
pub proof fn lemma_directories(list: Seq<u8>, dir: Seq<u8>)
    requires
        !dir.contains(0x3au8),
    ensures
        path::directories(dir) == if dir.len() > 0 {
            seq![dir]
        } else {
            Seq::empty()
        },
        path::directories(list.push(0x3a) + dir) == if dir.len() > 0 {
            path::directories(list).push(dir)
        } else {
            path::directories(list)
        },
{
    bytes::lemma_split_concat(list, dir, 0x3au8);
    crate::laws::text::lemma_split_first(dir, 0x3au8, Seq::empty());
    crate::order::lemma_filter_one(dir, path::given());
    Seq::filter_distributes_over_add(text::split(list, 0x3au8), seq![dir], path::given());
    let before = path::directories(list);
    if dir.len() > 0 {
        assert(seq![dir].filter(path::given()) =~= seq![dir]);
        assert(before + seq![dir] =~= before.push(dir));
    } else {
        assert(seq![dir].filter(path::given()) =~= Seq::<Seq<u8>>::empty());
        assert(before + Seq::<Seq<u8>>::empty() =~= before);
    }
}

/// A command is looked for in each directory of the search path, in their order, and nowhere
/// without one.
pub proof fn lemma_places(list: Seq<u8>, command: Seq<char>, i: int)
    requires
        0 <= i < path::directories(list).len(),
    ensures
        path::places(Some(list), command).len() == path::directories(list).len(),
        path::places(Some(list), command)[i] == filepath::joined(
            path::directories(list)[i],
            vstd::utf8::encode_utf8(command),
        ),
        path::places(None, command).len() == 0,
{
}

/// What was found at the place, which is the first of what was found there.
pub open spec fn first_probe(probes: Seq<Probe>, k: int, place: Seq<u8>) -> bool {
    &&& 0 <= k < probes.len()
    &&& probes[k].path@ == place
    &&& forall|j: int| 0 <= j < k ==> (#[trigger] probes[j]).path@ != place
}

proof fn lemma_probe(probes: Seq<Probe>, k: int, place: Seq<u8>)
    requires
        first_probe(probes, k, place),
    ensures
        path::probe_at(probes, place) == Some(probes[k]),
    decreases k,
{
    if k > 0 {
        assert(probes[0].path@ != place);
        let more = probes.skip(1);
        assert forall|j: int| 0 <= j < k - 1 implies (#[trigger] more[j]).path@ != place by {
            assert(more[j] == probes[j + 1]);
        }
        lemma_probe(more, k - 1, place);
    }
}

proof fn lemma_no_probe(probes: Seq<Probe>, place: Seq<u8>)
    requires
        forall|j: int| 0 <= j < probes.len() ==> (#[trigger] probes[j]).path@ != place,
    ensures
        path::probe_at(probes, place) is None,
    decreases probes.len(),
{
    if probes.len() > 0 {
        assert(probes[0].path@ != place);
        let more = probes.skip(1);
        assert forall|j: int| 0 <= j < more.len() implies (#[trigger] more[j]).path@ != place by {
            assert(more[j] == probes[j + 1]);
        }
        lemma_no_probe(more, place);
    }
}

/// A file or a link at a place is a hit, and its canonical path tells which file it is, or the
/// place itself where there is none. Anything else there is passed over; what cannot be looked
/// at is a failure, and what is not there is none.
pub proof fn lemma_hits(probes: Seq<Probe>, k: int, place: Seq<u8>)
    requires
        first_probe(probes, k, place),
    ensures
        path::is_hit(probes, place) == (probes[k].entry == Ok::<EntryKind, IoFailure>(
            EntryKind::File,
        ) || probes[k].entry == Ok::<EntryKind, IoFailure>(EntryKind::Symlink)),
        probes[k].canonical matches Some(found) ==> path::key_at(probes, place) == found@,
        probes[k].canonical is None ==> path::key_at(probes, place) == place,
        probes[k].entry is Ok ==> path::error_at(probes, place) is None,
        probes[k].entry matches Err(error) ==> path::error_at(probes, place) == if error.kind
            == FailureKind::NotFound {
            None
        } else {
            Some(error)
        },
{
    lemma_probe(probes, k, place);
}

/// A place that nothing was found at is no hit and no failure.
pub proof fn lemma_no_hit(probes: Seq<Probe>, place: Seq<u8>)
    requires
        forall|j: int| 0 <= j < probes.len() ==> (#[trigger] probes[j]).path@ != place,
    ensures
        !path::is_hit(probes, place),
        path::error_at(probes, place) is None,
{
    lemma_no_probe(probes, place);
}

/// The first place that cannot be looked at ends the search with its failure, and without one
/// the search succeeds.
pub proof fn lemma_search_fails(
    r: Result<Vec<PathMatch>, IoFailure>,
    probes: Seq<Probe>,
    places: Seq<Seq<u8>>,
    k: int,
)
    requires
        path::is_search(r, probes, places),
        0 <= k <= places.len(),
        k < places.len() ==> path::error_at(probes, places[k]) is Some,
        forall|j: int| 0 <= j < k ==> path::error_at(probes, #[trigger] places[j]) is None,
    ensures
        k < places.len() ==> r == Err::<Vec<PathMatch>, IoFailure>(
            path::error_at(probes, places[k])->0,
        ),
        k == places.len() ==> r is Ok,
{
    lemma_first_error(probes, places, k);
}

proof fn lemma_first_error(probes: Seq<Probe>, places: Seq<Seq<u8>>, k: int)
    requires
        0 <= k <= places.len(),
        k < places.len() ==> path::error_at(probes, places[k]) is Some,
        forall|j: int| 0 <= j < k ==> path::error_at(probes, #[trigger] places[j]) is None,
    ensures
        path::first_error(probes, places) == if k < places.len() {
            path::error_at(probes, places[k])
        } else {
            None
        },
    decreases k,
{
    if k > 0 {
        assert(path::error_at(probes, places[0]) is None);
        let more = places.skip(1);
        assert forall|j: int| 0 <= j < k - 1 implies path::error_at(
            probes,
            #[trigger] more[j],
        ) is None by {
            assert(more[j] == places[j + 1]);
        }
        lemma_first_error(probes, more, k - 1);
    }
}

/// The first place with a file is the match that comes first, and the others follow in the
/// order of the places.
pub proof fn lemma_matches_in_order(
    r: Result<Vec<PathMatch>, IoFailure>,
    probes: Seq<Probe>,
    places: Seq<Seq<u8>>,
    k: int,
)
    requires
        path::is_search(r, probes, places),
        r is Ok,
        0 <= k < places.len(),
        path::is_hit(probes, places[k]),
        forall|j: int| 0 <= j < k ==> !path::is_hit(probes, #[trigger] places[j]),
    ensures
        r->Ok_0@.len() > 0,
        r->Ok_0@[0].path@ == places[k],
{
    let n = places.len() as int;
    lemma_first_kept(probes, places, n, k);
    assert(path::is_match(r->Ok_0@[0], probes, path::kept(probes, places, n)[0]));
}

proof fn lemma_first_kept(probes: Seq<Probe>, places: Seq<Seq<u8>>, n: int, k: int)
    requires
        0 <= n <= places.len(),
        0 <= k < places.len(),
        path::is_hit(probes, places[k]),
        forall|j: int| 0 <= j < k ==> !path::is_hit(probes, #[trigger] places[j]),
    ensures
        n <= k ==> path::kept(probes, places, n).len() == 0,
        n > k ==> path::kept(probes, places, n).len() > 0 && path::kept(probes, places, n)[0]
            == places[k],
    decreases n,
{
    if n > 0 {
        lemma_first_kept(probes, places, n - 1, k);
        if n - 1 < k {
            assert(!path::is_hit(probes, places[n - 1]));
        }
    }
}

/// Each match is at one of the places, has the links from there, and is executable where the
/// file in the end is a file that somebody may execute.
pub proof fn lemma_match_is_told(found: PathMatch, probes: Seq<Probe>, k: int, place: Seq<u8>)
    requires
        path::is_match(found, probes, place),
        first_probe(probes, k, place),
    ensures
        found.path@ == place,
        found.executable == (probes[k].target matches Some(file) && file.is_file && (file.mode
            & 0o111) != 0),
        filepath::path_views(found.symlink_chain@) == path::chain_from(
            place,
            probes[k].links@,
            16,
        ),
{
    lemma_probe(probes, k, place);
    if let Some(file) = probes[k].target {
        lemma_execute_bits(file.mode);
    }
}

/// Somebody may execute a file with one of the three execute bits.
pub proof fn lemma_execute_bits(mode: u32)
    ensures
        path::has_execute_bit(mode) == ((mode & 0o111) != 0),
{
    assert((mode & 0o111 != 0) == (mode / 64 % 2 == 1 || mode / 8 % 2 == 1 || mode % 2 == 1))
        by (bit_vector);
}

// ---------------------------------------------------------------------------
// Links
// ---------------------------------------------------------------------------

/// The link at this path, which is the first of them.
pub open spec fn first_link(links: Seq<Link>, k: int, at: Seq<u8>) -> bool {
    &&& 0 <= k < links.len()
    &&& links[k].path@ == at
    &&& forall|j: int| 0 <= j < k ==> (#[trigger] links[j]).path@ != at
}

proof fn lemma_link(links: Seq<Link>, k: int, at: Seq<u8>)
    requires
        first_link(links, k, at),
    ensures
        path::link_target(links, at) == Some(links[k].target@),
    decreases k,
{
    if k > 0 {
        assert(links[0].path@ != at);
        let more = links.skip(1);
        assert forall|j: int| 0 <= j < k - 1 implies (#[trigger] more[j]).path@ != at by {
            assert(more[j] == links[j + 1]);
        }
        lemma_link(more, k - 1, at);
    }
}

/// A link is followed to its target: one from the root stands for itself, another one is seen
/// from the directory of the link. What is no link ends the chain, and so does the limit.
pub proof fn lemma_links_are_followed(links: Seq<Link>, k: int, at: Seq<u8>, limit: int)
    requires
        first_link(links, k, at),
        limit > 0,
    ensures
        path::chain_from(at, links, limit) == seq![links[k].target@] + path::chain_from(
            if links[k].target@.len() > 0 && links[k].target@[0] == 0x2f {
                links[k].target@
            } else {
                match filepath::parent_of(at) {
                    Some(parent) => filepath::joined(parent, links[k].target@),
                    None => links[k].target@,
                }
            },
            links,
            limit - 1,
        ),
        path::chain_from(at, links, 0).len() == 0,
{
    lemma_link(links, k, at);
}

/// What is no link has no chain.
pub proof fn lemma_no_links(links: Seq<Link>, at: Seq<u8>, limit: int)
    requires
        forall|j: int| 0 <= j < links.len() ==> (#[trigger] links[j]).path@ != at,
    ensures
        path::chain_from(at, links, limit).len() == 0,
    decreases links.len(),
{
    if links.len() > 0 {
        assert(links[0].path@ != at);
        let more = links.skip(1);
        assert forall|j: int| 0 <= j < more.len() implies (#[trigger] more[j]).path@ != at by {
            assert(more[j] == links[j + 1]);
        }
        lemma_no_links(more, at, limit);
    }
}

// ---------------------------------------------------------------------------
// Packages
// ---------------------------------------------------------------------------

/// The manager ran and was successful.
pub open spec fn succeeded(output: Option<CommandOutput>) -> bool {
    output matches Some(out) && out.success
}

/// What the manager printed.
pub open spec fn said(output: Option<CommandOutput>) -> Seq<char> {
    bytes::lossy(output->0.stdout@)
}

/// The answer names a package and does not say that there is none.
pub open spec fn names_package(answer: Seq<char>) -> bool {
    text::trim(answer).len() > 0 && !text::occurs(text::trim(answer), "not installed"@)
}

/// The first package manager that knows the file names its package, in the order pacman, dpkg,
/// rpm, apk, and is named with it. A manager that is missing or fails knows nothing.
pub proof fn lemma_first_manager_answers(replies: PackageReplies)
    ensures
        succeeded(replies.pacman) ==> replies.owner() == Some(
            text::trim(said(replies.pacman)) + " (pacman)"@,
        ),
        !succeeded(replies.pacman) && succeeded(replies.dpkg) && text::lines(
            said(replies.dpkg),
        ).len() > 0 ==> replies.owner() == Some(
            text::trim(text::split(text::lines(said(replies.dpkg))[0], ':')[0]) + " (dpkg)"@,
        ),
        !succeeded(replies.pacman) && !succeeded(replies.dpkg) && succeeded(replies.rpm)
            && names_package(said(replies.rpm)) ==> replies.owner() == Some(
            text::trim(said(replies.rpm)) + " (rpm)"@,
        ),
        !succeeded(replies.pacman) && !succeeded(replies.dpkg) && !(succeeded(replies.rpm)
            && names_package(said(replies.rpm))) && succeeded(replies.apk) ==> replies.owner()
            == Some(text::trim(said(replies.apk)) + " (apk)"@),
        !succeeded(replies.pacman) && !succeeded(replies.dpkg) && !(succeeded(replies.rpm)
            && names_package(said(replies.rpm))) && !succeeded(replies.apk) ==> replies.owner()
            is None,
{
}

/// What dpkg says about a file starts with the package, up to the first colon.
pub proof fn lemma_dpkg_answer(package: Seq<char>, rest: Seq<char>, more: Seq<char>)
    requires
        package.len() > 0,
        !package.contains(':'),
        !package.contains('\n'),
        !rest.contains('\n'),
        rest.len() == 0 || rest.last() != '\r',
        !text::is_space(package[0]),
        !text::is_space(package.last()),
    ensures
        packages::first_field(Some((package.push(':') + rest).push('\n') + more)) == Some(package),
{
    let line = package.push(':') + rest;
    assert(!line.contains('\n')) by {
        if line.contains('\n') {
            let i = choose|i: int| 0 <= i < line.len() && line[i] == '\n';
            if i < package.len() {
                assert(package[i] == '\n');
            } else if i > package.len() {
                assert(rest[i - package.len() - 1] == '\n');
            }
        }
    }
    crate::laws::text::lemma_lines_first(line, more);
    crate::laws::text::lemma_split_first(package, ':', rest);
    let none = Seq::<char>::empty();
    crate::laws::text::lemma_trim_around(none, package, none);
    assert(none + package + none =~= package);
    assert(text::lines(line.push('\n') + more)[0] == line);
}

// ---------------------------------------------------------------------------
// The report
// ---------------------------------------------------------------------------

/// The targets of the links behind a path, each behind an arrow.
pub open spec fn with_arrows(shown: Seq<char>, targets: Seq<Seq<char>>) -> Seq<char> {
    text::join(seq![shown] + targets, " -> "@)
}

proof fn lemma_arrows(shown: Seq<char>, chain: Seq<Seq<u8>>, n: nat)
    requires
        n <= chain.len(),
    ensures
        shown + report::arrows(chain, n as int) == with_arrows(
            shown,
            Seq::new(n, |i: int| bytes::lossy(chain[i])),
        ),
    decreases n,
{
    let targets = Seq::new(n, |i: int| bytes::lossy(chain[i]));
    if n == 0 {
        assert(seq![shown] + targets =~= seq![shown]);
        assert(shown + report::arrows(chain, 0) =~= shown);
    } else {
        let m = (n - 1) as nat;
        let fewer = Seq::new(m, |i: int| bytes::lossy(chain[i]));
        lemma_arrows(shown, chain, m);
        crate::laws::text::lemma_join_grows(
            seq![shown] + fewer,
            bytes::lossy(chain[n - 1]),
            " -> "@,
        );
        assert((seq![shown] + fewer).push(bytes::lossy(chain[n - 1])) =~= seq![shown] + targets);
        assert(shown + report::arrows(chain, n as int) =~= shown + report::arrows(chain, m as int)
            + " -> "@ + bytes::lossy(chain[n - 1]));
    }
}

/// A match is shown with the first three targets of its links, and with dots for the others.
pub proof fn lemma_match_is_shown(found: PathMatch)
    ensures
        ({
            let chain = found.symlink_chain@;
            let shown = bytes::lossy(found.path@);
            &&& chain.len() <= 3 ==> report::match_text(found) == with_arrows(
                shown,
                Seq::new(chain.len(), |i: int| bytes::lossy(chain[i]@)),
            )
            &&& chain.len() > 3 ==> report::match_text(found) == with_arrows(
                shown,
                Seq::new(3, |i: int| bytes::lossy(chain[i]@)),
            ) + " -> ..."@
        }),
{
    let chain = found.symlink_chain@;
    let views = filepath::path_views(chain);
    let shown = bytes::lossy(found.path@);
    if chain.len() <= 3 {
        lemma_arrows(shown, views, chain.len());
        assert(Seq::new(chain.len(), |i: int| bytes::lossy(views[i])) =~= Seq::new(
            chain.len(),
            |i: int| bytes::lossy(chain[i]@),
        ));
    } else {
        lemma_arrows(shown, views, 3);
        assert(Seq::new(3, |i: int| bytes::lossy(views[i])) =~= Seq::new(
            3,
            |i: int| bytes::lossy(chain[i]@),
        ));
    }
}

/// What is known of the path, which is the first that is known of it.
pub open spec fn first_facts(facts: Seq<PathFacts>, k: int, at: Seq<u8>) -> bool {
    &&& 0 <= k < facts.len()
    &&& facts[k].path@ == at
    &&& forall|j: int| 0 <= j < k ==> (#[trigger] facts[j]).path@ != at
}

proof fn lemma_facts(facts: Seq<PathFacts>, k: int, at: Seq<u8>)
    requires
        first_facts(facts, k, at),
    ensures
        report::facts_at(facts, at) == Some(facts[k]),
    decreases k,
{
    if k > 0 {
        assert(facts[0].path@ != at);
        let more = facts.skip(1);
        assert forall|j: int| 0 <= j < k - 1 implies (#[trigger] more[j]).path@ != at by {
            assert(more[j] == facts[j + 1]);
        }
        lemma_facts(more, k - 1, at);
    }
}

/// The package of a file is the one that the managers named for its own path.
pub proof fn lemma_package_is_shown(facts: Seq<PathFacts>, k: int, at: Seq<u8>)
    requires
        first_facts(facts, k, at),
    ensures
        report::package_at(facts, at) == match facts[k].packages.owner() {
            Some(package) => package,
            None => "unknown"@,
        },
{
    lemma_facts(facts, k, at);
}

/// The size, the owner, the permissions and the time of a file are shown from what is known of
/// its own path.
pub proof fn lemma_metadata_is_shown(
    facts: Seq<PathFacts>,
    k: int,
    at: Seq<u8>,
    passwd: Option<Seq<char>>,
)
    requires
        first_facts(facts, k, at),
    ensures
        facts[k].file matches Some(file) ==> (file.modified matches Some(time)
            ==> report::meta_lines(facts, at, passwd) == seq![
            "├── size: "@ + number::decimal(file.size as int) + " bytes"@,
            "├── owner: "@ + process::username(passwd, file.uid as int),
            "├── perms: "@ + number::octal4(file.mode as int % 4096),
            "├── mtime: "@ + time.shown(),
        ]),
        facts[k].file is None ==> report::meta_lines(facts, at, passwd).len() == 0,
{
    lemma_facts(facts, k, at);
}

/// What the report has on a match that is not the active one.
pub open spec fn duplicate_block(found: PathMatch, facts: Seq<PathFacts>, last: bool) -> Seq<
    Seq<char>,
> {
    let bar = if last {
        "       "@
    } else {
        "    │  "@
    };
    seq![
        (if last {
            "    └──"@
        } else {
            "    ├──"@
        }) + " "@ + report::match_text(found),
        bar + "├── executable: "@ + (if found.executable {
            "yes"@
        } else {
            "no"@
        }),
        bar + "└── package: "@ + report::package_at(facts, found.path@),
    ]
}

/// The blocks of the matches behind the active one, up to the `n`th match.
pub open spec fn duplicate_blocks(matches: Seq<PathMatch>, facts: Seq<PathFacts>, n: nat) -> Seq<
    Seq<Seq<char>>,
> {
    Seq::new(
        (n - 1) as nat,
        |i: int| duplicate_block(matches[i + 1], facts, i + 2 == matches.len()),
    )
}

proof fn lemma_duplicates(matches: Seq<PathMatch>, facts: Seq<PathFacts>, n: nat)
    requires
        1 <= n <= matches.len(),
    ensures
        report::duplicates(matches, facts, n as int) == stacked(
            duplicate_blocks(matches, facts, n),
        ),
    decreases n,
{
    if n > 1 {
        let m = (n - 1) as nat;
        lemma_duplicates(matches, facts, m);
        assert(duplicate_blocks(matches, facts, n).drop_last() =~= duplicate_blocks(
            matches,
            facts,
            m,
        ));
        assert(duplicate_blocks(matches, facts, n).last() =~= report::duplicate_lines(
            matches[n - 1],
            facts,
            n == matches.len(),
        ));
    }
}

/// The report on a command shows the first match as the active one, with its package, and all
/// others as duplicates, in their order; a command without a match is not found.
pub proof fn lemma_command_is_reported(
    command: Seq<char>,
    matches: Seq<PathMatch>,
    verbose: bool,
    facts: Seq<PathFacts>,
    passwd: Option<Seq<char>>,
)
    ensures
        matches.len() == 0 ==> report::command_report(command, matches, verbose, facts, passwd)
            == "command not found in PATH: "@ + command,
        matches.len() > 0 ==> report::command_report(command, matches, verbose, facts, passwd)
            == text::join(
            seq![
                command,
                "├── active: "@ + report::match_text(matches[0]),
                "├── executable: "@ + (if matches[0].executable {
                    "yes"@
                } else {
                    "no"@
                }),
                "├── package: "@ + report::package_at(facts, matches[0].path@),
            ] + (if verbose {
                report::meta_lines(facts, matches[0].path@, passwd)
            } else {
                Seq::empty()
            }) + (if matches.len() == 1 {
                seq!["└── duplicates: none"@]
            } else {
                seq!["└── duplicates:"@] + stacked(
                    duplicate_blocks(matches, facts, matches.len()),
                )
            }),
            "\n"@,
        ),
{
    if matches.len() > 0 {
        lemma_duplicates(matches, facts, matches.len());
        assert(report::command_lines(command, matches, verbose, facts, passwd) =~= seq![
            command,
            "├── active: "@ + report::match_text(matches[0]),
            "├── executable: "@ + (if matches[0].executable {
                "yes"@
            } else {
                "no"@
            }),
            "├── package: "@ + report::package_at(facts, matches[0].path@),
        ] + (if verbose {
            report::meta_lines(facts, matches[0].path@, passwd)
        } else {
            Seq::empty()
        }) + (if matches.len() == 1 {
            seq!["└── duplicates: none"@]
        } else {
            seq!["└── duplicates:"@] + stacked(duplicate_blocks(matches, facts, matches.len()))
        }));
    }
}

/// Every match but the active one is listed with its own place and package, in their order.
pub proof fn lemma_duplicates_are_listed(
    command: Seq<char>,
    matches: Seq<PathMatch>,
    verbose: bool,
    facts: Seq<PathFacts>,
    passwd: Option<Seq<char>>,
)
    requires
        matches.len() > 1,
    ensures
        in_order(
            report::command_lines(command, matches, verbose, facts, passwd),
            Seq::new(
                (matches.len() - 1) as nat,
                |i: int| duplicate_block(matches[i + 1], facts, i + 2 == matches.len()),
            ),
        ),
{
    let lines = report::command_lines(command, matches, verbose, facts, passwd);
    let blocks = duplicate_blocks(matches, facts, matches.len());
    lemma_duplicates(matches, facts, matches.len());
    crate::laws::text::lemma_stacked_in_order(blocks);
    let n = lines.len() - stacked(blocks).len();
    let head = lines.take(n);
    let none = Seq::<Seq<char>>::empty();
    assert(lines =~= head + stacked(blocks) + none);
    crate::laws::text::lemma_order_inside(head, stacked(blocks), none, blocks);
}

/// The facts of a directory, which are the first of it.
pub open spec fn first_dir(dirs: Seq<DirFacts>, k: int, at: Seq<u8>) -> bool {
    &&& 0 <= k < dirs.len()
    &&& dirs[k].path@ == at
    &&& forall|j: int| 0 <= j < k ==> (#[trigger] dirs[j]).path@ != at
}

proof fn lemma_dir(dirs: Seq<DirFacts>, k: int, at: Seq<u8>)
    requires
        first_dir(dirs, k, at),
    ensures
        report::dir_at(dirs, at) == Some(dirs[k]),
    decreases k,
{
    if k > 0 {
        assert(dirs[0].path@ != at);
        let more = dirs.skip(1);
        assert forall|j: int| 0 <= j < k - 1 implies (#[trigger] more[j]).path@ != at by {
            assert(more[j] == dirs[j + 1]);
        }
        lemma_dir(more, k - 1, at);
    }
}

proof fn lemma_no_dir(dirs: Seq<DirFacts>, at: Seq<u8>)
    requires
        forall|j: int| 0 <= j < dirs.len() ==> (#[trigger] dirs[j]).path@ != at,
    ensures
        report::dir_at(dirs, at) is None,
    decreases dirs.len(),
{
    if dirs.len() > 0 {
        assert(dirs[0].path@ != at);
        let more = dirs.skip(1);
        assert forall|j: int| 0 <= j < more.len() implies (#[trigger] more[j]).path@ != at by {
            assert(more[j] == dirs[j + 1]);
        }
        lemma_no_dir(more, at);
    }
}

/// The audit warns of a directory that everybody may write to and of one that does not belong
/// to root, and of nothing else.
pub proof fn lemma_directory_is_audited(
    dirs: Seq<DirFacts>,
    k: int,
    at: Seq<u8>,
    passwd: Option<Seq<char>>,
)
    requires
        first_dir(dirs, k, at),
    ensures
        ({
            let shown = bytes::lossy(at);
            let open = (dirs[k].mode & 2) != 0;
            let owner = "owned by "@ + process::username(passwd, dirs[k].uid as int)
                + " (not root)"@;
            report::audit_line(at, dirs, passwd) == if !open && dirs[k].uid == 0 {
                "  ✓ "@ + shown
            } else if open && dirs[k].uid == 0 {
                "  ⚠ "@ + shown + " — "@ + "world-writable"@
            } else if !open {
                "  ⚠ "@ + shown + " — "@ + owner
            } else {
                "  ⚠ "@ + shown + " — "@ + ("world-writable"@ + ", "@ + owner)
            }
        }),
{
    lemma_dir(dirs, k, at);
    let mode = dirs[k].mode;
    assert((mode & 2 != 0) == (mode / 2 % 2 == 1)) by (bit_vector);
    let owner = "owned by "@ + process::username(passwd, dirs[k].uid as int) + " (not root)"@;
    crate::laws::text::lemma_join_grows(seq!["world-writable"@], owner, ", "@);
    crate::laws::text::lemma_join_grows(seq!["world-writable"@], "world-writable"@, ", "@);
    assert(Seq::<Seq<char>>::empty().push(owner) =~= seq![owner]);
}

/// A directory that is not there is missing.
pub proof fn lemma_directory_is_missing(dirs: Seq<DirFacts>, at: Seq<u8>, passwd: Option<Seq<char>>)
    requires
        forall|j: int| 0 <= j < dirs.len() ==> (#[trigger] dirs[j]).path@ != at,
    ensures
        report::audit_line(at, dirs, passwd) == "  ✗ "@ + bytes::lossy(at) + " — missing"@,
{
    lemma_no_dir(dirs, at);
}

/// The audit has a line for every directory of the search path, in their order, behind an
/// empty line and a heading. It is made where details are asked for and a search path is set.
pub proof fn lemma_search_path_is_audited(
    command: Seq<char>,
    path_env: FilePath,
    matches: Seq<PathMatch>,
    facts: Seq<PathFacts>,
    dirs: Seq<DirFacts>,
    passwd: Option<Seq<char>>,
    i: int,
)
    requires
        0 <= i < path::directories(path_env@).len(),
    ensures
        ({
            let lines = report::printed_lines(
                command,
                Some(path_env),
                matches,
                true,
                facts,
                dirs,
                passwd,
            );
            &&& lines.len() == 3 + path::directories(path_env@).len()
            &&& lines[0] == report::command_report(command, matches, true, facts, passwd)
            &&& lines[1] == ""@
            &&& lines[2] == "PATH audit:"@
            &&& lines[3 + i] == report::audit_line(path::directories(path_env@)[i], dirs, passwd)
        }),
        report::printed_lines(command, Some(path_env), matches, false, facts, dirs, passwd)
            == seq![report::command_report(command, matches, false, facts, passwd)],
        report::printed_lines(command, None, matches, true, facts, dirs, passwd) == seq![
            report::command_report(command, matches, true, facts, passwd),
        ],
{
}

/// What is known of a file is its size, its owner by name, its permissions and its time.
pub proof fn lemma_file_is_described(meta: FileMeta, facts: FileFacts, passwd: Option<Seq<char>>)
    requires
        report::is_meta(meta, facts, passwd),
    ensures
        meta.size == facts.size,
        meta.owner@ == process::username(passwd, facts.uid as int),
        meta.perms@ == number::octal4(facts.mode as int % 4096),
        facts.modified matches Some(time) && meta.mtime@ == time.shown(),
{
}

/// A name alone, and the current directory, have the empty path for their parent, a name in the
/// current directory has that, and a name in another one that is not from the root has that;
/// the root and the empty path have none.
pub proof fn lemma_relative_parents(dir: Seq<u8>, name: Seq<u8>)
    requires
        dir.len() > 0,
        dir != seq![0x2eu8],
        !dir.contains(0x2fu8),
        name.len() > 0,
        name != seq![0x2eu8],
        !name.contains(0x2fu8),
    ensures
        filepath::parent_of(name) == Some(Seq::<u8>::empty()),
        filepath::parent_of(seq![0x2eu8]) == Some(Seq::<u8>::empty()),
        filepath::parent_of(seq![0x2eu8, 0x2fu8] + name) == Some(seq![0x2eu8]),
        filepath::parent_of(dir + seq![0x2fu8] + name) == Some(dir),
        filepath::parent_of(seq![0x2fu8]) is None,
        filepath::parent_of(Seq::<u8>::empty()) is None,
{
    let none = Seq::<u8>::empty();
    assert(name.contains(name[0]));
    assert(dir.contains(dir[0]));
    lemma_not_here(name);
    lemma_not_here(dir);
    lemma_last_piece_at(none, name, 0);
    assert(none + name =~= name);
    assert(name.skip(0) =~= name);
    assert(name.take(0) =~= none);
    assert(filepath::trim_unnamed(name, 0) == name);
    assert(filepath::trim_unnamed(none, 0) == none);
    let dot = seq![0x2eu8];
    assert(filepath::trim_unnamed(dot, 1) == dot);
    let start = seq![0x2eu8, 0x2fu8];
    let here = start + name;
    lemma_last_piece_at(start, name, 1);
    assert(here.skip(2) =~= name);
    assert(filepath::trim_unnamed(here, 1) == here);
    assert(here.take(1) =~= dot);
    let long = dir.push(0x2f);
    let p = dir + seq![0x2fu8] + name;
    assert(p =~= long + name);
    assert(p[0] == dir[0]);
    if filepath::starts_here(p) {
        if dir.len() > 1 {
            assert(p[1] == dir[1]);
            assert(dir.contains(dir[1]));
        } else {
            assert(dir =~= dot);
        }
    }
    lemma_last_piece_at(long, name, 0);
    assert(p.skip(long.len() as int) =~= name);
    assert(filepath::trim_unnamed(p, 0) == p);
    assert(p.take(dir.len() as int) =~= dir);
    lemma_last_piece_at(none, dir, 0);
    assert(none + dir =~= dir);
    assert(dir.skip(0) =~= dir);
    assert(filepath::trim_unnamed(dir, 0) == dir);
    let root = seq![0x2fu8];
    assert(filepath::trim_unnamed(root, 1) == root);
}

proof fn lemma_not_here(name: Seq<u8>)
    requires
        name.len() > 0,
        name != seq![0x2eu8],
        !name.contains(0x2fu8),
    ensures
        !filepath::starts_here(name),
        !filepath::is_rooted(name),
{
    assert(name.contains(name[0]));
    if filepath::starts_here(name) {
        if name.len() == 1 {
            assert(name =~= seq![0x2eu8]);
        } else {
            assert(name.contains(name[1]));
        }
    }
}

/// A path goes through one more name where a name is set behind it, and through no more where
/// nothing or a `.` is.
pub proof fn lemma_names_grow(front: Seq<u8>, name: Seq<u8>)
    requires
        !name.contains(0x2fu8),
    ensures
        filepath::names(front.push(0x2f) + name) == if name.len() > 0 && name != seq![0x2eu8] {
            filepath::names(front).push(name)
        } else {
            filepath::names(front)
        },
        filepath::names(name) == if name.len() > 0 && name != seq![0x2eu8] {
            seq![name]
        } else {
            Seq::empty()
        },
{
    let none = Seq::<u8>::empty();
    lemma_names_between(front, name);
    crate::laws::text::lemma_split_first(name, 0x2fu8, none);
    crate::order::lemma_filter_one(name, filepath::naming());
    let before = filepath::names(front);
    if name.len() > 0 && name != seq![0x2eu8] {
        assert(filepath::names(name) =~= seq![name]);
        assert(before + seq![name] =~= before.push(name));
    } else {
        assert(filepath::names(name) =~= Seq::<Seq<u8>>::empty());
        assert(before + Seq::<Seq<u8>>::empty() =~= before);
    }
}

/// A manager that is successful and says nothing does not know the file, where only the first
/// line of its answer counts.
pub proof fn lemma_silent_manager(replies: PackageReplies)
    requires
        !succeeded(replies.pacman),
        succeeded(replies.dpkg),
        text::lines(said(replies.dpkg)).len() == 0,
    ensures
        succeeded(replies.rpm) && names_package(said(replies.rpm)) ==> replies.owner() == Some(
            text::trim(said(replies.rpm)) + " (rpm)"@,
        ),
        !succeeded(replies.rpm) && succeeded(replies.apk) ==> replies.owner() == Some(
            text::trim(said(replies.apk)) + " (apk)"@,
        ),
        !succeeded(replies.rpm) && !succeeded(replies.apk) ==> replies.owner() is None,
{
}

/// Without anything known of a path its package is unknown, and nothing is told of the file.
pub proof fn lemma_nothing_known(facts: Seq<PathFacts>, at: Seq<u8>, passwd: Option<Seq<char>>)
    requires
        forall|j: int| 0 <= j < facts.len() ==> (#[trigger] facts[j]).path@ != at,
    ensures
        report::package_at(facts, at) == "unknown"@,
        report::meta_lines(facts, at, passwd).len() == 0,
{
    lemma_no_facts(facts, at);
}

proof fn lemma_no_facts(facts: Seq<PathFacts>, at: Seq<u8>)
    requires
        forall|j: int| 0 <= j < facts.len() ==> (#[trigger] facts[j]).path@ != at,
    ensures
        report::facts_at(facts, at) is None,
    decreases facts.len(),
{
    if facts.len() > 0 {
        assert(facts[0].path@ != at);
        let more = facts.skip(1);
        assert forall|j: int| 0 <= j < more.len() implies (#[trigger] more[j]).path@ != at by {
            assert(more[j] == facts[j + 1]);
        }
        lemma_no_facts(more, at);
    }
}

} // verus!
