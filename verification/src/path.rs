//! Finding a command on the search path.

pub mod packages;
pub mod report;

use crate::bytes;
use crate::bytes::{bytes_of, split_bytes};
use crate::failure::{FailureKind, IoFailure};
use crate::filepath;
use crate::filepath::FilePath;
use crate::text;
use vstd::prelude::*;

verus! {

/// A command that was found on the search path.
#[derive(Debug, Clone, PartialEq, Eq)]
pub struct PathMatch {
    pub path: FilePath,
    pub executable: bool,
    pub symlink_chain: Vec<FilePath>,
}

// ---------------------------------------------------------------------------
// Where a command can be
// ---------------------------------------------------------------------------

/// The colon between the directories of a search path.
pub open spec fn colon() -> u8 {
    0x3a
}

/// The predicate "is not empty".
pub open spec fn given() -> spec_fn(Seq<u8>) -> bool {
    |piece: Seq<u8>| piece.len() > 0
}

/// The directories of a search path.
pub open spec fn directories(path_env: Seq<u8>) -> Seq<Seq<u8>> {
    text::split(path_env, colon()).filter(given())
}

/// The places where a command can be, in the order of the search path.
pub open spec fn places(path_env: Option<Seq<u8>>, command: Seq<char>) -> Seq<Seq<u8>> {
    match path_env {
        Some(list) => directories(list).map_values(
            |directory: Seq<u8>| filepath::joined(directory, vstd::utf8::encode_utf8(command)),
        ),
        None => Seq::empty(),
    }
}

/// The bytes that an optional path holds.
pub open spec fn opt_path(path: Option<FilePath>) -> Option<Seq<u8>> {
    match path {
        Some(p) => Some(p@),
        None => None,
    }
}

/// The directories of a search path; empty ones are left out.
pub fn split_paths(path_env: &FilePath) -> (r: Vec<FilePath>)
    ensures
        filepath::path_views(r@) == directories(path_env@),
{
    let pieces = split_bytes(path_env.bytes.as_slice(), 0x3a);
    let ghost all = bytes::byte_views(pieces@);
    let mut list: Vec<FilePath> = Vec::new();
    let mut i: usize = 0;
    proof {
        reveal(Seq::filter);
        assert(filepath::path_views(list@) =~= all.take(0).filter(given()));
    }
    while i < pieces.len()
        invariant
            i <= pieces@.len(),
            all == bytes::byte_views(pieces@),
            filepath::path_views(list@) == all.take(i as int).filter(given()),
        decreases pieces@.len() - i,
    {
        proof {
            reveal(Seq::filter);
            let next = all.take(i + 1);
            assert(next.drop_last() =~= all.take(i as int));
            assert(next.last() == pieces@[i as int]@);
        }
        if pieces[i].len() > 0 {
            let ghost before = list@;
            let piece = FilePath { bytes: bytes_of(pieces[i].as_slice(), 0, pieces[i].len()) };
            assert(piece@ =~= pieces@[i as int]@);
            list.push(piece);
            assert(filepath::path_views(list@) =~= filepath::path_views(before).push(piece@));
        }
        i += 1;
    }
    assert(all.take(i as int) =~= all);
    list
}

/// The places where a command can be, in the order of the search path.
pub fn command_places(command: &str, path_env: &Option<FilePath>) -> (r: Vec<FilePath>)
    ensures
        filepath::path_views(r@) == places(opt_path(*path_env), command@),
{
    let ghost goal = places(opt_path(*path_env), command@);
    let mut list: Vec<FilePath> = Vec::new();
    assert(filepath::path_views(list@) =~= goal.take(0));
    if let Some(env) = path_env {
        let dirs = split_paths(env);
        let name = FilePath::new(command);
        let ghost all = filepath::path_views(dirs@);
        let mut i: usize = 0;
        while i < dirs.len()
            invariant
                i <= dirs@.len(),
                all == filepath::path_views(dirs@),
                all == directories(env@),
                name@ == vstd::utf8::encode_utf8(command@),
                goal == places(Some(env@), command@),
                filepath::path_views(list@) == goal.take(i as int),
            decreases dirs@.len() - i,
        {
            let ghost before = list@;
            assert(all[i as int] == dirs@[i as int]@);
            let place = dirs[i].join(&name);
            list.push(place);
            proof {
                assert(filepath::path_views(list@) =~= filepath::path_views(before).push(place@));
                assert(goal.take(i + 1) =~= goal.take(i as int).push(goal[i as int]));
            }
            i += 1;
        }
        assert(all.len() == dirs@.len());
    }
    assert(goal.take(goal.len() as int) =~= goal);
    list
}

// ---------------------------------------------------------------------------
// Symbolic links
// ---------------------------------------------------------------------------

/// How many links are followed at most.
pub const MAX_LINKS: usize = 16;

/// A symbolic link and where it leads.
#[derive(Debug)]
pub struct Link {
    pub path: FilePath,
    pub target: FilePath,
}

/// Where the path leads, if it is a link.
pub open spec fn link_target(links: Seq<Link>, path: Seq<u8>) -> Option<Seq<u8>>
    decreases links.len(),
{
    if links.len() == 0 {
        None
    } else if links[0].path@ == path {
        Some(links[0].target@)
    } else {
        link_target(links.skip(1), path)
    }
}

/// The path that a link at `current` with this target stands for: a relative target is
/// seen from the directory of the link.
pub open spec fn step(current: Seq<u8>, target: Seq<u8>) -> Seq<u8> {
    if filepath::is_rooted(target) {
        target
    } else {
        match filepath::parent_of(current) {
            Some(parent) => filepath::joined(parent, target),
            None => target,
        }
    }
}

/// The targets of the links from `path` on, `limit` of them at most.
pub open spec fn chain_from(path: Seq<u8>, links: Seq<Link>, limit: int) -> Seq<Seq<u8>>
    decreases limit,
{
    if limit <= 0 {
        Seq::empty()
    } else {
        match link_target(links, path) {
            Some(target) => seq![target] + chain_from(step(path, target), links, limit - 1),
            None => Seq::empty(),
        }
    }
}

/// No more links are followed than the limit says, so that the search ends on links that
/// lead in a circle.
pub proof fn lemma_chain_is_short(path: Seq<u8>, links: Seq<Link>, limit: int)
    requires
        limit >= 0,
    ensures
        chain_from(path, links, limit).len() <= limit,
    decreases limit,
{
    if limit > 0 {
        if let Some(target) = link_target(links, path) {
            lemma_chain_is_short(step(path, target), links, limit - 1);
        }
    }
}

/// A walk along symbolic links.
#[derive(Debug)]
pub struct SymlinkWalk {
    /// The path that is looked at next.
    pub current: FilePath,
    /// The targets so far.
    pub chain: Vec<FilePath>,
}

impl SymlinkWalk {
    /// The limit on links is kept.
    pub open spec fn well_formed(self) -> bool {
        self.chain@.len() <= MAX_LINKS
    }

    /// Another link may be followed.
    pub open spec fn may_go_on(self) -> bool {
        self.chain@.len() < MAX_LINKS
    }

    /// A walk that starts at `path`.
    pub fn start(path: &FilePath) -> (r: SymlinkWalk)
        ensures
            r.well_formed(),
            r.current@ == path@,
            r.chain@.len() == 0,
    {
        SymlinkWalk { current: path.clone(), chain: Vec::new() }
    }

    /// Whether another link may be followed.
    pub fn is_open(&self) -> (r: bool)
        ensures
            r == self.may_go_on(),
    {
        self.chain.len() < MAX_LINKS
    }

    /// Follows the link at the current path to its target.
    pub fn follow(&mut self, target: FilePath)
        requires
            old(self).may_go_on(),
        ensures
            final(self).well_formed(),
            final(self).current@ == step(old(self).current@, target@),
            filepath::path_views(final(self).chain@) == filepath::path_views(
                old(self).chain@,
            ).push(target@),
    {
        let next: FilePath = if target.is_absolute() {
            target.clone()
        } else {
            match self.current.parent() {
                Some(parent) => parent.join(&target),
                None => target.clone(),
            }
        };
        self.current = next;
        let ghost before = self.chain@;
        self.chain.push(target);
        assert(filepath::path_views(self.chain@) =~= filepath::path_views(before).push(target@));
    }
}

/// Where the path leads, if it is a link.
pub fn find_link(links: &Vec<Link>, path: &FilePath) -> (r: Option<FilePath>)
    ensures
        opt_path(r) == link_target(links@, path@),
{
    let mut i: usize = 0;
    assert(links@.skip(0) =~= links@);
    while i < links.len()
        invariant
            i <= links@.len(),
            link_target(links@.skip(i as int), path@) == link_target(links@, path@),
        decreases links@.len() - i,
    {
        proof {
            assert(links@.skip(i as int)[0] == links@[i as int]);
            assert(links@.skip(i as int).skip(1) =~= links@.skip(i + 1));
        }
        if links[i].path.same(path) {
            return Some(links[i].target.clone());
        }
        i += 1;
    }
    None
}

/// The targets of the links from a path on.
pub fn resolve_symlink_chain(path: &FilePath, links: &Vec<Link>) -> (r: Vec<FilePath>)
    ensures
        filepath::path_views(r@) == chain_from(path@, links@, MAX_LINKS as int),
{
    let ghost goal = chain_from(path@, links@, MAX_LINKS as int);
    let mut walk = SymlinkWalk::start(path);
    assert(filepath::path_views(walk.chain@) + goal =~= goal);
    while walk.is_open()
        invariant
            walk.well_formed(),
            goal == chain_from(path@, links@, MAX_LINKS as int),
            goal == filepath::path_views(walk.chain@) + chain_from(
                walk.current@,
                links@,
                MAX_LINKS - walk.chain@.len(),
            ),
        decreases MAX_LINKS - walk.chain@.len(),
    {
        match find_link(links, &walk.current) {
            Some(target) => {
                let ghost before = walk;
                walk.follow(target);
                assert(filepath::path_views(walk.chain@).len() == walk.chain@.len());
                assert(filepath::path_views(before.chain@) + chain_from(
                    before.current@,
                    links@,
                    MAX_LINKS - before.chain@.len(),
                ) =~= filepath::path_views(walk.chain@) + chain_from(
                    walk.current@,
                    links@,
                    MAX_LINKS - walk.chain@.len(),
                ));
            },
            None => {
                assert(filepath::path_views(walk.chain@) =~= goal);
                return walk.chain;
            },
        }
    }
    assert(filepath::path_views(walk.chain@) =~= goal);
    walk.chain
}

// ---------------------------------------------------------------------------
// The search
// ---------------------------------------------------------------------------

/// What stands at a place, links not followed.
#[derive(Debug, Clone, Copy, PartialEq, Eq, Structural)]
pub enum EntryKind {
    File,
    Symlink,
    Other,
}

/// What is known of a file, links followed.
#[derive(Debug, Clone, Copy, PartialEq, Eq, Structural)]
pub struct FileMode {
    pub is_file: bool,
    pub mode: u32,
}

/// What was found at a place.
#[derive(Debug)]
pub struct Probe {
    pub path: FilePath,
    /// What stands there, or why that could not be seen.
    pub entry: Result<EntryKind, IoFailure>,
    /// The canonical path, if the file system gives one.
    pub canonical: Option<FilePath>,
    /// The file that is there in the end, if there is one.
    pub target: Option<FileMode>,
    /// The links on the way there.
    pub links: Vec<Link>,
}

/// What was found at a path.
pub open spec fn probe_at(probes: Seq<Probe>, path: Seq<u8>) -> Option<Probe>
    decreases probes.len(),
{
    if probes.len() == 0 {
        None
    } else if probes[0].path@ == path {
        Some(probes[0])
    } else {
        probe_at(probes.skip(1), path)
    }
}

/// A file or a link stands at the path.
pub open spec fn is_hit(probes: Seq<Probe>, path: Seq<u8>) -> bool {
    &&& probe_at(probes, path) matches Some(probe)
    &&& probe.entry matches Ok(kind)
    &&& kind != EntryKind::Other
}

/// What went wrong at the path, if it is more than that nothing is there.
pub open spec fn error_at(probes: Seq<Probe>, path: Seq<u8>) -> Option<IoFailure> {
    match probe_at(probes, path) {
        Some(probe) => match probe.entry {
            Ok(_) => None,
            Err(error) => if error.kind == FailureKind::NotFound {
                None
            } else {
                Some(error)
            },
        },
        None => None,
    }
}

/// What identifies the file at a path: its canonical path, if there is one.
pub open spec fn key_of(path: Seq<u8>, canonical: Option<FilePath>) -> Seq<u8> {
    match canonical {
        Some(found) => found@,
        None => path,
    }
}

/// What identifies what was found at a path.
pub open spec fn key_at(probes: Seq<Probe>, path: Seq<u8>) -> Seq<u8> {
    match probe_at(probes, path) {
        Some(probe) => key_of(path, probe.canonical),
        None => path,
    }
}

/// The first thing that went wrong.
pub open spec fn first_error(probes: Seq<Probe>, places: Seq<Seq<u8>>) -> Option<IoFailure>
    decreases places.len(),
{
    if places.len() == 0 {
        None
    } else {
        match error_at(probes, places[0]) {
            Some(error) => Some(error),
            None => first_error(probes, places.skip(1)),
        }
    }
}

/// One of the first `n` places has the file with this key.
pub open spec fn is_known(
    probes: Seq<Probe>,
    places: Seq<Seq<u8>>,
    n: int,
    key: Seq<u8>,
) -> bool {
    exists|i: int|
        0 <= i < n && is_hit(probes, #[trigger] places[i]) && filepath::same_path(
            key_at(probes, places[i]),
            key,
        )
}

/// Those of the first `n` places that have a file which no place before them has.
pub open spec fn kept(probes: Seq<Probe>, places: Seq<Seq<u8>>, n: int) -> Seq<Seq<u8>>
    decreases n,
{
    if n <= 0 {
        Seq::empty()
    } else {
        let before = kept(probes, places, n - 1);
        let place = places[n - 1];
        if is_hit(probes, place) && !is_known(probes, places, n - 1, key_at(probes, place)) {
            before.push(place)
        } else {
            before
        }
    }
}

/// Somebody may execute a file with this mode.
pub open spec fn has_execute_bit(mode: u32) -> bool {
    mode / 64 % 2 == 1 || mode / 8 % 2 == 1 || mode % 2 == 1
}

/// A file that somebody may execute.
pub open spec fn runs(target: Option<FileMode>) -> bool {
    target matches Some(file) && file.is_file && has_execute_bit(file.mode)
}

/// The match is what was found at the place.
pub open spec fn is_match(found: PathMatch, probes: Seq<Probe>, place: Seq<u8>) -> bool {
    &&& probe_at(probes, place) matches Some(probe)
    &&& found.path@ == place
    &&& found.executable == runs(probe.target)
    &&& filepath::path_views(found.symlink_chain@) == chain_from(
        place,
        probe.links@,
        MAX_LINKS as int,
    )
}

/// The matches are what was found at the places.
pub open spec fn are_matches(
    found: Seq<PathMatch>,
    probes: Seq<Probe>,
    places: Seq<Seq<u8>>,
) -> bool {
    &&& found.len() == places.len()
    &&& forall|i: int| 0 <= i < found.len() ==> is_match(#[trigger] found[i], probes, places[i])
}

/// The outcome of a search at these places.
pub open spec fn is_search(
    r: Result<Vec<PathMatch>, IoFailure>,
    probes: Seq<Probe>,
    places: Seq<Seq<u8>>,
) -> bool {
    match first_error(probes, places) {
        Some(error) => r == Err::<Vec<PathMatch>, IoFailure>(error),
        None => r matches Ok(found) && are_matches(
            found@,
            probes,
            kept(probes, places, places.len() as int),
        ),
    }
}

/// What identifies the file at a path.
pub fn dedup_key(path: &FilePath, canonical: &Option<FilePath>) -> (r: FilePath)
    ensures
        r@ == key_of(path@, *canonical),
{
    match canonical {
        Some(found) => found.clone(),
        None => path.clone(),
    }
}

/// Whether somebody may execute a file with this mode.
pub fn is_executable(mode: u32) -> (r: bool)
    ensures
        r == has_execute_bit(mode),
{
    assert((mode & 0o111 != 0) == (mode / 64 % 2 == 1 || mode / 8 % 2 == 1 || mode % 2 == 1))
        by (bit_vector);
    mode & 0o111 != 0
}

fn find_probe<'a>(probes: &'a Vec<Probe>, path: &FilePath) -> (r: Option<&'a Probe>)
    ensures
        match r {
            Some(probe) => probe_at(probes@, path@) == Some(*probe),
            None => probe_at(probes@, path@) is None,
        },
{
    let mut i: usize = 0;
    assert(probes@.skip(0) =~= probes@);
    while i < probes.len()
        invariant
            i <= probes@.len(),
            probe_at(probes@.skip(i as int), path@) == probe_at(probes@, path@),
        decreases probes@.len() - i,
    {
        proof {
            assert(probes@.skip(i as int)[0] == probes@[i as int]);
            assert(probes@.skip(i as int).skip(1) =~= probes@.skip(i + 1));
        }
        if probes[i].path.same(path) {
            return Some(&probes[i]);
        }
        i += 1;
    }
    None
}

/// One of the paths is the path, as paths are compared.
pub open spec fn has_path(list: Seq<FilePath>, path: Seq<u8>) -> bool {
    exists|k: int| 0 <= k < list.len() && filepath::same_path((#[trigger] list[k])@, path)
}

fn holds_path(list: &Vec<FilePath>, path: &FilePath) -> (r: bool)
    ensures
        r == has_path(list@, path@),
{
    let mut i: usize = 0;
    while i < list.len()
        invariant
            i <= list@.len(),
            forall|k: int|
                0 <= k < i ==> !filepath::same_path((#[trigger] list@[k])@, path@),
        decreases list@.len() - i,
    {
        if list[i].leads_as(path) {
            return true;
        }
        i += 1;
    }
    false
}

/// A list with one more path has what it had, and that path.
proof fn lemma_has_path_push(list: Seq<FilePath>, last: FilePath, path: Seq<u8>)
    ensures
        has_path(list.push(last), path) <==> has_path(list, path) || filepath::same_path(
            last@,
            path,
        ),
{
    let more = list.push(last);
    assert(more[list.len() as int] == last);
    if has_path(list, path) {
        let k = choose|k: int|
            0 <= k < list.len() && filepath::same_path((#[trigger] list[k])@, path);
        assert(more[k] == list[k]);
    }
    if has_path(more, path) {
        let k = choose|k: int|
            0 <= k < more.len() && filepath::same_path((#[trigger] more[k])@, path);
        if k < list.len() {
            assert(list[k] == more[k]);
        }
    }
}

/// A list that has a path has it in each of its spellings.
proof fn lemma_has_path_same(list: Seq<FilePath>, path: Seq<u8>, other: Seq<u8>)
    requires
        has_path(list, path),
    ensures
        filepath::same_path(path, other) ==> has_path(list, other),
{
    let k = choose|k: int| 0 <= k < list.len() && filepath::same_path((#[trigger] list[k])@, path);
    assert(filepath::same_path(list[k]@, path));
}

fn match_at(place: &FilePath, probe: &Probe) -> (r: PathMatch)
    ensures
        r.path@ == place@,
        r.executable == runs(probe.target),
        filepath::path_views(r.symlink_chain@) == chain_from(
            place@,
            probe.links@,
            MAX_LINKS as int,
        ),
{
    let executable: bool = match &probe.target {
        Some(file) => file.is_file && is_executable(file.mode),
        None => false,
    };
    let symlink_chain = resolve_symlink_chain(place, &probe.links);
    PathMatch { path: place.clone(), executable, symlink_chain }
}

/// Looks for a file at each of the places. A file that several places have is found at the
/// first of them only.
fn search(places: &Vec<FilePath>, probes: &Vec<Probe>) -> (r: Result<Vec<PathMatch>, IoFailure>)
    ensures
        is_search(r, probes@, filepath::path_views(places@)),
{
    let ghost all = filepath::path_views(places@);
    let mut found: Vec<PathMatch> = Vec::new();
    let mut seen: Vec<FilePath> = Vec::new();
    let mut i: usize = 0;
    assert(all.skip(0) =~= all);
    while i < places.len()
        invariant
            i <= places@.len(),
            all == filepath::path_views(places@),
            first_error(probes@, all.skip(i as int)) == first_error(probes@, all),
            forall|key: Seq<u8>| #[trigger]
                has_path(seen@, key) <==> is_known(probes@, all, i as int, key),
            are_matches(found@, probes@, kept(probes@, all, i as int)),
        decreases places@.len() - i,
    {
        let place = &places[i];
        let ghost before = seen@;
        let ghost hit = is_hit(probes@, place@);
        let ghost key = key_at(probes@, place@);
        proof {
            assert(all[i as int] == place@);
            assert(all.skip(i as int)[0] == place@);
            assert(all.skip(i as int).skip(1) =~= all.skip(i + 1));
            assert forall|k: Seq<u8>|
                is_known(probes@, all, i + 1, k) <==> is_known(probes@, all, i as int, k) || (hit
                    && filepath::same_path(key, k)) by {
                if is_known(probes@, all, i as int, k) {
                    let j = choose|j: int|
                        0 <= j < i && is_hit(probes@, #[trigger] all[j]) && filepath::same_path(
                            key_at(probes@, all[j]),
                            k,
                        );
                    assert(is_hit(probes@, all[j]));
                }
            }
        }
        match find_probe(probes, place) {
            Some(probe) => match &probe.entry {
                Ok(kind) => if *kind != EntryKind::Other {
                    let own = dedup_key(place, &probe.canonical);
                    assert(own@ == key);
                    if !holds_path(&seen, &own) {
                        let ghost older = found@;
                        let ghost places_before = kept(probes@, all, i as int);
                        found.push(match_at(place, probe));
                        seen.push(own);
                        proof {
                            assert forall|k: Seq<u8>| #[trigger]
                                has_path(seen@, k) <==> is_known(probes@, all, i + 1, k) by {
                                lemma_has_path_push(before, own, k);
                            }
                            assert(kept(probes@, all, i + 1) =~= places_before.push(place@));
                            assert(is_match(found@[older.len() as int], probes@, place@));
                        }
                    } else {
                        proof {
                            assert forall|k: Seq<u8>| #[trigger]
                                has_path(seen@, k) <==> is_known(probes@, all, i + 1, k) by {
                                lemma_has_path_same(before, key, k);
                            }
                        }
                    }
                },
                Err(error) => match error.kind {
                    FailureKind::NotFound => {},
                    _ => return Err(error.clone()),
                },
            },
            None => {},
        }
        i += 1;
    }
    assert(all.skip(i as int).len() == 0);
    Ok(found)
}

/// Finds a command on the search path, from what was found at its places. A place that
/// nothing was found at is passed over.
pub fn find_in_path(command: &str, path_env: &Option<FilePath>, probes: &Vec<Probe>) -> (r: Result<
    Vec<PathMatch>,
    IoFailure,
>)
    ensures
        is_search(r, probes@, places(opt_path(*path_env), command@)),
{
    let places = command_places(command, path_env);
    search(&places, probes)
}

/// One of the places that are kept has the file with this key.
pub open spec fn is_kept(
    probes: Seq<Probe>,
    places: Seq<Seq<u8>>,
    n: int,
    key: Seq<u8>,
) -> bool {
    exists|i: int|
        0 <= i < kept(probes, places, n).len() && filepath::same_path(
            key_at(probes, #[trigger] kept(probes, places, n)[i]),
            key,
        )
}

/// What is known of the first places is known of one more.
proof fn lemma_still_known(probes: Seq<Probe>, places: Seq<Seq<u8>>, n: int, key: Seq<u8>)
    requires
        n > 0,
        is_known(probes, places, n - 1, key),
    ensures
        is_known(probes, places, n, key),
{
    let j = choose|j: int|
        0 <= j < n - 1 && is_hit(probes, #[trigger] places[j]) && filepath::same_path(
            key_at(probes, places[j]),
            key,
        );
    assert(is_hit(probes, places[j]));
}

/// What is kept of the first places is kept of one more.
proof fn lemma_still_kept(probes: Seq<Probe>, places: Seq<Seq<u8>>, n: int, key: Seq<u8>)
    requires
        n > 0,
        is_kept(probes, places, n - 1, key),
    ensures
        is_kept(probes, places, n, key),
{
    let before = kept(probes, places, n - 1);
    let k = choose|k: int|
        0 <= k < before.len() && filepath::same_path(key_at(probes, #[trigger] before[k]), key);
    assert(kept(probes, places, n)[k] == before[k]);
}

/// A place with a file has its file among the places that are kept.
proof fn lemma_hit_is_kept(probes: Seq<Probe>, places: Seq<Seq<u8>>, n: int, i: int)
    requires
        0 <= i < n <= places.len(),
        is_hit(probes, places[i]),
    ensures
        is_kept(probes, places, n, key_at(probes, places[i])),
    decreases n,
{
    let key = key_at(probes, places[i]);
    if i < n - 1 {
        lemma_hit_is_kept(probes, places, n - 1, i);
        lemma_still_kept(probes, places, n, key);
    } else if is_known(probes, places, i, key) {
        let j = choose|j: int|
            0 <= j < i && is_hit(probes, #[trigger] places[j]) && filepath::same_path(
                key_at(probes, places[j]),
                key,
            );
        lemma_hit_is_kept(probes, places, n - 1, j);
        lemma_still_kept(probes, places, n, key_at(probes, places[j]));
    } else {
        let before = kept(probes, places, n - 1);
        assert(kept(probes, places, n)[before.len() as int] == places[i]);
    }
}

/// A place that is kept has a file that is known.
proof fn lemma_kept_is_known(probes: Seq<Probe>, places: Seq<Seq<u8>>, n: int, k: int)
    requires
        0 <= n <= places.len(),
        0 <= k < kept(probes, places, n).len(),
    ensures
        is_hit(probes, kept(probes, places, n)[k]),
        is_known(probes, places, n, key_at(probes, kept(probes, places, n)[k])),
    decreases n,
{
    let before = kept(probes, places, n - 1);
    let place = kept(probes, places, n)[k];
    if k < before.len() {
        lemma_kept_is_known(probes, places, n - 1, k);
        lemma_still_known(probes, places, n, key_at(probes, place));
    } else {
        assert(place == places[n - 1]);
        assert(is_hit(probes, places[n - 1]));
    }
}

/// A file that is known is known by each spelling of its key.
proof fn lemma_known_same(
    probes: Seq<Probe>,
    places: Seq<Seq<u8>>,
    n: int,
    key: Seq<u8>,
    other: Seq<u8>,
)
    requires
        is_known(probes, places, n, key),
        filepath::same_path(key, other),
    ensures
        is_known(probes, places, n, other),
{
    let j = choose|j: int|
        0 <= j < n && is_hit(probes, #[trigger] places[j]) && filepath::same_path(
            key_at(probes, places[j]),
            key,
        );
    assert(is_hit(probes, places[j]));
}

/// Two places that are kept have different files.
proof fn lemma_kept_differ(probes: Seq<Probe>, places: Seq<Seq<u8>>, n: int, i: int, j: int)
    requires
        0 <= n <= places.len(),
        0 <= i < j < kept(probes, places, n).len(),
    ensures
        !filepath::same_path(
            key_at(probes, kept(probes, places, n)[i]),
            key_at(probes, kept(probes, places, n)[j]),
        ),
    decreases n,
{
    let before = kept(probes, places, n - 1);
    let now = kept(probes, places, n);
    assert(now[i] == before[i]);
    if j < before.len() {
        assert(now[j] == before[j]);
        lemma_kept_differ(probes, places, n - 1, i, j);
    } else {
        let key = key_at(probes, before[i]);
        lemma_kept_is_known(probes, places, n - 1, i);
        if filepath::same_path(key, key_at(probes, now[j])) {
            lemma_known_same(probes, places, n - 1, key, key_at(probes, now[j]));
        }
    }
}

/// Each file on the search path is found once: every place with a file has its file among
/// the matches, every match has a file, and no two matches have the same one, however their
/// paths are spelled.
pub proof fn lemma_each_file_once(probes: Seq<Probe>, places: Seq<Seq<u8>>, n: int)
    requires
        0 <= n <= places.len(),
    ensures
        forall|i: int|
            0 <= i < n && is_hit(probes, #[trigger] places[i]) ==> is_kept(
                probes,
                places,
                n,
                key_at(probes, places[i]),
            ),
        forall|i: int|
            0 <= i < kept(probes, places, n).len() ==> is_hit(
                probes,
                #[trigger] kept(probes, places, n)[i],
            ),
        forall|i: int|
            0 <= i < kept(probes, places, n).len() ==> is_known(
                probes,
                places,
                n,
                key_at(probes, #[trigger] kept(probes, places, n)[i]),
            ),
        forall|i: int, j: int|
            0 <= i < j < kept(probes, places, n).len() ==> !filepath::same_path(
                key_at(probes, #[trigger] kept(probes, places, n)[i]),
                key_at(probes, #[trigger] kept(probes, places, n)[j]),
            ),
{
    let now = kept(probes, places, n);
    assert forall|i: int| 0 <= i < n && is_hit(probes, #[trigger] places[i]) implies is_kept(
        probes,
        places,
        n,
        key_at(probes, places[i]),
    ) by {
        lemma_hit_is_kept(probes, places, n, i);
    }
    assert forall|i: int| 0 <= i < now.len() implies is_hit(probes, #[trigger] now[i])
        && is_known(probes, places, n, key_at(probes, now[i])) by {
        lemma_kept_is_known(probes, places, n, i);
    }
    assert forall|i: int, j: int| 0 <= i < j < now.len() implies !filepath::same_path(
        key_at(probes, #[trigger] now[i]),
        key_at(probes, #[trigger] now[j]),
    ) by {
        lemma_kept_differ(probes, places, n, i, j);
    }
}

/// A place whose file no place before it has is kept: of several spellings the first stays.
pub proof fn lemma_first_spelling_is_kept(
    probes: Seq<Probe>,
    places: Seq<Seq<u8>>,
    n: int,
    i: int,
)
    requires
        0 <= i < n <= places.len(),
        is_hit(probes, places[i]),
        !is_known(probes, places, i, key_at(probes, places[i])),
    ensures
        kept(probes, places, n).contains(places[i]),
    decreases n,
{
    let now = kept(probes, places, n);
    let before = kept(probes, places, n - 1);
    if i == n - 1 {
        assert(now[before.len() as int] == places[i]);
    } else {
        lemma_first_spelling_is_kept(probes, places, n - 1, i);
        let k = choose|k: int| 0 <= k < before.len() && before[k] == places[i];
        assert(now[k] == places[i]);
    }
}

} // verus!
