//! What the guard of the state directory is for: the directory is where it was asked to be,
//! and never in a directory of the system or in a credential store.

use crate::bytes;
use crate::filepath;
use crate::filepath::FilePath;
use crate::pathguard;
use crate::pathguard::OnDisk;
use crate::text;
use vstd::prelude::*;
use vstd::utf8;

verus! {

/// A name that is neither `.` nor `..`.
pub open spec fn is_ordinary(name: Seq<u8>) -> bool {
    &&& name.len() > 0
    &&& name != seq![0x2eu8]
    &&& name != seq![0x2eu8, 0x2eu8]
    &&& !name.contains(0x2fu8)
}

/// All of the names are ordinary.
pub open spec fn all_ordinary(names: Seq<Seq<u8>>) -> bool {
    forall|i: int| 0 <= i < names.len() ==> is_ordinary(#[trigger] names[i])
}

/// A name is kept when a path is normalized, and `..` takes away the name before it; above the
/// first there is nothing.
pub proof fn lemma_normalizing(names: Seq<Seq<u8>>, name: Seq<u8>)
    ensures
        pathguard::resolved(Seq::<Seq<u8>>::empty()).len() == 0,
        name != seq![0x2eu8, 0x2eu8] ==> pathguard::resolved(names.push(name))
            == pathguard::resolved(names).push(name),
        name == seq![0x2eu8, 0x2eu8] ==> pathguard::resolved(names.push(name)) == if pathguard::resolved(
            names,
        ).len() > 0 {
            pathguard::resolved(names).drop_last()
        } else {
            Seq::empty()
        },
{
    assert(names.push(name).drop_last() =~= names);
    assert(names.push(name).last() == name);
    if pathguard::resolved(names).len() == 0 {
        assert(pathguard::resolved(names) =~= Seq::<Seq<u8>>::empty());
    }
}

proof fn lemma_ordinary_stay(names: Seq<Seq<u8>>)
    requires
        all_ordinary(names),
    ensures
        pathguard::resolved(names) == names,
    decreases names.len(),
{
    if names.len() > 0 {
        let rest = names.drop_last();
        assert forall|i: int| 0 <= i < rest.len() implies is_ordinary(#[trigger] rest[i]) by {
            assert(rest[i] == names[i]);
        }
        lemma_ordinary_stay(rest);
        assert(is_ordinary(names[names.len() - 1]));
        assert(rest.push(names.last()) =~= names);
    } else {
        assert(pathguard::resolved(names) =~= names);
    }
}

/// A path of ordinary names, written with one slash before each, is normal as it is.
pub proof fn lemma_ordinary_paths_are_normal(names: Seq<Seq<u8>>)
    requires
        all_ordinary(names),
        names.len() > 0,
        filepath::names(seq![0x2fu8] + text::join(names, seq![0x2fu8])) == names,
    ensures
        pathguard::normalized(seq![0x2fu8] + text::join(names, seq![0x2fu8])) == Some(
            seq![0x2fu8] + text::join(names, seq![0x2fu8]),
        ),
{
    lemma_ordinary_stay(names);
}

/// A path lies in a directory exactly where it has the names of the directory before its own.
pub proof fn lemma_inside(path: Seq<u8>, dir: Seq<u8>)
    requires
        all_ordinary(filepath::names(path)),
        all_ordinary(filepath::names(dir)),
        filepath::is_rooted(path),
        filepath::is_rooted(dir),
    ensures
        pathguard::lies_in(path, dir) == (filepath::names(dir).len() <= filepath::names(path).len()
            && filepath::names(path).take(filepath::names(dir).len() as int) == filepath::names(
            dir,
        )),
{
    lemma_ordinary_stay(filepath::names(path));
    lemma_ordinary_stay(filepath::names(dir));
    let n = filepath::names(dir).len() as int;
    if filepath::names(dir).is_prefix_of(filepath::names(path)) {
        assert(filepath::names(path).take(n) =~= filepath::names(dir));
    }
}

/// The text of a directory of the system.
pub open spec fn names_system(dir: Seq<char>) -> bool {
    ||| dir == "/etc"@
    ||| dir == "/usr"@
    ||| dir == "/var"@
    ||| dir == "/bin"@
    ||| dir == "/sbin"@
    ||| dir == "/lib"@
    ||| dir == "/lib64"@
    ||| dir == "/boot"@
    ||| dir == "/root"@
    ||| dir == "/proc"@
    ||| dir == "/sys"@
    ||| dir == "/dev"@
}

/// The text of a credential store, as seen from the home directory.
pub open spec fn names_store(sub: Seq<char>) -> bool {
    ||| sub == ".ssh"@
    ||| sub == ".gnupg"@
    ||| sub == ".kwallet"@
    ||| sub == ".local/share/keyrings"@
}

/// The directories of the system are protected, with all that lies in them, for every user.
pub proof fn lemma_system_is_closed(dir: Seq<char>, tail: Seq<u8>, home: Option<FilePath>)
    requires
        names_system(dir),
    ensures
        pathguard::dangerous(utf8::encode_utf8(dir), home),
        pathguard::dangerous(utf8::encode_utf8(dir) + seq![0x2fu8] + tail, home),
{
    let d = utf8::encode_utf8(dir);
    pathguard::lemma_system_is_protected(d, tail, home);
    assert(d + seq![0x2fu8] + tail =~= d.push(0x2f) + tail);
}

/// The credential stores of a user are protected, with all that lies in them, however the home
/// directory is written.
pub proof fn lemma_stores_are_closed(home: FilePath, sub: Seq<char>, path: Seq<u8>)
    requires
        names_store(sub),
        home@.len() > 0,
        filepath::is_rooted(path) == filepath::is_rooted(home@),
        (pathguard::resolved(filepath::names(home@)) + filepath::names(
            utf8::encode_utf8(sub),
        )).is_prefix_of(pathguard::resolved(filepath::names(path))),
    ensures
        pathguard::dangerous(path, Some(home)),
{
    pathguard::lemma_credentials_are_protected(home, utf8::encode_utf8(sub), path);
}

proof fn lemma_one_name(dir: Seq<char>, name: Seq<char>)
    requires
        dir == seq!['/'] + name,
        utf8::is_ascii_chars(name),
        name.len() > 2,
        forall|i: int| 0 <= i < name.len() ==> #[trigger] name[i] != '/',
    ensures
        filepath::is_rooted(utf8::encode_utf8(dir)),
        filepath::names(utf8::encode_utf8(dir)) == seq![utf8::encode_utf8(name)],
        is_ordinary(utf8::encode_utf8(name)),
{
    assert forall|i: int| 0 <= i < dir.len() implies 0 <= #[trigger] dir[i] as u32 <= 127 by {
        if i > 0 {
            assert(dir[i] == name[i - 1]);
        }
    }
    assert(utf8::is_ascii_chars(dir));
    utf8::is_ascii_chars_encode_utf8(dir);
    utf8::is_ascii_chars_encode_utf8(name);
    let d = utf8::encode_utf8(dir);
    let b = utf8::encode_utf8(name);
    assert(d =~= dir.map_values(|c: char| c as u8));
    assert(b =~= name.map_values(|c: char| c as u8));
    let none = Seq::<u8>::empty();
    assert(d =~= none.push(0x2f) + b);
    assert(!b.contains(0x2fu8)) by {
        if b.contains(0x2fu8) {
            let i = choose|i: int| 0 <= i < b.len() && b[i] == 0x2f;
            assert(b[i] == name[i] as u8);
            assert(name[i] != '/');
        }
    }
    crate::laws::text::lemma_split_first(none, 0x2fu8, b);
    crate::laws::text::lemma_split_first(b, 0x2fu8, none);
    assert(text::split(d, 0x2fu8) =~= seq![none, b]);
    let naming = filepath::naming();
    crate::order::lemma_filter_one(none, naming);
    crate::order::lemma_filter_one(b, naming);
    Seq::filter_distributes_over_add(seq![none], seq![b], naming);
    assert(seq![none] + seq![b] =~= seq![none, b]);
    assert(filepath::names(d) =~= seq![b]);
}

proof fn lemma_not_in(path: Seq<u8>, dir: Seq<char>, name: Seq<char>)
    requires
        dir == seq!['/'] + name,
        utf8::is_ascii_chars(name),
        name.len() > 2,
        forall|i: int| 0 <= i < name.len() ==> #[trigger] name[i] != '/',
        filepath::is_rooted(path),
        all_ordinary(filepath::names(path)),
        filepath::names(path).len() == 0 || filepath::names(path)[0] != utf8::encode_utf8(name),
    ensures
        !pathguard::lies_in(path, utf8::encode_utf8(dir)),
{
    lemma_one_name(dir, name);
    let d = utf8::encode_utf8(dir);
    lemma_inside(path, d);
    if pathguard::lies_in(path, d) {
        assert(filepath::names(path).take(1)[0] == filepath::names(path)[0]);
    }
}

/// A path whose first name is none of those of the system lies in no directory of the system,
/// so that without a home directory it is not protected.
pub proof fn lemma_other_places_are_free(path: Seq<u8>)
    requires
        filepath::is_rooted(path),
        all_ordinary(filepath::names(path)),
        filepath::names(path).len() > 0,
        ({
            let first = filepath::names(path)[0];
            &&& first != utf8::encode_utf8("etc"@)
            &&& first != utf8::encode_utf8("usr"@)
            &&& first != utf8::encode_utf8("var"@)
            &&& first != utf8::encode_utf8("bin"@)
            &&& first != utf8::encode_utf8("sbin"@)
            &&& first != utf8::encode_utf8("lib"@)
            &&& first != utf8::encode_utf8("lib64"@)
            &&& first != utf8::encode_utf8("boot"@)
            &&& first != utf8::encode_utf8("root"@)
            &&& first != utf8::encode_utf8("proc"@)
            &&& first != utf8::encode_utf8("sys"@)
            &&& first != utf8::encode_utf8("dev"@)
        }),
    ensures
        !pathguard::dangerous(path, None),
        !pathguard::in_system(path),
{
    reveal_strlit("/etc");
    reveal_strlit("etc");
    reveal_strlit("/usr");
    reveal_strlit("usr");
    reveal_strlit("/var");
    reveal_strlit("var");
    reveal_strlit("/bin");
    reveal_strlit("bin");
    reveal_strlit("/sbin");
    reveal_strlit("sbin");
    reveal_strlit("/lib");
    reveal_strlit("lib");
    assert("/etc"@ =~= seq!['/'] + "etc"@);
    assert("/usr"@ =~= seq!['/'] + "usr"@);
    assert("/var"@ =~= seq!['/'] + "var"@);
    assert("/bin"@ =~= seq!['/'] + "bin"@);
    assert("/sbin"@ =~= seq!['/'] + "sbin"@);
    assert("/lib"@ =~= seq!['/'] + "lib"@);
    lemma_not_in(path, "/etc"@, "etc"@);
    lemma_not_in(path, "/usr"@, "usr"@);
    lemma_not_in(path, "/var"@, "var"@);
    lemma_not_in(path, "/bin"@, "bin"@);
    lemma_not_in(path, "/sbin"@, "sbin"@);
    lemma_not_in(path, "/lib"@, "lib"@);
    reveal_strlit("/lib64");
    reveal_strlit("lib64");
    reveal_strlit("/boot");
    reveal_strlit("boot");
    reveal_strlit("/root");
    reveal_strlit("root");
    reveal_strlit("/proc");
    reveal_strlit("proc");
    reveal_strlit("/sys");
    reveal_strlit("sys");
    reveal_strlit("/dev");
    reveal_strlit("dev");
    assert("/lib64"@ =~= seq!['/'] + "lib64"@);
    assert("/boot"@ =~= seq!['/'] + "boot"@);
    assert("/root"@ =~= seq!['/'] + "root"@);
    assert("/proc"@ =~= seq!['/'] + "proc"@);
    assert("/sys"@ =~= seq!['/'] + "sys"@);
    assert("/dev"@ =~= seq!['/'] + "dev"@);
    lemma_not_in(path, "/lib64"@, "lib64"@);
    lemma_not_in(path, "/boot"@, "boot"@);
    lemma_not_in(path, "/root"@, "root"@);
    lemma_not_in(path, "/proc"@, "proc"@);
    lemma_not_in(path, "/sys"@, "sys"@);
    lemma_not_in(path, "/dev"@, "dev"@);
}

/// A home directory protects its four stores and nothing else.
pub proof fn lemma_home_protects_its_stores(path: Seq<u8>, home: FilePath)
    requires
        !pathguard::in_system(path),
        home@.len() > 0,
    ensures
        pathguard::dangerous(path, Some(home)) == (pathguard::lies_in(
            path,
            filepath::joined(home@, utf8::encode_utf8(".ssh"@)),
        ) || pathguard::lies_in(path, filepath::joined(home@, utf8::encode_utf8(".gnupg"@)))
            || pathguard::lies_in(path, filepath::joined(home@, utf8::encode_utf8(".kwallet"@)))
            || pathguard::lies_in(
            path,
            filepath::joined(home@, utf8::encode_utf8(".local/share/keyrings"@)),
        )),
{
}

/// The state directory is asked for in the directory for data, or where that is not set in the
/// usual one of the home directory; without either it cannot be asked for.
pub proof fn lemma_where_it_is_asked_for(data: FilePath, home: FilePath, empty: FilePath)
    requires
        data@.len() > 0,
        home@.len() > 0,
        empty@.len() == 0,
    ensures
        pathguard::base_of(Some(data), None) == Some(data@),
        pathguard::base_of(Some(data), Some(home)) == Some(data@),
        pathguard::base_of(None, Some(home)) == Some(
            filepath::joined(home@, utf8::encode_utf8(".local/share"@)),
        ),
        pathguard::base_of(Some(empty), Some(home)) == Some(
            filepath::joined(home@, utf8::encode_utf8(".local/share"@)),
        ),
        pathguard::base_of(None, None) is None,
        pathguard::base_of(None, Some(empty)) is None,
        pathguard::base_of(Some(empty), Some(empty)) is None,
{
}

/// Without a directory to ask for, that is said.
pub proof fn lemma_home_is_required(xdg: Option<FilePath>, home: Option<FilePath>, disk: OnDisk)
    requires
        xdg matches Some(value) ==> value@.len() == 0,
        home matches Some(value) ==> value@.len() == 0,
    ensures
        pathguard::verdict(xdg, home, disk) == Err::<Seq<u8>, Seq<char>>(
            "HOME is required when XDG_DATA_HOME is not set"@,
        ),
{
}

/// A directory that does not exist yet and that nothing protects is accepted where it was asked
/// for, in its normal form.
pub proof fn lemma_free_place_is_accepted(
    xdg: Option<FilePath>,
    home: Option<FilePath>,
    base: Seq<u8>,
    disk: OnDisk,
)
    requires
        pathguard::base_of(xdg, home) == Some(base),
        disk.home is None,
        disk.directory is None,
        pathguard::normalized(filepath::joined(base, utf8::encode_utf8("zejtron"@))) is Some,
        !pathguard::dangerous(
            pathguard::normalized(filepath::joined(base, utf8::encode_utf8("zejtron"@)))->0,
            home,
        ),
        !pathguard::dangerous(pathguard::normalized(
            filepath::joined(base, utf8::encode_utf8("zejtron"@)),
        )->0, None),
        !pathguard::is_protected(pathguard::allowed(base, disk), home, disk),
    ensures
        pathguard::verdict(xdg, home, disk) == Ok::<Seq<u8>, Seq<char>>(
            pathguard::normalized(filepath::joined(base, utf8::encode_utf8("zejtron"@)))->0,
        ),
{
}

/// A directory that exists is accepted where it is the one with the name of the program in the
/// place that its base resolves to, and is refused where it leads elsewhere.
pub proof fn lemma_resolved_directory(
    xdg: Option<FilePath>,
    home: Option<FilePath>,
    base: Seq<u8>,
    disk: OnDisk,
    found: FilePath,
    place: FilePath,
)
    requires
        pathguard::base_of(xdg, home) == Some(base),
        disk.directory == Some(found),
        disk.base == Some(place),
    ensures
        pathguard::verdict(xdg, home, disk) matches Ok(dir) ==> dir == found@ && found@
            == filepath::joined(place@, utf8::encode_utf8("zejtron"@)) && !pathguard::dangerous(
            found@,
            home,
        ),
        found@ != filepath::joined(place@, utf8::encode_utf8("zejtron"@)) ==> pathguard::verdict(
            xdg,
            home,
            disk,
        ) is Err,
        pathguard::dangerous(found@, home) ==> pathguard::verdict(xdg, home, disk) == Err::<
            Seq<u8>,
            Seq<char>,
        >(
            "zejtron state directory resolves to a protected path (blocked by pathguard): "@
                + bytes::lossy(found@),
        ),
{
}

/// A directory that a home directory protects, as that is written or as it resolves, is refused
/// wherever it was asked for.
pub proof fn lemma_both_homes_protect(
    xdg: Option<FilePath>,
    home: Option<FilePath>,
    base: Seq<u8>,
    disk: OnDisk,
)
    requires
        pathguard::base_of(xdg, home) == Some(base),
    ensures
        disk.directory matches Some(found) ==> (pathguard::dangerous(found@, disk.home)
            || pathguard::dangerous(found@, home) ==> pathguard::verdict(xdg, home, disk) is Err),
        disk.base matches Some(place) ==> (pathguard::dangerous(
            filepath::joined(place@, utf8::encode_utf8("zejtron"@)),
            disk.home,
        ) || pathguard::dangerous(filepath::joined(place@, utf8::encode_utf8("zejtron"@)), home)
            ==> pathguard::verdict(xdg, home, disk) is Err),
        pathguard::normalized(filepath::joined(base, utf8::encode_utf8("zejtron"@))) matches Some(
            written,
        ) ==> (pathguard::dangerous(written, disk.home) || pathguard::dangerous(written, home)
            ==> pathguard::verdict(xdg, home, disk) is Err),
{
}

/// A directory that nothing protects and that leads elsewhere is refused as unexpected, with
/// the place where it leads.
pub proof fn lemma_stray_directory(
    xdg: Option<FilePath>,
    home: Option<FilePath>,
    base: Seq<u8>,
    disk: OnDisk,
    found: FilePath,
)
    requires
        pathguard::base_of(xdg, home) == Some(base),
        disk.directory == Some(found),
        found@ != pathguard::allowed(base, disk),
        !pathguard::is_protected(found@, home, disk),
        !pathguard::is_protected(pathguard::allowed(base, disk), home, disk),
        !pathguard::is_protected(
            pathguard::compared(filepath::joined(base, utf8::encode_utf8("zejtron"@)), None),
            home,
            disk,
        ),
    ensures
        pathguard::verdict(xdg, home, disk) == Err::<Seq<u8>, Seq<char>>(
            "zejtron state directory resolves to an unexpected path (blocked by pathguard): "@
                + bytes::lossy(found@),
        ),
{
}

} // verus!
