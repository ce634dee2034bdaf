//! Interfaces in the order of their names.

use crate::net::InterfaceEntry;
use crate::order;
use crate::text::chars_of;
use vstd::prelude::*;

verus! {

/// The text `a` does not come after the text `b`: they are compared character by character,
/// and a start of a text comes before it.
pub open spec fn precedes(a: Seq<char>, b: Seq<char>) -> bool
    decreases a.len(),
{
    if a.len() == 0 {
        true
    } else if b.len() == 0 {
        false
    } else if a[0] == b[0] {
        precedes(a.skip(1), b.skip(1))
    } else {
        a[0] < b[0]
    }
}

/// Of two texts one does not come after the other.
pub proof fn lemma_precedes_total(a: Seq<char>, b: Seq<char>)
    ensures
        precedes(a, b) || precedes(b, a),
    decreases a.len(),
{
    if a.len() > 0 && b.len() > 0 && a[0] == b[0] {
        lemma_precedes_total(a.skip(1), b.skip(1));
    }
}

/// The order of texts passes on.
pub proof fn lemma_precedes_transitive(a: Seq<char>, b: Seq<char>, c: Seq<char>)
    requires
        precedes(a, b),
        precedes(b, c),
    ensures
        precedes(a, c),
    decreases a.len(),
{
    if a.len() > 0 && a[0] == b[0] && b[0] == c[0] {
        lemma_precedes_transitive(a.skip(1), b.skip(1), c.skip(1));
    }
}

/// Two texts neither of which comes after the other are the same.
pub proof fn lemma_precedes_antisymmetric(a: Seq<char>, b: Seq<char>)
    requires
        precedes(a, b),
        precedes(b, a),
    ensures
        a == b,
    decreases a.len(),
{
    if a.len() > 0 {
        assert(a[0] == b[0]);
        lemma_precedes_antisymmetric(a.skip(1), b.skip(1));
        assert(a =~= seq![a[0]] + a.skip(1));
        assert(b =~= seq![b[0]] + b.skip(1));
    } else {
        assert(a =~= b);
    }
}

/// The predicate "has this name".
pub open spec fn named(name: Seq<char>) -> spec_fn(InterfaceEntry) -> bool {
    |entry: InterfaceEntry| entry.name@ == name
}

/// The interfaces are in the order of their names.
pub open spec fn by_name(entries: Seq<InterfaceEntry>) -> bool {
    forall|i: int, j: int|
        0 <= i < j < entries.len() ==> precedes(
            (#[trigger] entries[i]).name@,
            (#[trigger] entries[j]).name@,
        )
}

/// `sorted` holds what `found` holds, in the order of the names; interfaces with the same
/// name keep their order.
pub open spec fn is_sorted_by_name(
    sorted: Seq<InterfaceEntry>,
    found: Seq<InterfaceEntry>,
) -> bool {
    &&& by_name(sorted)
    &&& forall|name: Seq<char>| #[trigger]
        sorted.filter(named(name)) == found.filter(named(name))
}

fn comes_first(a: &str, b: &str) -> (r: bool)
    ensures
        r == precedes(a@, b@),
{
    let left = chars_of(a);
    let right = chars_of(b);
    let mut i: usize = 0;
    proof {
        assert(a@.skip(0) =~= a@);
        assert(b@.skip(0) =~= b@);
    }
    while i < left.len() && i < right.len() && left[i] == right[i]
        invariant
            i <= left@.len(),
            i <= right@.len(),
            left@ == a@,
            right@ == b@,
            precedes(a@.skip(i as int), b@.skip(i as int)) == precedes(a@, b@),
        decreases left@.len() - i,
    {
        proof {
            assert(a@.skip(i as int)[0] == a@[i as int]);
            assert(b@.skip(i as int)[0] == b@[i as int]);
            assert(a@.skip(i as int).skip(1) =~= a@.skip(i + 1));
            assert(b@.skip(i as int).skip(1) =~= b@.skip(i + 1));
        }
        i += 1;
    }
    if i >= left.len() {
        return true;
    }
    if i >= right.len() {
        return false;
    }
    proof {
        assert(a@.skip(i as int)[0] == a@[i as int]);
        assert(b@.skip(i as int)[0] == b@[i as int]);
    }
    left[i] < right[i]
}

/// Sorts interfaces by their names.
pub fn sort_interfaces(found: Vec<InterfaceEntry>) -> (r: Vec<InterfaceEntry>)
    ensures
        is_sorted_by_name(r@, found@),
{
    let ghost all = found@;
    let mut rest = found;
    let mut sorted: Vec<InterfaceEntry> = Vec::new();
    proof {
        assert(sorted@ =~= all.skip(all.len() as int));
        assert(all.take(all.len() as int) =~= all);
    }
    while rest.len() > 0
        invariant
            rest@.len() <= all.len(),
            rest@ == all.take(rest@.len() as int),
            by_name(sorted@),
            forall|name: Seq<char>| #[trigger]
                sorted@.filter(named(name)) == all.skip(rest@.len() as int).filter(named(name)),
        decreases rest@.len(),
    {
        let item: InterfaceEntry = match rest.pop() {
            Some(item) => item,
            None => return sorted,
        };
        let ghost n = rest@.len() as int;
        proof {
            assert(item == all[n]);
            assert(rest@ =~= all.take(n));
        }
        let mut at: usize = 0;
        while at < sorted.len() && !comes_first(item.name.as_str(), sorted[at].name.as_str())
            invariant
                at <= sorted@.len(),
                by_name(sorted@),
                forall|k: int|
                    0 <= k < at ==> !precedes(item.name@, (#[trigger] sorted@[k]).name@),
            decreases sorted@.len() - at,
        {
            at += 1;
        }
        let ghost older = sorted@;
        proof {
            assert forall|name: Seq<char>| #[trigger]
                older.insert(at as int, item).filter(named(name)) == all.skip(n).filter(
                    named(name),
                ) by {
                let keep = named(name);
                if keep(item) {
                    assert forall|k: int| 0 <= k < at implies !keep(#[trigger] older[k]) by {
                        assert(!precedes(item.name@, older[k].name@));
                        lemma_precedes_total(item.name@, item.name@);
                    }
                }
                order::lemma_insert_first(older, at as int, item, keep);
                let later = all.skip(n + 1);
                assert(all.skip(n) =~= later.insert(0, item));
                order::lemma_insert_first(later, 0, item, keep);
                assert(older.filter(keep) == later.filter(keep));
            }
        }
        sorted.insert(at, item);
        proof {
            assert forall|i: int, j: int| 0 <= i < j < sorted@.len() implies precedes(
                (#[trigger] sorted@[i]).name@,
                (#[trigger] sorted@[j]).name@,
            ) by {
                if i != at {
                    assert(sorted@[i] == older[if i < at {
                        i
                    } else {
                        i - 1
                    }]);
                }
                if j != at {
                    assert(sorted@[j] == older[if j < at {
                        j
                    } else {
                        j - 1
                    }]);
                }
                if j == at {
                    lemma_precedes_total(item.name@, sorted@[i].name@);
                }
                if i == at && j > at + 1 {
                    lemma_precedes_transitive(item.name@, older[at as int].name@, sorted@[j].name@);
                }
            }
        }
    }
    assert(all.skip(0) =~= all);
    sorted
}

} // verus!
