//! Evidence: in order, and without repetition.

use crate::holds::{Evidence, FdMode, MmapPerms};
use vstd::prelude::*;

verus! {

/// The place of evidence in the order: descriptors by number and then by mode, behind
/// them mappings by their permissions.
pub open spec fn rank(e: Evidence) -> int {
    match e {
        Evidence::Fd(fd, mode) => (fd + 0x8000_0000) * 4 + (match mode {
            FdMode::Read => 0int,
            FdMode::Write => 1,
            FdMode::ReadWrite => 2,
            FdMode::Unknown => 3,
        }),
        Evidence::Mmap(perms) => 0x4_0000_0000 + (if perms.read {
            8int
        } else {
            0
        }) + (if perms.write {
            4int
        } else {
            0
        }) + (if perms.execute {
            2int
        } else {
            0
        }) + (if perms.private {
            1int
        } else {
            0
        }),
    }
}

fn rank_of(e: Evidence) -> (r: u64)
    ensures
        r == rank(e),
{
    match e {
        Evidence::Fd(fd, mode) => {
            let low: u64 = match mode {
                FdMode::Read => 0,
                FdMode::Write => 1,
                FdMode::ReadWrite => 2,
                FdMode::Unknown => 3,
            };
            ((fd as i64 + 0x8000_0000) as u64) * 4 + low
        },
        Evidence::Mmap(perms) => {
            let read: u64 = if perms.read {
                8
            } else {
                0
            };
            let write: u64 = if perms.write {
                4
            } else {
                0
            };
            let execute: u64 = if perms.execute {
                2
            } else {
                0
            };
            let private: u64 = if perms.private {
                1
            } else {
                0
            };
            0x4_0000_0000 + read + write + execute + private
        },
    }
}

/// Two pieces of evidence at the same place are the same.
pub proof fn lemma_rank_injective(a: Evidence, b: Evidence)
    requires
        rank(a) == rank(b),
    ensures
        a == b,
{
}

/// Each piece of evidence stands before the next one, and none occurs twice.
pub open spec fn is_ordered(evidence: Seq<Evidence>) -> bool {
    forall|i: int, j: int|
        0 <= i < j < evidence.len() ==> rank(#[trigger] evidence[i]) < rank(#[trigger] evidence[j])
}

/// The evidence that descriptors and a mapping give, whatever their order.
pub open spec fn shows(e: Evidence, fds: Seq<(i32, FdMode)>, perms: Option<MmapPerms>) -> bool {
    match e {
        Evidence::Fd(fd, mode) => fds.contains((fd, mode)),
        Evidence::Mmap(p) => perms == Some(p),
    }
}

/// `evidence` lists what descriptors and a mapping give, in order and without repetition.
pub open spec fn is_evidence(
    evidence: Seq<Evidence>,
    fds: Seq<(i32, FdMode)>,
    perms: Option<MmapPerms>,
) -> bool {
    &&& is_ordered(evidence)
    &&& forall|e: Evidence| #[trigger] evidence.contains(e) <==> shows(e, fds, perms)
}

/// Adds a piece of evidence at its place, unless it is there already.
fn add_evidence(list: &mut Vec<Evidence>, item: Evidence)
    requires
        is_ordered(old(list)@),
    ensures
        is_ordered(final(list)@),
        forall|e: Evidence| #[trigger]
            final(list)@.contains(e) <==> old(list)@.contains(e) || e == item,
{
    let key: u64 = rank_of(item);
    let mut at: usize = list.len();
    while at > 0 && rank_of(list[at - 1]) > key
        invariant
            at <= list@.len(),
            list@ == old(list)@,
            is_ordered(list@),
            key == rank(item),
            forall|k: int| at <= k < list@.len() ==> rank(#[trigger] list@[k]) > key,
        decreases at,
    {
        at -= 1;
    }
    if at > 0 && rank_of(list[at - 1]) == key {
        proof {
            lemma_rank_injective(list@[at - 1], item);
            assert(list@.contains(item)) by {
                assert(list@[at - 1] == item);
            }
        }
        return ;
    }
    let ghost before = list@;
    list.insert(at, item);
    proof {
        assert forall|i: int, j: int| 0 <= i < j < list@.len() implies rank(#[trigger] list@[i])
            < rank(#[trigger] list@[j]) by {
            let bi = if i < at {
                i
            } else {
                i - 1
            };
            let bj = if j < at {
                j
            } else {
                j - 1
            };
            if i != at {
                assert(list@[i] == before[bi]);
            }
            if j != at {
                assert(list@[j] == before[bj]);
            }
        }
        assert forall|e: Evidence| #[trigger] list@.contains(e) <==> before.contains(e) || e
            == item by {
            if before.contains(e) {
                let k = choose|k: int| 0 <= k < before.len() && before[k] == e;
                if k < at {
                    assert(list@[k] == e);
                } else {
                    assert(list@[k + 1] == e);
                }
            }
            if e == item {
                assert(list@[at as int] == e);
            }
            if list@.contains(e) {
                let k = choose|k: int| 0 <= k < list@.len() && list@[k] == e;
                if k < at {
                    assert(before[k] == e);
                } else if k > at {
                    assert(before[k - 1] == e);
                }
            }
        }
    }
}

/// The evidence that descriptors and a mapping give.
pub fn order_evidence(fds: &Vec<(i32, FdMode)>, perms: Option<MmapPerms>) -> (r: Vec<Evidence>)
    ensures
        is_evidence(r@, fds@, perms),
{
    let mut list: Vec<Evidence> = Vec::new();
    let mut i: usize = 0;
    while i < fds.len()
        invariant
            i <= fds@.len(),
            is_evidence(list@, fds@.take(i as int), None),
        decreases fds@.len() - i,
    {
        let (fd, mode) = fds[i];
        let ghost before = list@;
        add_evidence(&mut list, Evidence::Fd(fd, mode));
        proof {
            let prefix = fds@.take(i as int);
            let next = fds@.take(i + 1);
            assert(next =~= prefix.push((fd, mode)));
            assert forall|e: Evidence| #[trigger] list@.contains(e) <==> shows(e, next, None) by {
                assert(list@.contains(e) <==> before.contains(e) || e == Evidence::Fd(fd, mode));
                if let Evidence::Fd(f, m) = e {
                    if prefix.contains((f, m)) {
                        let k = choose|k: int| 0 <= k < prefix.len() && prefix[k] == (f, m);
                        assert(next[k] == (f, m));
                    }
                    if next.contains((f, m)) {
                        let k = choose|k: int| 0 <= k < next.len() && next[k] == (f, m);
                        if k < i {
                            assert(prefix[k] == (f, m));
                        }
                    }
                    if e == Evidence::Fd(fd, mode) {
                        assert(next[i as int] == (f, m));
                    }
                }
            }
        }
        i += 1;
    }
    assert(fds@.take(i as int) =~= fds@);
    if let Some(p) = perms {
        let ghost before = list@;
        add_evidence(&mut list, Evidence::Mmap(p));
        proof {
            assert forall|e: Evidence| #[trigger] list@.contains(e) <==> shows(
                e,
                fds@,
                perms,
            ) by {
                assert(list@.contains(e) <==> before.contains(e) || e == Evidence::Mmap(p));
                assert(before.contains(e) <==> shows(e, fds@, None));
            }
        }
    }
    list
}

/// Descriptors and a mapping give one list of evidence: it is fixed by what was seen.
pub proof fn lemma_evidence_unique(
    a: Seq<Evidence>,
    b: Seq<Evidence>,
    fds: Seq<(i32, FdMode)>,
    perms: Option<MmapPerms>,
)
    requires
        is_evidence(a, fds, perms),
        is_evidence(b, fds, perms),
    ensures
        a == b,
{
    assert forall|e: Evidence| a.contains(e) <==> b.contains(e) by {
        assert(a.contains(e) <==> shows(e, fds, perms));
        assert(b.contains(e) <==> shows(e, fds, perms));
    }
    lemma_ordered_unique(a, b);
}

proof fn lemma_ordered_unique(a: Seq<Evidence>, b: Seq<Evidence>)
    requires
        is_ordered(a),
        is_ordered(b),
        forall|e: Evidence| a.contains(e) <==> b.contains(e),
    ensures
        a == b,
    decreases a.len(),
{
    if a.len() == 0 {
        if b.len() > 0 {
            assert(b.contains(b[0]));
            assert(a.contains(b[0]));
        }
        assert(a =~= b);
    } else {
        let x = a.last();
        assert(a.contains(x));
        assert(b.contains(x));
        let y = b.last();
        assert(b.contains(y));
        assert(a.contains(y));
        let i = choose|i: int| 0 <= i < b.len() && b[i] == x;
        let j = choose|j: int| 0 <= j < a.len() && a[j] == y;
        if i < b.len() - 1 {
            assert(rank(b[i]) < rank(b[b.len() - 1]));
            if j < a.len() - 1 {
                assert(rank(a[j]) < rank(a[a.len() - 1]));
            }
        }
        assert(x == y);
        assert forall|e: Evidence| a.drop_last().contains(e) <==> b.drop_last().contains(e) by {
            if a.drop_last().contains(e) {
                let k = choose|k: int| 0 <= k < a.drop_last().len() && a.drop_last()[k] == e;
                assert(a[k] == e);
                assert(a.contains(e));
                assert(rank(a[k]) < rank(a[a.len() - 1]));
                let m = choose|m: int| 0 <= m < b.len() && b[m] == e;
                assert(b.drop_last()[m] == e);
            }
            if b.drop_last().contains(e) {
                let k = choose|k: int| 0 <= k < b.drop_last().len() && b.drop_last()[k] == e;
                assert(b[k] == e);
                assert(b.contains(e));
                assert(rank(b[k]) < rank(b[b.len() - 1]));
                let m = choose|m: int| 0 <= m < a.len() && a[m] == e;
                assert(a.drop_last()[m] == e);
            }
        }
        lemma_ordered_unique(a.drop_last(), b.drop_last());
        assert(a =~= a.drop_last().push(x));
        assert(b =~= b.drop_last().push(y));
    }
}

/// Lists with the same elements show the same.
pub proof fn lemma_same_evidence(
    evidence: Seq<Evidence>,
    a: Seq<(i32, FdMode)>,
    b: Seq<(i32, FdMode)>,
    perms: Option<MmapPerms>,
)
    requires
        a.to_multiset() == b.to_multiset(),
        is_evidence(evidence, a, perms),
    ensures
        is_evidence(evidence, b, perms),
{
    broadcast use vstd::seq_lib::group_to_multiset_ensures;

    assert forall|e: Evidence| #[trigger] evidence.contains(e) <==> shows(e, b, perms) by {
        if let Evidence::Fd(fd, mode) = e {
            assert(a.contains((fd, mode)) <==> a.to_multiset().count((fd, mode)) > 0);
            assert(b.contains((fd, mode)) <==> b.to_multiset().count((fd, mode)) > 0);
        }
    }
}

/// A copy of a list of evidence.
pub fn copy_evidence(evidence: &Vec<Evidence>) -> (r: Vec<Evidence>)
    ensures
        r@ == evidence@,
{
    let mut copy: Vec<Evidence> = Vec::new();
    let mut i: usize = 0;
    while i < evidence.len()
        invariant
            i <= evidence@.len(),
            copy@ == evidence@.take(i as int),
        decreases evidence@.len() - i,
    {
        copy.push(evidence[i]);
        assert(evidence@.take(i + 1) =~= evidence@.take(i as int).push(evidence@[i as int]));
        i += 1;
    }
    assert(evidence@.take(i as int) =~= evidence@);
    copy
}

} // verus!
