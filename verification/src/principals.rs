//! The paths recorded for each sandbox principal, kept in the order of the SIDs.

use crate::text::comes_before;
use crate::text::text_less;
use crate::text::text_order_is_strict_and_total;
use vstd::prelude::*;

verus! {

/// A file system path as the sequence of its UTF-16 code units.
pub type WidePath = Vec<u16>;

/// The paths that a list of wide paths stands for.
pub open spec fn paths_view(paths: Seq<WidePath>) -> Seq<Seq<u16>> {
    paths.map_values(|path: WidePath| path@)
}

/// A copy of a list of paths.
pub fn clone_paths(paths: &Vec<WidePath>) -> (copy: Vec<WidePath>)
    ensures
        paths_view(copy@) == paths_view(paths@),
{
    let mut copy: Vec<WidePath> = Vec::new();
    let mut i: usize = 0;
    while i < paths.len()
        invariant
            i <= paths@.len(),
            copy@.len() == i,
            forall|j: int| 0 <= j < i ==> (#[trigger] copy@[j])@ == paths@[j]@,
        decreases paths@.len() - i,
    {
        let path = paths[i].clone();
        assert(path@ =~= paths@[i as int]@);
        copy.push(path);
        i = i + 1;
    }
    assert(paths_view(copy@) =~= paths_view(paths@));
    copy
}

/// One principal with the paths recorded for it.
#[derive(Debug, PartialEq, Eq)]
pub struct PrincipalEntry {
    pub principal_sid: String,
    pub paths: Vec<WidePath>,
}

/// Entries stand in strictly ascending order of their SIDs, so no SID occurs twice.
pub open spec fn entries_ordered(entries: Seq<PrincipalEntry>) -> bool {
    forall|i: int, j: int|
        #![trigger entries[i], entries[j]]
        0 <= i < j < entries.len() ==> text_less(
            entries[i].principal_sid@,
            entries[j].principal_sid@,
        )
}

/// Entry `i` belongs to the principal.
pub open spec fn entry_is_for(entries: Seq<PrincipalEntry>, i: int, sid: Seq<char>) -> bool {
    0 <= i < entries.len() && entries[i].principal_sid@ == sid
}

/// What a list of entries records: the paths of each SID that occurs.
pub open spec fn entries_view(entries: Seq<PrincipalEntry>) -> Map<Seq<char>, Seq<Seq<u16>>> {
    Map::new(
        |sid: Seq<char>| exists|i: int| entry_is_for(entries, i, sid),
        |sid: Seq<char>| paths_view(entries[choose|i: int| entry_is_for(entries, i, sid)].paths@),
    )
}

/// In an ordered list an entry alone decides what is recorded for its SID.
proof fn entry_is_recorded(entries: Seq<PrincipalEntry>, i: int)
    requires
        entries_ordered(entries),
        0 <= i < entries.len(),
    ensures
        entries_view(entries).dom().contains(entries[i].principal_sid@),
        entries_view(entries)[entries[i].principal_sid@] == paths_view(entries[i].paths@),
{
    let sid = entries[i].principal_sid@;
    assert(entry_is_for(entries, i, sid));
    let k = choose|k: int| entry_is_for(entries, k, sid);
    text_order_is_strict_and_total(sid, sid, sid);
    if k < i {
        assert(text_less(entries[k].principal_sid@, entries[i].principal_sid@));
    } else if i < k {
        assert(text_less(entries[i].principal_sid@, entries[k].principal_sid@));
    }
}

/// An ordered list records as many principals as it has entries.
proof fn entries_count(entries: Seq<PrincipalEntry>)
    requires
        entries_ordered(entries),
    ensures
        entries_view(entries).dom().finite(),
        entries_view(entries).len() == entries.len(),
    decreases entries.len(),
{
    let m = entries_view(entries);
    if entries.len() == 0 {
        assert(m.dom() =~= Set::empty());
    } else {
        let rest = entries.drop_last();
        let sid = entries.last().principal_sid@;
        entries_count(rest);
        assert forall|s: Seq<char>| m.dom().contains(s) == entries_view(rest).dom().insert(
            sid,
        ).contains(s) by {
            if m.dom().contains(s) {
                let i = choose|i: int| entry_is_for(entries, i, s);
                assert(i < rest.len() ==> entry_is_for(rest, i, s));
            }
            if entries_view(rest).dom().contains(s) {
                let i = choose|i: int| entry_is_for(rest, i, s);
                assert(entry_is_for(entries, i, s));
            }
            assert(entry_is_for(entries, entries.len() - 1, sid));
        }
        assert(m.dom() =~= entries_view(rest).dom().insert(sid));
        if entries_view(rest).dom().contains(sid) {
            let i = choose|i: int| entry_is_for(rest, i, sid);
            assert(text_less(entries[i].principal_sid@, entries[entries.len() - 1].principal_sid@));
            text_order_is_strict_and_total(sid, sid, sid);
        }
    }
}

/// A map from principal SIDs to the paths recorded for them.
#[derive(Debug, PartialEq, Eq)]
pub struct PrincipalMap {
    entries: Vec<PrincipalEntry>,
}

impl View for PrincipalMap {
    type V = Map<Seq<char>, Seq<Seq<u16>>>;

    closed spec fn view(&self) -> Map<Seq<char>, Seq<Seq<u16>>> {
        entries_view(self.entries@)
    }
}

impl PrincipalMap {
    #[verifier::type_invariant]
    spec fn ordered(&self) -> bool {
        entries_ordered(self.entries@)
    }

    /// The map that records nothing.
    pub fn new() -> (map: PrincipalMap)
        ensures
            map@ == Map::<Seq<char>, Seq<Seq<u16>>>::empty(),
    {
        let map = PrincipalMap { entries: Vec::new() };
        assert(map@ =~= Map::<Seq<char>, Seq<Seq<u16>>>::empty());
        map
    }

    /// The entries in ascending order of the SIDs.
    pub fn entries(&self) -> (entries: &Vec<PrincipalEntry>)
        ensures
            entries_ordered(entries@),
            entries_view(entries@) == self@,
    {
        proof {
            use_type_invariant(self);
        }
        &self.entries
    }

    /// The number of principals.
    pub fn len(&self) -> (len: usize)
        ensures
            self@.dom().finite(),
            len == self@.len(),
    {
        proof {
            use_type_invariant(self);
            entries_count(self.entries@);
        }
        self.entries.len()
    }

    /// The first position whose SID does not come before `sid`, and whether it
    /// holds `sid` itself.
    fn position(entries: &Vec<PrincipalEntry>, sid: &String) -> (found: (usize, bool))
        requires
            entries_ordered(entries@),
        ensures
            found.0 <= entries@.len(),
            forall|i: int|
                0 <= i < found.0 ==> text_less((#[trigger] entries@[i]).principal_sid@, sid@),
            found.1 ==> found.0 < entries@.len() && entries@[found.0 as int].principal_sid@ == sid@,
            !found.1 ==> forall|i: int|
                found.0 <= i < entries@.len() ==> text_less(
                    sid@,
                    (#[trigger] entries@[i]).principal_sid@,
                ),
    {
        let mut i: usize = 0;
        while i < entries.len() && comes_before(&entries[i].principal_sid, sid)
            invariant
                i <= entries@.len(),
                forall|k: int|
                    0 <= k < i ==> text_less((#[trigger] entries@[k]).principal_sid@, sid@),
            decreases entries@.len() - i,
        {
            i = i + 1;
        }
        if i < entries.len() {
            let same = entries[i].principal_sid == *sid;
            proof {
                if !same {
                    let here = entries@[i as int].principal_sid@;
                    text_order_is_strict_and_total(here, sid@, sid@);
                    assert(text_less(sid@, here));
                    assert forall|k: int| i <= k < entries@.len() implies text_less(
                        sid@,
                        (#[trigger] entries@[k]).principal_sid@,
                    ) by {
                        if k > i {
                            text_order_is_strict_and_total(
                                sid@,
                                here,
                                entries@[k].principal_sid@,
                            );
                        }
                    }
                }
            }
            (i, same)
        } else {
            (i, false)
        }
    }

    /// The paths recorded for a principal.
    pub fn get(&self, sid: &String) -> (paths: Option<&Vec<WidePath>>)
        ensures
            paths is Some == self@.dom().contains(sid@),
            paths is Some ==> paths_view(paths->0@) == self@[sid@],
    {
        proof {
            use_type_invariant(self);
        }
        let (at, present) = Self::position(&self.entries, sid);
        if present {
            proof {
                entry_is_recorded(self.entries@, at as int);
            }
            Some(&self.entries[at].paths)
        } else {
            proof {
                absent_sid_is_not_recorded(self.entries@, at as int, sid@);
            }
            None
        }
    }

    /// Records paths for a principal and hands back what was recorded for it before.
    pub fn insert(&mut self, sid: String, paths: Vec<WidePath>) -> (previous: Option<Vec<WidePath>>)
        ensures
            final(self)@ == old(self)@.insert(sid@, paths_view(paths@)),
            previous is Some == old(self)@.dom().contains(sid@),
            previous is Some ==> paths_view(previous->0@) == old(self)@[sid@],
    {
        let previous = self.remove(&sid);
        proof {
            use_type_invariant(&*self);
        }
        let mut entries: Vec<PrincipalEntry> = Vec::new();
        std::mem::swap(&mut entries, &mut self.entries);
        let ghost before = entries@;
        let (at, present) = Self::position(&entries, &sid);
        proof {
            if present {
                entry_is_recorded(before, at as int);
            }
        }
        let ghost key = sid@;
        let entry = PrincipalEntry { principal_sid: sid, paths };
        entries.insert(at, entry);
        proof {
            inserted_entry_is_recorded(before, at as int, entry);
        }
        self.entries = entries;
        assert(self@ =~= old(self)@.insert(key, paths_view(paths@)));
        previous
    }

    /// Forgets a principal and hands back what was recorded for it.
    pub fn remove(&mut self, sid: &String) -> (previous: Option<Vec<WidePath>>)
        ensures
            final(self)@ == old(self)@.remove(sid@),
            previous is Some == old(self)@.dom().contains(sid@),
            previous is Some ==> paths_view(previous->0@) == old(self)@[sid@],
    {
        proof {
            use_type_invariant(&*self);
        }
        let mut entries: Vec<PrincipalEntry> = Vec::new();
        std::mem::swap(&mut entries, &mut self.entries);
        let ghost before = entries@;
        let (at, present) = Self::position(&entries, sid);
        if present {
            let entry = entries.remove(at);
            proof {
                entry_is_recorded(before, at as int);
                removed_entry_is_forgotten(before, at as int);
            }
            self.entries = entries;
            Some(entry.paths)
        } else {
            proof {
                absent_sid_is_not_recorded(before, at as int, sid@);
            }
            self.entries = entries;
            assert(self@ =~= old(self)@.remove(sid@));
            None
        }
    }
}

/// A SID that lies strictly between two neighbouring entries is not recorded.
proof fn absent_sid_is_not_recorded(entries: Seq<PrincipalEntry>, at: int, sid: Seq<char>)
    requires
        0 <= at <= entries.len(),
        forall|i: int| 0 <= i < at ==> text_less((#[trigger] entries[i]).principal_sid@, sid),
        forall|i: int|
            at <= i < entries.len() ==> text_less(sid, (#[trigger] entries[i]).principal_sid@),
    ensures
        !entries_view(entries).dom().contains(sid),
{
    text_order_is_strict_and_total(sid, sid, sid);
    if exists|i: int| entry_is_for(entries, i, sid) {
        let i = choose|i: int| entry_is_for(entries, i, sid);
        assert(entries[i].principal_sid@ == sid);
    }
}

/// Inserting an entry at its place keeps the order and records its paths.
proof fn inserted_entry_is_recorded(entries: Seq<PrincipalEntry>, at: int, entry: PrincipalEntry)
    requires
        entries_ordered(entries),
        0 <= at <= entries.len(),
        forall|i: int|
            0 <= i < at ==> text_less(
                (#[trigger] entries[i]).principal_sid@,
                entry.principal_sid@,
            ),
        forall|i: int|
            at <= i < entries.len() ==> text_less(
                entry.principal_sid@,
                (#[trigger] entries[i]).principal_sid@,
            ),
    ensures
        entries_ordered(entries.insert(at, entry)),
        entries_view(entries.insert(at, entry)) == entries_view(entries).insert(
            entry.principal_sid@,
            paths_view(entry.paths@),
        ),
{
    let after = entries.insert(at, entry);
    let sid = entry.principal_sid@;
    assert forall|i: int, j: int|
        #![trigger after[i], after[j]]
        0 <= i < j < after.len() implies text_less(
        after[i].principal_sid@,
        after[j].principal_sid@,
    ) by {
        let oi = if i < at { i } else { i - 1 };
        let oj = if j < at { j } else { j - 1 };
        if i != at {
            assert(after[i] == entries[oi]);
        }
        if j != at {
            assert(after[j] == entries[oj]);
        }
    }
    let expected = entries_view(entries).insert(sid, paths_view(entry.paths@));
    assert forall|s: Seq<char>| #[trigger]
        entries_view(after).dom().contains(s) == expected.dom().contains(s) by {
        if entries_view(after).dom().contains(s) {
            let i = choose|i: int| entry_is_for(after, i, s);
            if i != at {
                let oi = if i < at { i } else { i - 1 };
                assert(entry_is_for(entries, oi, s));
            }
        }
        if s == sid {
            assert(entry_is_for(after, at, s));
        } else if entries_view(entries).dom().contains(s) {
            let i = choose|i: int| entry_is_for(entries, i, s);
            let ni = if i < at { i } else { i + 1 };
            assert(entry_is_for(after, ni, s));
        }
    }
    assert forall|s: Seq<char>| entries_view(after).dom().contains(s) implies #[trigger]
        entries_view(after)[s] == expected[s] by {
        let i = choose|i: int| entry_is_for(after, i, s);
        entry_is_recorded(after, i);
        if s == sid {
            entry_is_recorded(after, at);
        } else {
            let oi = if i < at { i } else { i - 1 };
            assert(entries[oi] == after[i]);
            entry_is_recorded(entries, oi);
        }
    }
    assert(entries_view(after) =~= expected);
}

/// Taking an entry out keeps the order and forgets its SID.
proof fn removed_entry_is_forgotten(entries: Seq<PrincipalEntry>, at: int)
    requires
        entries_ordered(entries),
        0 <= at < entries.len(),
    ensures
        entries_ordered(entries.remove(at)),
        entries_view(entries.remove(at)) == entries_view(entries).remove(
            entries[at].principal_sid@,
        ),
{
    let after = entries.remove(at);
    let sid = entries[at].principal_sid@;
    assert forall|i: int, j: int|
        #![trigger after[i], after[j]]
        0 <= i < j < after.len() implies text_less(
        after[i].principal_sid@,
        after[j].principal_sid@,
    ) by {
        let oi = if i < at { i } else { i + 1 };
        let oj = if j < at { j } else { j + 1 };
        assert(after[i] == entries[oi]);
        assert(after[j] == entries[oj]);
    }
    let expected = entries_view(entries).remove(sid);
    text_order_is_strict_and_total(sid, sid, sid);
    assert forall|s: Seq<char>| #[trigger]
        entries_view(after).dom().contains(s) == expected.dom().contains(s) by {
        if entries_view(after).dom().contains(s) {
            let i = choose|i: int| entry_is_for(after, i, s);
            let oi = if i < at { i } else { i + 1 };
            assert(entries[oi] == after[i]);
            assert(entry_is_for(entries, oi, s));
            assert(entries[at].principal_sid@ == sid);
        }
        if expected.dom().contains(s) {
            let i = choose|i: int| entry_is_for(entries, i, s);
            let ni = if i < at { i } else { i - 1 };
            assert(entry_is_for(after, ni, s));
        }
    }
    assert forall|s: Seq<char>| entries_view(after).dom().contains(s) implies #[trigger]
        entries_view(after)[s] == expected[s] by {
        let i = choose|i: int| entry_is_for(after, i, s);
        let oi = if i < at { i } else { i + 1 };
        assert(entries[oi] == after[i]);
        entry_is_recorded(after, i);
        entry_is_recorded(entries, oi);
    }
    assert(entries_view(after) =~= expected);
}

/// A list of paths is seen path by path, each as its UTF-16 units, in order.
pub proof fn law_paths_are_seen_as_they_are(paths: Seq<WidePath>)
    ensures
        paths_view(paths).len() == paths.len(),
        forall|i: int| 0 <= i < paths.len() ==> #[trigger] paths_view(paths)[i] == paths[i]@,
{
}

/// Entries are in order exactly where each SID precedes all that follow it.
pub proof fn law_entries_are_ordered_by_sid(entries: Seq<PrincipalEntry>)
    ensures
        entries_ordered(entries) <==> forall|i: int, j: int|
            #![trigger entries[i], entries[j]]
            0 <= i < j < entries.len() ==> text_less(
                entries[i].principal_sid@,
                entries[j].principal_sid@,
            ),
{
}

/// Ordered entries record exactly what they hold: each SID with the paths of its entry,
/// all of them and in order, and no other SID.
pub proof fn law_entries_record_what_they_hold(entries: Seq<PrincipalEntry>)
    requires
        entries_ordered(entries),
    ensures
        forall|i: int|
            0 <= i < entries.len() ==> {
                let sid = (#[trigger] entries[i]).principal_sid@;
                let paths = entries[i].paths@;
                &&& entries_view(entries).dom().contains(sid)
                &&& entries_view(entries)[sid].len() == paths.len()
                &&& forall|j: int|
                    0 <= j < paths.len() ==> #[trigger] entries_view(entries)[sid][j] == paths[j]@
            },
        forall|sid: Seq<char>| #[trigger]
            entries_view(entries).dom().contains(sid) ==> exists|i: int|
                0 <= i < entries.len() && (#[trigger] entries[i]).principal_sid@ == sid,
{
    assert forall|i: int| 0 <= i < entries.len() implies {
        let sid = (#[trigger] entries[i]).principal_sid@;
        let paths = entries[i].paths@;
        &&& entries_view(entries).dom().contains(sid)
        &&& entries_view(entries)[sid].len() == paths.len()
        &&& forall|j: int|
            0 <= j < paths.len() ==> #[trigger] entries_view(entries)[sid][j] == paths[j]@
    } by {
        entry_is_recorded(entries, i);
    }
    assert forall|sid: Seq<char>| #[trigger]
        entries_view(entries).dom().contains(sid) implies exists|i: int|
        0 <= i < entries.len() && (#[trigger] entries[i]).principal_sid@ == sid by {
        let i = choose|i: int| entry_is_for(entries, i, sid);
        assert(entries[i].principal_sid@ == sid);
    }
}

} // verus!
