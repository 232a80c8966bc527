//! The insertion-ordered map from owner name to that owner's records, used
//! for the answer, authority and additional sections.  Order matters: wire
//! position decides which earlier name a compression pointer may reference,
//! and record order within a section is meaningful.

use vstd::prelude::*;

use crate::names::bytes_eq;
use crate::record::{ResourceRecord, ResourceRecordV};

verus! {

/// An insertion-ordered map from owner name to records.
#[derive(Debug, Clone, PartialEq)]
pub struct OwnerMap {
    pub entries: Vec<(Vec<u8>, Vec<ResourceRecord>)>,
}

impl View for OwnerMap {
    type V = Seq<(Seq<u8>, Seq<ResourceRecordV>)>;

    open spec fn view(&self) -> Seq<(Seq<u8>, Seq<ResourceRecordV>)> {
        Seq::new(
            self.entries@.len(),
            |i: int|
                (
                    self.entries@[i].0@,
                    Seq::new(
                        self.entries@[i].1@.len(),
                        |j: int| self.entries@[i].1@[j]@,
                    ),
                ),
        )
    }
}

/// The index of an owner among the entries, or the entry count when the
/// owner is absent.
pub open spec fn spec_owner_index(s: Seq<(Seq<u8>, Seq<ResourceRecordV>)>, owner: Seq<u8>) -> int
    decreases s.len(),
{
    if s.len() == 0 {
        0
    } else if s[0].0 == owner {
        0
    } else {
        1 + spec_owner_index(s.drop_first(), owner)
    }
}

/// What inserting one record does: append to the owner's list when the
/// owner exists, else open a new entry at the end.
pub open spec fn spec_map_insert(
    s: Seq<(Seq<u8>, Seq<ResourceRecordV>)>,
    owner: Seq<u8>,
    rec: ResourceRecordV,
) -> Seq<(Seq<u8>, Seq<ResourceRecordV>)> {
    let i = spec_owner_index(s, owner);
    if i < s.len() {
        s.update(i, (owner, s[i].1.push(rec)))
    } else {
        s.push((owner, seq![rec]))
    }
}

/// The number of records over all owners.
pub open spec fn spec_section_count(s: Seq<(Seq<u8>, Seq<ResourceRecordV>)>) -> int
    decreases s.len(),
{
    if s.len() == 0 {
        0
    } else {
        s[0].1.len() + spec_section_count(s.drop_first())
    }
}

/// The first index with the owner is genuinely the first: everything before
/// it holds other owners, and at it (if within range) the owner itself.
pub proof fn lemma_owner_index(s: Seq<(Seq<u8>, Seq<ResourceRecordV>)>, owner: Seq<u8>)
    ensures
        0 <= spec_owner_index(s, owner) <= s.len(),
        spec_owner_index(s, owner) < s.len() ==> s[spec_owner_index(s, owner)].0 == owner,
        forall|j: int| 0 <= j < spec_owner_index(s, owner) ==> (#[trigger] s[j]).0 != owner,
    decreases s.len(),
{
    if s.len() == 0 {
    } else if s[0].0 == owner {
    } else {
        lemma_owner_index(s.drop_first(), owner);
        assert forall|j: int| 0 <= j < spec_owner_index(s, owner) implies (#[trigger] s[j]).0
            != owner by {
            if j > 0 {
                assert(s.drop_first()[j - 1] == s[j]);
            }
        }
    }
}

impl OwnerMap {
    pub fn new() -> (r: OwnerMap)
        ensures
            r@ == Seq::<(Seq<u8>, Seq<ResourceRecordV>)>::empty(),
    {
        let r = OwnerMap { entries: Vec::new() };
        proof {
            assert(r@ =~~= Seq::<(Seq<u8>, Seq<ResourceRecordV>)>::empty());
        }
        r
    }

    /// The number of distinct owners, in insertion order.
    pub fn len(&self) -> (r: usize)
        ensures
            r == self@.len(),
    {
        self.entries.len()
    }

    /// The number of records over all owners.
    pub fn total_records(&self) -> (r: Option<usize>)
        ensures
            match r {
                Some(c) => c == spec_section_count(self@),
                None => spec_section_count(self@) > usize::MAX,
            },
    {
        let n = self.entries.len();
        let mut i: usize = 0;
        let mut c: usize = 0;
        proof {
            assert(self@.skip(0) =~~= self@);
        }
        while i < n
            invariant
                n == self.entries@.len(),
                0 <= i <= n,
                spec_section_count(self@) == c + spec_section_count(self@.skip(i as int)),
            decreases n - i,
        {
            let ghost s = self@.skip(i as int);
            let k = self.entries[i].1.len();
            proof {
                assert(s[0] == self@[i as int]);
                assert(s.drop_first() =~~= self@.skip(i as int + 1));
            }
            if k > usize::MAX - c {
                proof {
                    lemma_section_count_nonneg(self@.skip(i as int + 1));
                }
                return None;
            }
            c += k;
            i += 1;
        }
        proof {
            assert(self@.skip(n as int).len() == 0);
        }
        Some(c)
    }

    /// Appends a record under its owner name, keeping first-insertion order
    /// of owners.
    pub fn insert(&mut self, owner: &[u8], record: ResourceRecord)
        ensures
            final(self)@ == spec_map_insert(old(self)@, owner@, record@),
    {
        let n = self.entries.len();
        let mut i: usize = 0;
        proof {
            lemma_owner_index(self@, owner@);
        }
        while i < n
            invariant
                n == self.entries@.len(),
                0 <= i <= n,
                self.entries@ == old(self).entries@,
                forall|j: int| 0 <= j < i ==> (#[trigger] self@[j]).0 != owner@,
            decreases n - i,
        {
            if bytes_eq(self.entries[i].0.as_slice(), owner) {
                proof {
                    lemma_owner_index_found(self@, owner@, i as int);
                }
                let mut entry = self.entries.remove(i);
                entry.1.push(record);
                self.entries.insert(i, entry);
                proof {
                    assert(self@ =~~= spec_map_insert(old(self)@, owner@, record@));
                }
                return ;
            }
            i += 1;
        }
        proof {
            lemma_owner_index_missing(self@, owner@);
        }
        let mut recs: Vec<ResourceRecord> = Vec::new();
        recs.push(record);
        self.entries.push((vstd::slice::slice_to_vec(owner), recs));
        proof {
            assert(self@ =~~= spec_map_insert(old(self)@, owner@, record@));
        }
    }

    /// The records of one owner, if any.
    pub fn get(&self, owner: &[u8]) -> (r: Option<&Vec<ResourceRecord>>)
        ensures
            match r {
                Some(v) => {
                    let i = spec_owner_index(self@, owner@);
                    i < self@.len() && Seq::new(v@.len(), |j: int| v@[j]@) == self@[i].1
                },
                None => spec_owner_index(self@, owner@) >= self@.len(),
            },
    {
        let n = self.entries.len();
        let mut i: usize = 0;
        proof {
            lemma_owner_index(self@, owner@);
        }
        while i < n
            invariant
                n == self.entries@.len(),
                0 <= i <= n,
                forall|j: int| 0 <= j < i ==> (#[trigger] self@[j]).0 != owner@,
            decreases n - i,
        {
            if bytes_eq(self.entries[i].0.as_slice(), owner) {
                proof {
                    lemma_owner_index_found(self@, owner@, i as int);
                }
                return Some(&self.entries[i].1);
            }
            i += 1;
        }
        proof {
            lemma_owner_index_missing(self@, owner@);
        }
        None
    }

    /// The entries in insertion order.
    pub fn entries(&self) -> (r: &Vec<(Vec<u8>, Vec<ResourceRecord>)>)
        ensures
            r == &self.entries,
    {
        &self.entries
    }
}

/// A section never holds a negative number of records.
pub proof fn lemma_section_count_nonneg(s: Seq<(Seq<u8>, Seq<ResourceRecordV>)>)
    ensures
        spec_section_count(s) >= 0,
    decreases s.len(),
{
    if s.len() > 0 {
        lemma_section_count_nonneg(s.drop_first());
    }
}

/// If entry `i` holds the owner and none before it does, the owner's index
/// is `i`.
proof fn lemma_owner_index_found(s: Seq<(Seq<u8>, Seq<ResourceRecordV>)>, owner: Seq<u8>, i: int)
    requires
        0 <= i < s.len(),
        s[i].0 == owner,
        forall|j: int| 0 <= j < i ==> (#[trigger] s[j]).0 != owner,
    ensures
        spec_owner_index(s, owner) == i,
{
    lemma_owner_index(s, owner);
    let k = spec_owner_index(s, owner);
    if k < i {
        assert(s[k].0 != owner);
    }
    if k > i {
        assert(s[i].0 != owner);
    }
}

/// If no entry holds the owner, the owner's index is the entry count.
proof fn lemma_owner_index_missing(s: Seq<(Seq<u8>, Seq<ResourceRecordV>)>, owner: Seq<u8>)
    requires
        forall|j: int| 0 <= j < s.len() ==> (#[trigger] s[j]).0 != owner,
    ensures
        spec_owner_index(s, owner) == s.len(),
{
    lemma_owner_index(s, owner);
    if spec_owner_index(s, owner) < s.len() {
        assert(s[spec_owner_index(s, owner)].0 != owner);
    }
}

} // verus!
