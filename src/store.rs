//! The entry store: the append-only history of signed entries, found by
//! author, log id and sequence number.
use vstd::prelude::*;
use crate::bamboo::yamf_hash_of;
use crate::bytes::bytes_eq;

verus! {

/// One stored entry with the message it carries.
pub struct StoredEntry {
    pub author: Vec<u8>,
    pub log_id: u64,
    pub seq_num: u64,
    pub entry_bytes: Vec<u8>,
    pub entry_hash: Vec<u8>,
    pub message_bytes: Vec<u8>,
}

impl StoredEntry {
    pub open spec fn in_log(&self, author: Seq<u8>, log_id: u64) -> bool {
        self.author@ == author && self.log_id == log_id
    }

    pub open spec fn is_at(&self, author: Seq<u8>, log_id: u64, seq_num: u64) -> bool {
        self.in_log(author, log_id) && self.seq_num == seq_num
    }
}

pub open spec fn deref(r: Option<&StoredEntry>) -> Option<StoredEntry> {
    match r {
        Some(e) => Some(*e),
        None => None,
    }
}

/// Stored entries, at most one for each position of a log.
pub struct EntryStore {
    pub entries: Vec<StoredEntry>,
}

impl EntryStore {
    /// Positions are unique, each sequence number is positive and has a
    /// successor, and every entry past the first has its predecessor in its
    /// log: a log holds no gaps. Each stored hash is the hash of the stored
    /// entry bytes.
    pub open spec fn wf(&self) -> bool {
        &&& forall|i: int, j: int|
            0 <= i < j < self.entries@.len() ==> !#[trigger] self.entries@[i].is_at(
                self.entries@[j].author@,
                self.entries@[j].log_id,
                #[trigger] self.entries@[j].seq_num,
            )
        &&& forall|i: int|
            0 <= i < self.entries@.len() ==> 1 <= #[trigger] self.entries@[i].seq_num < u64::MAX && (
            self.entries@[i].seq_num > 1 ==> self.has_entry(
                self.entries@[i].author@,
                self.entries@[i].log_id,
                (self.entries@[i].seq_num - 1) as u64,
            )) && self.entries@[i].entry_hash@ == yamf_hash_of(self.entries@[i].entry_bytes@)
    }

    pub open spec fn has_entry(&self, author: Seq<u8>, log_id: u64, seq_num: u64) -> bool {
        exists|i: int| 0 <= i < self.entries@.len() && #[trigger] self.entries@[i].is_at(author, log_id, seq_num)
    }

    /// The entry at a position of a log.
    pub open spec fn entry_at(&self, author: Seq<u8>, log_id: u64, seq_num: u64) -> Option<StoredEntry> {
        if self.has_entry(author, log_id, seq_num) {
            let i = choose|i: int| 0 <= i < self.entries@.len() && #[trigger] self.entries@[i].is_at(author, log_id, seq_num);
            Some(self.entries@[i])
        } else {
            None
        }
    }

    pub open spec fn is_latest(&self, i: int, author: Seq<u8>, log_id: u64) -> bool {
        &&& 0 <= i < self.entries@.len()
        &&& self.entries@[i].in_log(author, log_id)
        &&& forall|j: int| 0 <= j < self.entries@.len() && #[trigger] self.entries@[j].in_log(author, log_id)
            ==> self.entries@[j].seq_num <= self.entries@[i].seq_num
    }

    /// The entry of a log with the highest sequence number.
    pub open spec fn latest_of(&self, author: Seq<u8>, log_id: u64) -> Option<StoredEntry> {
        if exists|i: int| self.is_latest(i, author, log_id) {
            let i = choose|i: int| self.is_latest(i, author, log_id);
            Some(self.entries@[i])
        } else {
            None
        }
    }

    /// An empty store.
    pub fn new() -> (r: Self)
        ensures
            r.wf(),
            r.entries@.len() == 0,
    {
        EntryStore { entries: Vec::new() }
    }

    /// The entry stored at `seq_num` of the log `log_id` of `author`.
    pub fn at_seq_num(&self, author: &Vec<u8>, log_id: u64, seq_num: u64) -> (r: Option<&StoredEntry>)
        requires
            self.wf(),
        ensures
            deref(r) == self.entry_at(author@, log_id, seq_num),
    {
        let mut i: usize = 0;
        while i < self.entries.len()
            invariant
                self.wf(),
                0 <= i <= self.entries@.len(),
                forall|j: int| 0 <= j < i ==> !#[trigger] self.entries@[j].is_at(author@, log_id, seq_num),
            decreases self.entries@.len() - i,
        {
            let e = &self.entries[i];
            if e.log_id == log_id && e.seq_num == seq_num && bytes_eq(&e.author, author) {
                proof {
                    let ii = i as int;
                    assert(self.entries@[ii].is_at(author@, log_id, seq_num));
                    let k = choose|k: int| 0 <= k < self.entries@.len() && #[trigger] self.entries@[k].is_at(author@, log_id, seq_num);
                    if k < ii {
                        assert(!self.entries@[k].is_at(self.entries@[ii].author@, self.entries@[ii].log_id, self.entries@[ii].seq_num));
                    } else if k > ii {
                        assert(!self.entries@[ii].is_at(self.entries@[k].author@, self.entries@[k].log_id, self.entries@[k].seq_num));
                    }
                }
                return Some(e);
            }
            i = i + 1;
        }
        None
    }

    /// The latest entry of the log `log_id` of `author`.
    pub fn latest(&self, author: &Vec<u8>, log_id: u64) -> (r: Option<&StoredEntry>)
        requires
            self.wf(),
        ensures
            deref(r) == self.latest_of(author@, log_id),
            r matches Some(e) ==> e.in_log(author@, log_id),
            r is None ==> forall|j: int| 0 <= j < self.entries@.len() ==> !#[trigger] self.entries@[j].in_log(author@, log_id),
    {
        let mut best: Option<usize> = None;
        let mut i: usize = 0;
        while i < self.entries.len()
            invariant
                self.wf(),
                0 <= i <= self.entries@.len(),
                best matches Some(b) ==> b < i && self.entries@[b as int].in_log(author@, log_id)
                    && forall|j: int| 0 <= j < i && #[trigger] self.entries@[j].in_log(author@, log_id)
                        ==> self.entries@[j].seq_num <= self.entries@[b as int].seq_num,
                best is None ==> forall|j: int| 0 <= j < i ==> !#[trigger] self.entries@[j].in_log(author@, log_id),
            decreases self.entries@.len() - i,
        {
            let e = &self.entries[i];
            if e.log_id == log_id && bytes_eq(&e.author, author) {
                match best {
                    Some(b) => {
                        if self.entries[b].seq_num < e.seq_num {
                            best = Some(i);
                        }
                    },
                    None => {
                        best = Some(i);
                    },
                }
            }
            i = i + 1;
        }
        match best {
            Some(b) => {
                proof {
                    let bb = b as int;
                    assert(self.is_latest(bb, author@, log_id));
                    let k = choose|k: int| self.is_latest(k, author@, log_id);
                    assert(self.entries@[k].seq_num == self.entries@[bb].seq_num);
                    if k < bb {
                        assert(!self.entries@[k].is_at(self.entries@[bb].author@, self.entries@[bb].log_id, self.entries@[bb].seq_num));
                    } else if k > bb {
                        assert(!self.entries@[bb].is_at(self.entries@[k].author@, self.entries@[k].log_id, self.entries@[k].seq_num));
                    }
                }
                Some(&self.entries[b])
            },
            None => {
                proof {
                    assert forall|k: int| !self.is_latest(k, author@, log_id) by {
                        if 0 <= k < self.entries@.len() {
                            assert(!self.entries@[k].in_log(author@, log_id));
                        }
                    }
                }
                None
            },
        }
    }

    /// Appends an entry at a free position of its log.
    pub fn insert(&mut self, entry: StoredEntry)
        requires
            old(self).wf(),
            !old(self).has_entry(entry.author@, entry.log_id, entry.seq_num),
            1 <= entry.seq_num < u64::MAX,
            entry.seq_num > 1 ==> old(self).has_entry(entry.author@, entry.log_id, (entry.seq_num - 1) as u64),
            entry.entry_hash@ == yamf_hash_of(entry.entry_bytes@),
        ensures
            final(self).wf(),
            final(self).entries@ == old(self).entries@.push(entry),
            final(self).latest_of(entry.author@, entry.log_id) == Some(entry),
    {
        let ghost before = self.entries@;
        let ghost e = entry;
        self.entries.push(entry);
        proof {
            let n = before.len() as int;
            assert forall|i: int, j: int|
                0 <= i < j < self.entries@.len() implies !#[trigger] self.entries@[i].is_at(
                    self.entries@[j].author@,
                    self.entries@[j].log_id,
                    #[trigger] self.entries@[j].seq_num,
                ) by {
                if j == n {
                    assert(!before[i].is_at(e.author@, e.log_id, e.seq_num));
                } else {
                    assert(self.entries@[i] == before[i] && self.entries@[j] == before[j]);
                }
            }
            let after = *self;
            assert forall|a: Seq<u8>, l: u64, m: u64| #[trigger] old(self).has_entry(a, l, m) implies after.has_entry(a, l, m) by {
                let k = choose|k: int| 0 <= k < before.len() && #[trigger] before[k].is_at(a, l, m);
                assert(after.entries@[k] == before[k]);
            }
            assert(after.entries@[n] == e);
            assert forall|i: int| 0 <= i < after.entries@.len() implies 1 <= #[trigger] after.entries@[i].seq_num < u64::MAX && (
                after.entries@[i].seq_num > 1 ==> after.has_entry(
                    after.entries@[i].author@,
                    after.entries@[i].log_id,
                    (after.entries@[i].seq_num - 1) as u64,
                )) && after.entries@[i].entry_hash@ == yamf_hash_of(after.entries@[i].entry_bytes@) by {
                if i < n {
                    assert(after.entries@[i] == before[i]);
                    assert(old(self).entries@[i] == before[i]);
                }
            }
            assert(after.wf());
            assert forall|j: int| 0 <= j < after.entries@.len() && #[trigger] after.entries@[j].in_log(e.author@, e.log_id)
                implies after.entries@[j].seq_num <= e.seq_num by {
                if j < n && after.entries@[j].seq_num > e.seq_num {
                    assert(old(self).entries@[j] == before[j]);
                    lemma_log_has_no_gaps(*old(self), j, e.seq_num);
                }
            }
            assert(after.is_latest(n, e.author@, e.log_id));
            let k = choose|k: int| after.is_latest(k, e.author@, e.log_id);
            assert(after.entries@[k].seq_num == e.seq_num);
            if k < n {
                assert(!after.entries@[k].is_at(e.author@, e.log_id, e.seq_num));
            }
        }
    }
}

/// In a store without gaps, a log that holds an entry at `m` holds one at
/// every position from one to `m`.
pub proof fn lemma_log_has_no_gaps(store: EntryStore, i: int, k: u64)
    requires
        store.wf(),
        0 <= i < store.entries@.len(),
        1 <= k <= store.entries@[i].seq_num,
    ensures
        store.has_entry(store.entries@[i].author@, store.entries@[i].log_id, k),
    decreases store.entries@[i].seq_num - k,
{
    let e = store.entries@[i];
    if k == e.seq_num {
        assert(store.entries@[i].is_at(e.author@, e.log_id, k));
    } else {
        let p = (e.seq_num - 1) as u64;
        assert(store.has_entry(e.author@, e.log_id, p));
        let j = choose|j: int| 0 <= j < store.entries@.len() && #[trigger] store.entries@[j].is_at(e.author@, e.log_id, p);
        lemma_log_has_no_gaps(store, j, k);
    }
}

} // verus!
