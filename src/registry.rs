//! The log registry: which log id an author uses for a schema, first write
//! wins.
use vstd::prelude::*;
use crate::bytes::{bytes_eq, copy_bytes};

verus! {

/// One registered claim: `author` writes the entries of `schema` into the
/// log `log_id`.
pub struct LogRecord {
    pub author: Vec<u8>,
    pub schema: Vec<u8>,
    pub log_id: u64,
}

/// Why a claim was not registered.
#[derive(Debug, PartialEq, Eq, Structural)]
pub enum RegistryError {
    /// Another log id is already registered for the author and schema.
    DuplicateLogClaim,
}

/// The claims made so far, at most one for each author and schema.
pub struct LogRegistry {
    pub records: Vec<LogRecord>,
}

impl LogRecord {
    pub open spec fn is_key(&self, author: Seq<u8>, schema: Seq<u8>) -> bool {
        self.author@ == author && self.schema@ == schema
    }
}

impl LogRegistry {
    /// No two claims for the same author and schema.
    pub open spec fn wf(&self) -> bool {
        forall|i: int, j: int|
            0 <= i < j < self.records@.len() ==> !#[trigger] self.records@[i].is_key(
                self.records@[j].author@,
                #[trigger] self.records@[j].schema@,
            )
    }

    pub open spec fn has_log(&self, author: Seq<u8>, schema: Seq<u8>) -> bool {
        exists|i: int| 0 <= i < self.records@.len() && #[trigger] self.records@[i].is_key(author, schema)
    }

    /// The log id registered for an author and schema, if any.
    pub open spec fn log_of(&self, author: Seq<u8>, schema: Seq<u8>) -> Option<u64> {
        if self.has_log(author, schema) {
            let i = choose|i: int| 0 <= i < self.records@.len() && #[trigger] self.records@[i].is_key(author, schema);
            Some(self.records@[i].log_id)
        } else {
            None
        }
    }

    /// The log id to suggest for a new log of `author`: one above the
    /// highest id the author has claimed, or one when it has claimed none;
    /// `None` when that id would not fit.
    pub open spec fn next_log_id(&self, author: Seq<u8>) -> Option<u64> {
        if exists|i: int| 0 <= i < self.records@.len() && #[trigger] self.records@[i].author@ == author
            && self.records@[i].log_id == u64::MAX {
            None
        } else {
            Some(choose|l: u64| self.is_next_log_id(author, l))
        }
    }

    pub open spec fn is_next_log_id(&self, author: Seq<u8>, l: u64) -> bool {
        &&& forall|i: int| 0 <= i < self.records@.len() && #[trigger] self.records@[i].author@ == author
            ==> self.records@[i].log_id < l
        &&& (l == 1 && forall|i: int| 0 <= i < self.records@.len() ==> #[trigger] self.records@[i].author@ != author)
            || exists|i: int| 0 <= i < self.records@.len() && #[trigger] self.records@[i].author@ == author
                && self.records@[i].log_id == l - 1
    }

    /// The log id to suggest for a new log of `author`.
    pub fn suggest_log_id(&self, author: &Vec<u8>) -> (r: Option<u64>)
        ensures
            r == self.next_log_id(author@),
    {
        let mut max: Option<u64> = None;
        let mut i: usize = 0;
        while i < self.records.len()
            invariant
                0 <= i <= self.records@.len(),
                max is None ==> forall|j: int| 0 <= j < i ==> #[trigger] self.records@[j].author@ != author@,
                max matches Some(m) ==> (exists|j: int| 0 <= j < i && #[trigger] self.records@[j].author@ == author@
                    && self.records@[j].log_id == m) && forall|j: int| 0 <= j < i
                    && #[trigger] self.records@[j].author@ == author@ ==> self.records@[j].log_id <= m,
            decreases self.records@.len() - i,
        {
            let rec = &self.records[i];
            if bytes_eq(&rec.author, author) {
                match max {
                    Some(m) => {
                        if m < rec.log_id {
                            max = Some(rec.log_id);
                        }
                    },
                    None => {
                        max = Some(rec.log_id);
                    },
                }
            }
            i = i + 1;
        }
        match max {
            None => {
                proof {
                    assert(self.is_next_log_id(author@, 1));
                    let l = choose|l: u64| self.is_next_log_id(author@, l);
                    assert(l == 1);
                }
                Some(1)
            },
            Some(m) => {
                if m == u64::MAX {
                    None
                } else {
                    proof {
                        let n = (m + 1) as u64;
                        assert(self.is_next_log_id(author@, n));
                        let l = choose|l: u64| self.is_next_log_id(author@, l);
                        assert(l == n);
                    }
                    Some(m + 1)
                }
            },
        }
    }

    /// An empty registry.
    pub fn new() -> (r: Self)
        ensures
            r.wf(),
            r.records@.len() == 0,
    {
        LogRegistry { records: Vec::new() }
    }

    /// The log id registered for `author` and `schema`.
    pub fn get(&self, author: &Vec<u8>, schema: &Vec<u8>) -> (r: Option<u64>)
        requires
            self.wf(),
        ensures
            r == self.log_of(author@, schema@),
    {
        let mut i: usize = 0;
        while i < self.records.len()
            invariant
                self.wf(),
                0 <= i <= self.records@.len(),
                forall|j: int| 0 <= j < i ==> !#[trigger] self.records@[j].is_key(author@, schema@),
            decreases self.records@.len() - i,
        {
            let rec = &self.records[i];
            if bytes_eq(&rec.author, author) && bytes_eq(&rec.schema, schema) {
                proof {
                    assert(self.records@[i as int].is_key(author@, schema@));
                    let k = choose|k: int| 0 <= k < self.records@.len() && #[trigger] self.records@[k].is_key(author@, schema@);
                    if k < i {
                        assert(!self.records@[k].is_key(self.records@[i as int].author@, self.records@[i as int].schema@));
                    } else if k > i {
                        assert(!self.records@[i as int].is_key(self.records@[k].author@, self.records@[k].schema@));
                    }
                }
                return Some(rec.log_id);
            }
            i = i + 1;
        }
        None
    }

    /// Registers `log_id` for `author` and `schema`. An equal claim changes
    /// nothing; a different one is refused.
    pub fn insert(&mut self, author: &Vec<u8>, schema: &Vec<u8>, log_id: u64) -> (r: Result<(), RegistryError>)
        requires
            old(self).wf(),
        ensures
            final(self).wf(),
            match old(self).log_of(author@, schema@) {
                Some(l) => if l == log_id {
                    r is Ok && *final(self) == *old(self)
                } else {
                    r == Err::<(), RegistryError>(RegistryError::DuplicateLogClaim) && *final(self) == *old(self)
                },
                None => r is Ok && final(self).log_of(author@, schema@) == Some(log_id)
                    && final(self).records@ == old(self).records@.push(
                        final(self).records@.last(),
                    ) && final(self).records@.last().is_key(author@, schema@)
                    && final(self).records@.last().log_id == log_id,
            },
    {
        match self.get(author, schema) {
            Some(l) => {
                if l == log_id {
                    Ok(())
                } else {
                    Err(RegistryError::DuplicateLogClaim)
                }
            },
            None => {
                let rec = LogRecord { author: copy_bytes(author), schema: copy_bytes(schema), log_id };
                let ghost before = self.records@;
                self.records.push(rec);
                proof {
                    let n = before.len() as int;
                    assert(self.records@[n].is_key(author@, schema@));
                    assert forall|i: int, j: int|
                        0 <= i < j < self.records@.len() implies !#[trigger] self.records@[i].is_key(
                            self.records@[j].author@,
                            #[trigger] self.records@[j].schema@,
                        ) by {
                        if j == n {
                            assert(!before[i].is_key(author@, schema@));
                        } else {
                            assert(self.records@[i] == before[i] && self.records@[j] == before[j]);
                        }
                    }
                    assert(self.has_log(author@, schema@));
                    let k = choose|k: int| 0 <= k < self.records@.len() && #[trigger] self.records@[k].is_key(author@, schema@);
                    if k < n {
                        assert(before[k].is_key(author@, schema@));
                    }
                }
                Ok(())
            },
        }
    }
}

} // verus!
