//! The publish pipeline: accept one signed entry, check that it extends its
//! log, store it, and tell the client the arguments of its next entry.
use vstd::prelude::*;
use crate::bamboo::{
    chain_verifies, decode_entry, decoded_entry, hex_of, lipmaa, lipmaa_of, to_hex, verify_entry,
    yamf_hash, yamf_hash_of,
};
use crate::bytes::copy_bytes;
use crate::registry::LogRegistry;
use crate::store::{EntryStore, StoredEntry};

verus! {

/// Why an entry was not published.
#[derive(Debug, Clone, Copy, PartialEq, Eq, Structural)]
pub enum PublishEntryError {
    /// The entry cannot be decoded, or its sequence number has no successor.
    MalformedInput,
    /// The claimed log id differs from the one registered for the schema.
    InvalidLogId,
    /// The entry that the backlink points to is not stored.
    BacklinkMissing,
    /// The entry that the skiplink points to is not stored.
    SkiplinkMissing,
    /// Signature, payload hash or link hashes do not check out.
    ChainIntegrityFailure,
    /// An entry is already stored at that position of the log.
    StorageFailure,
}

/// Parameters of a request for the next entry's arguments: the author's
/// public key and the schema hash, as bytes.
pub struct EntryArgsRequest {
    pub author: Vec<u8>,
    pub schema: Vec<u8>,
}

/// What a client needs to build its next entry: the hex hashes of the
/// entries it links to, its sequence number and its log id. The log id is
/// absent only for a new log when no id is left to suggest.
pub struct EntryArgsResponse {
    pub entry_hash_backlink: Option<String>,
    pub entry_hash_skiplink: Option<String>,
    pub seq_num: u64,
    pub log_id: Option<u64>,
}

pub open spec fn opt_text(o: Option<String>) -> Option<Seq<char>> {
    match o {
        Some(s) => Some(s@),
        None => None,
    }
}

pub open spec fn hex_hash(e: Option<StoredEntry>) -> Option<Seq<char>> {
    match e {
        Some(e) => Some(hex_of(e.entry_hash@)),
        None => None,
    }
}

pub open spec fn bytes_of(e: Option<StoredEntry>) -> Option<Seq<u8>> {
    match e {
        Some(e) => Some(e.entry_bytes@),
        None => None,
    }
}

impl EntryArgsResponse {
    /// Backlink, skiplink, sequence number and log id.
    pub open spec fn view(&self) -> (Option<Seq<char>>, Option<Seq<char>>, u64, Option<u64>) {
        (opt_text(self.entry_hash_backlink), opt_text(self.entry_hash_skiplink), self.seq_num, self.log_id)
    }
}

/// The arguments of the entry that follows `latest` in its log: it links
/// back to `latest`, and skips to the entry at its lipmaa position unless
/// that is `latest` itself.
pub open spec fn args_after(store: EntryStore, latest: StoredEntry) -> (
    Option<Seq<char>>,
    Option<Seq<char>>,
    u64,
    Option<u64>,
) {
    let next = (latest.seq_num + 1) as u64;
    (
        Some(hex_of(latest.entry_hash@)),
        if lipmaa_of(next) == latest.seq_num {
            None
        } else {
            hex_hash(store.entry_at(latest.author@, latest.log_id, lipmaa_of(next)))
        },
        next,
        Some(latest.log_id),
    )
}

/// The arguments of the first entry of a log.
pub open spec fn first_args(log_id: Option<u64>) -> (Option<Seq<char>>, Option<Seq<char>>, u64, Option<u64>) {
    (None, None, 1, log_id)
}

/// A node's state: the log registry and the entry store.
pub struct Node {
    pub registry: LogRegistry,
    pub store: EntryStore,
}

impl Node {
    pub open spec fn wf(&self) -> bool {
        self.registry.wf() && self.store.wf()
    }

    /// The outcome of publishing `entry` with payload `message` under
    /// `schema`: the decoded author, log id and sequence number, or the
    /// first check that fails, in the order the pipeline runs them.
    pub open spec fn publish_check(&self, entry: Seq<u8>, message: Seq<u8>, schema: Seq<u8>) -> Result<
        (Seq<u8>, u64, u64),
        PublishEntryError,
    > {
        match decoded_entry(entry) {
            None => Err(PublishEntryError::MalformedInput),
            Some(d) => {
                let (a, l, n) = (d.0, d.1, d.2);
                if n == 0 || n == u64::MAX {
                    Err(PublishEntryError::MalformedInput)
                } else if self.registry.log_of(a, schema) matches Some(k) && k != l {
                    Err(PublishEntryError::InvalidLogId)
                } else if n > 1 && self.store.entry_at(a, l, (n - 1) as u64) is None {
                    Err(PublishEntryError::BacklinkMissing)
                } else if n > 1 && self.store.entry_at(a, l, lipmaa_of(n)) is None {
                    Err(PublishEntryError::SkiplinkMissing)
                } else if !chain_verifies(
                    entry,
                    message,
                    if n > 1 { bytes_of(self.store.entry_at(a, l, lipmaa_of(n))) } else { None },
                    if n > 1 { bytes_of(self.store.entry_at(a, l, (n - 1) as u64)) } else { None },
                ) {
                    Err(PublishEntryError::ChainIntegrityFailure)
                } else if self.store.has_entry(a, l, n) {
                    Err(PublishEntryError::StorageFailure)
                } else {
                    Ok((a, l, n))
                }
            },
        }
    }

    /// The arguments of the next entry of `author` for `schema`. A schema
    /// without a log gets sequence number one, no links, and the log id
    /// that the registry suggests, if any.
    pub open spec fn entry_args_of(&self, author: Seq<u8>, schema: Seq<u8>) -> (
        Option<Seq<char>>,
        Option<Seq<char>>,
        u64,
        Option<u64>,
    ) {
        match self.registry.log_of(author, schema) {
            Some(l) => match self.store.latest_of(author, l) {
                Some(e) => args_after(self.store, e),
                None => first_args(Some(l)),
            },
            None => first_args(self.registry.next_log_id(author)),
        }
    }

    /// A node with no logs and no entries.
    pub fn new() -> (r: Self)
        ensures
            r.wf(),
            r.registry.records@.len() == 0,
            r.store.entries@.len() == 0,
    {
        Node { registry: LogRegistry::new(), store: EntryStore::new() }
    }
}

impl Node {
    /// Publishes `entry_encoded`, whose payload is `message_encoded` and
    /// whose message names `schema`. On success the entry is stored, its log
    /// id is registered for the author and schema if it was not yet, and the
    /// arguments of the entry after it are returned. On failure nothing
    /// changes.
    pub fn publish_entry(
        &mut self,
        entry_encoded: &Vec<u8>,
        message_encoded: &Vec<u8>,
        schema: &Vec<u8>,
    ) -> (r: Result<EntryArgsResponse, PublishEntryError>)
        requires
            old(self).wf(),
        ensures
            final(self).wf(),
            match old(self).publish_check(entry_encoded@, message_encoded@, schema@) {
                Err(e) => r == Err::<EntryArgsResponse, PublishEntryError>(e) && *final(self) == *old(self),
                Ok(d) => {
                    let (a, l, n) = d;
                    let stored = final(self).store.entries@.last();
                    &&& r matches Ok(resp) && resp.view() == args_after(final(self).store, stored)
                        && (n == 1 ==> resp.seq_num == 2 && resp.entry_hash_skiplink is None)
                        && final(self).entry_args_of(a, schema@) == resp.view()
                    &&& final(self).store.entries@ == old(self).store.entries@.push(stored)
                    &&& stored.is_at(a, l, n)
                    &&& stored.entry_bytes@ == entry_encoded@
                    &&& stored.entry_hash@ == yamf_hash_of(entry_encoded@)
                    &&& stored.message_bytes@ == message_encoded@
                    &&& n > 1 ==> decoded_entry(entry_encoded@)->Some_0.3 == Some(
                        old(self).store.entry_at(a, l, (n - 1) as u64)->Some_0.entry_hash@,
                    )
                    &&& n > 1 && decoded_entry(entry_encoded@)->Some_0.4 is Some ==> decoded_entry(
                        entry_encoded@,
                    )->Some_0.4 == Some(old(self).store.entry_at(a, l, lipmaa_of(n))->Some_0.entry_hash@)
                    &&& final(self).registry.log_of(a, schema@) == Some(l)
                    &&& old(self).registry.has_log(a, schema@) ==> final(self).registry == old(self).registry
                    &&& !old(self).registry.has_log(a, schema@) ==> final(self).registry.records@.drop_last()
                        == old(self).registry.records@
                },
            },
    {
        let header = match decode_entry(entry_encoded) {
            Some(h) => h,
            None => {
                return Err(PublishEntryError::MalformedInput);
            },
        };
        let author = &header.author;
        let log_id = header.log_id;
        let seq_num = header.seq_num;
        if seq_num == u64::MAX {
            return Err(PublishEntryError::MalformedInput);
        }
        let schema_log_id = self.registry.get(author, schema);
        if let Some(k) = schema_log_id {
            if k != log_id {
                return Err(PublishEntryError::InvalidLogId);
            }
        }
        let mut backlink: Option<&Vec<u8>> = None;
        let mut skiplink: Option<&Vec<u8>> = None;
        if seq_num > 1 {
            match self.store.at_seq_num(author, log_id, seq_num - 1) {
                Some(e) => {
                    backlink = Some(&e.entry_bytes);
                },
                None => {
                    return Err(PublishEntryError::BacklinkMissing);
                },
            }
            match self.store.at_seq_num(author, log_id, lipmaa(seq_num)) {
                Some(e) => {
                    skiplink = Some(&e.entry_bytes);
                },
                None => {
                    return Err(PublishEntryError::SkiplinkMissing);
                },
            }
        }
        if !verify_entry(entry_encoded, message_encoded, skiplink, backlink) {
            return Err(PublishEntryError::ChainIntegrityFailure);
        }
        if self.store.at_seq_num(author, log_id, seq_num).is_some() {
            return Err(PublishEntryError::StorageFailure);
        }
        if schema_log_id.is_none() {
            let registered = self.registry.insert(author, schema, log_id);
            assert(registered is Ok);
        }
        let stored = StoredEntry {
            author: copy_bytes(author),
            log_id,
            seq_num,
            entry_bytes: copy_bytes(entry_encoded),
            entry_hash: yamf_hash(entry_encoded),
            message_bytes: copy_bytes(message_encoded),
        };
        self.store.insert(stored);
        let latest = &self.store.entries[self.store.entries.len() - 1];
        Ok(next_args(&self.store, latest))
    }

    /// The arguments of the next entry of `author` for `schema`, without
    /// changing anything.
    pub fn get_entry_args(&self, author: &Vec<u8>, schema: &Vec<u8>) -> (r: EntryArgsResponse)
        requires
            self.wf(),
        ensures
            r.view() == self.entry_args_of(author@, schema@),
    {
        match self.registry.get(author, schema) {
            Some(l) => match self.store.latest(author, l) {
                Some(e) => next_args(&self.store, e),
                None => EntryArgsResponse {
                    entry_hash_backlink: None,
                    entry_hash_skiplink: None,
                    seq_num: 1,
                    log_id: Some(l),
                },
            },
            None => EntryArgsResponse {
                entry_hash_backlink: None,
                entry_hash_skiplink: None,
                seq_num: 1,
                log_id: self.registry.suggest_log_id(author),
            },
        }
    }

    /// The arguments for a parsed request; see `get_entry_args`.
    pub fn entry_args(&self, request: &EntryArgsRequest) -> (r: EntryArgsResponse)
        requires
            self.wf(),
        ensures
            r.view() == self.entry_args_of(request.author@, request.schema@),
    {
        self.get_entry_args(&request.author, &request.schema)
    }
}

/// The arguments of the entry that follows `latest`.
fn next_args(store: &EntryStore, latest: &StoredEntry) -> (r: EntryArgsResponse)
    requires
        store.wf(),
        1 <= latest.seq_num < u64::MAX,
    ensures
        r.view() == args_after(*store, *latest),
        latest.seq_num == 1 ==> r.entry_hash_skiplink is None,
{
    let next = latest.seq_num + 1;
    let skip = lipmaa(next);
    proof {
        if skip == 0 {
            assert(!store.has_entry(latest.author@, latest.log_id, skip));
        }
    }
    let skiplink = if skip == latest.seq_num {
        None
    } else {
        match store.at_seq_num(&latest.author, latest.log_id, skip) {
            Some(e) => Some(to_hex(&e.entry_hash)),
            None => None,
        }
    };
    EntryArgsResponse {
        entry_hash_backlink: Some(to_hex(&latest.entry_hash)),
        entry_hash_skiplink: skiplink,
        seq_num: next,
        log_id: Some(latest.log_id),
    }
}

/// The first entry of a fresh log is accepted: for an author and schema with
/// no registered log, an entry at sequence number one that bamboo verifies
/// without links, at a free position, passes every check.
pub proof fn lemma_first_entry_accepted(node: Node, entry: Seq<u8>, message: Seq<u8>, schema: Seq<u8>)
    requires
        node.wf(),
        decoded_entry(entry) matches Some(d) && d.2 == 1 && !node.registry.has_log(d.0, schema)
            && !node.store.has_entry(d.0, d.1, 1),
        chain_verifies(entry, message, None, None),
    ensures
        node.publish_check(entry, message, schema) == Ok::<(Seq<u8>, u64, u64), PublishEntryError>(
            (decoded_entry(entry)->Some_0.0, decoded_entry(entry)->Some_0.1, 1),
        ),
{
}

/// An entry at sequence number two is refused with `BacklinkMissing` when
/// its log holds no first entry, whatever backlink hash it claims, provided
/// its log id agrees with the registry.
pub proof fn lemma_missing_backlink_rejected(node: Node, entry: Seq<u8>, message: Seq<u8>, schema: Seq<u8>)
    requires
        node.wf(),
        decoded_entry(entry) matches Some(d) && d.2 == 2 && !(node.registry.log_of(d.0, schema) matches Some(k) && k != d.1)
            && !node.store.has_entry(d.0, d.1, 1),
    ensures
        node.publish_check(entry, message, schema) == Err::<(Seq<u8>, u64, u64), PublishEntryError>(
            PublishEntryError::BacklinkMissing,
        ),
{
}

/// A refused entry leaves the node as it was, so the arguments reported for
/// every author and schema stay the same: a client that re-queries after a
/// refusal is told the same next sequence number.
pub proof fn lemma_refused_publish_keeps_entry_args(
    before: Node,
    after: Node,
    entry: Seq<u8>,
    message: Seq<u8>,
    schema: Seq<u8>,
)
    requires
        before.wf(),
        before.publish_check(entry, message, schema) is Err,
        after == before,
    ensures
        forall|a: Seq<u8>, s: Seq<u8>| #[trigger] after.entry_args_of(a, s) == before.entry_args_of(a, s),
{
}

/// Once an entry has registered log `l` for an author and schema, every
/// later entry of that author and schema that claims another log id is
/// refused with `InvalidLogId`.
pub proof fn lemma_log_claim_is_kept(
    before: Node,
    after: Node,
    first: Seq<u8>,
    later: Seq<u8>,
    message: Seq<u8>,
    other_message: Seq<u8>,
    schema: Seq<u8>,
)
    requires
        before.wf(),
        after.wf(),
        before.publish_check(first, message, schema) matches Ok(d) && after.registry.log_of(d.0, schema) == Some(d.1),
        decoded_entry(later) matches Some(e) && e.0 == decoded_entry(first)->Some_0.0 && e.1
            != decoded_entry(first)->Some_0.1 && 1 <= e.2 < u64::MAX,
    ensures
        after.publish_check(later, other_message, schema) == Err::<(Seq<u8>, u64, u64), PublishEntryError>(
            PublishEntryError::InvalidLogId,
        ),
{
}

/// The skiplink of entry `n > 1` is the entry at `lipmaa(n)`: without a
/// stored entry there the entry is refused with `SkiplinkMissing`, and with
/// one the bytes handed to verification are that entry's.
pub proof fn lemma_skiplink_at_lipmaa(node: Node, entry: Seq<u8>, message: Seq<u8>, schema: Seq<u8>)
    requires
        node.wf(),
        decoded_entry(entry) matches Some(d) && 1 < d.2 < u64::MAX && !(node.registry.log_of(d.0, schema) matches Some(k)
            && k != d.1) && node.store.has_entry(d.0, d.1, (d.2 - 1) as u64),
    ensures
        ({
            let d = decoded_entry(entry)->Some_0;
            let skip = node.store.entry_at(d.0, d.1, lipmaa_of(d.2));
            &&& skip is None ==> node.publish_check(entry, message, schema) == Err::<
                (Seq<u8>, u64, u64),
                PublishEntryError,
            >(PublishEntryError::SkiplinkMissing)
            &&& skip matches Some(s) ==> (node.publish_check(entry, message, schema)
                != Err::<(Seq<u8>, u64, u64), PublishEntryError>(PublishEntryError::ChainIntegrityFailure)
                <==> chain_verifies(
                entry,
                message,
                Some(s.entry_bytes@),
                bytes_of(node.store.entry_at(d.0, d.1, (d.2 - 1) as u64)),
            ))
        }),
{
}

} // verus!
