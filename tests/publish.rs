use aquadoggo::bamboo::{backlink_seq_num, is_skiplink_required, skiplink_seq_num};
use aquadoggo::publish::{EntryArgsRequest, Node, PublishEntryError};
use aquadoggo::registry::{LogRegistry, RegistryError};
use bamboo_rs_core::entry::MAX_ENTRY_SIZE;
use bamboo_rs_core::{Keypair, PublicKey, SecretKey};

fn key_pair(seed: u8) -> Keypair {
    let secret = SecretKey::from_bytes(&[seed; 32]).unwrap();
    let public = PublicKey::from(&secret);
    Keypair { secret, public }
}

fn sign_entry(
    key_pair: &Keypair,
    log_id: u64,
    payload: &[u8],
    previous_seq_num: Option<u64>,
    skiplink: Option<&[u8]>,
    backlink: Option<&[u8]>,
) -> Vec<u8> {
    let mut out = [0u8; MAX_ENTRY_SIZE];
    let size = bamboo_rs_core::publish(
        &mut out,
        key_pair,
        log_id,
        payload,
        false,
        previous_seq_num,
        skiplink,
        backlink,
    )
    .unwrap();
    out[..size].to_vec()
}

fn hash_hex(bytes: &[u8]) -> String {
    let mut out = Vec::new();
    bamboo_rs_core::yamf_hash::new_blake2b(bytes).encode_write(&mut out).unwrap();
    hex::encode(out)
}

/// Builds a correct log of `n` entries, each with its own payload.
fn build_log(key_pair: &Keypair, log_id: u64, n: u64) -> (Vec<Vec<u8>>, Vec<Vec<u8>>) {
    let mut entries: Vec<Vec<u8>> = Vec::new();
    let mut payloads: Vec<Vec<u8>> = Vec::new();
    for seq in 1..=n {
        let payload = format!("message {}", seq).into_bytes();
        let entry = if seq == 1 {
            sign_entry(key_pair, log_id, &payload, None, None, None)
        } else {
            let skip = bamboo_rs_core::lipmaa(seq) as usize;
            sign_entry(
                key_pair,
                log_id,
                &payload,
                Some(seq - 1),
                Some(&entries[skip - 1]),
                Some(&entries[(seq - 2) as usize]),
            )
        };
        entries.push(entry);
        payloads.push(payload);
    }
    (entries, payloads)
}

const SCHEMA: [u8; 3] = [1, 2, 3];

#[test]
fn publish_entry() {
    let key_pair = key_pair(7);
    let schema = SCHEMA.to_vec();
    let mut node = Node::new();
    let log_id = 5;

    let payload = b"Hello".to_vec();
    let first = sign_entry(&key_pair, log_id, &payload, None, None, None);
    let response = node.publish_entry(&first, &payload, &schema).unwrap();
    assert_eq!(response.seq_num, 2);
    assert_eq!(response.log_id, Some(5));

    let second = sign_entry(&key_pair, log_id, &payload, Some(1), Some(&first), Some(&first));
    let response = node.publish_entry(&second, &payload, &schema).unwrap();
    assert_eq!(response.seq_num, 3);

    // Invalid log id for this schema
    let other_log = sign_entry(&key_pair, 1, &payload, None, None, None);
    let wrong = sign_entry(&key_pair, 1, &payload, Some(1), Some(&other_log), Some(&other_log));
    assert_eq!(
        node.publish_entry(&wrong, &payload, &schema).err(),
        Some(PublishEntryError::InvalidLogId)
    );

    // Invalid backlink hash: the backlink claimed is an entry that was never published
    let unknown = sign_entry(&key_pair, log_id, b"never published", None, None, None);
    let third = sign_entry(&key_pair, log_id, &payload, Some(2), Some(&first), Some(&unknown));
    assert_eq!(
        node.publish_entry(&third, &payload, &schema).err(),
        Some(PublishEntryError::ChainIntegrityFailure)
    );

    // Invalid sequence number: nothing is stored at position five
    let sixth = sign_entry(&key_pair, log_id, &payload, Some(5), Some(&first), Some(&second));
    assert_eq!(
        node.publish_entry(&sixth, &payload, &schema).err(),
        Some(PublishEntryError::BacklinkMissing)
    );
}

#[test]
fn first_entry_of_fresh_log() {
    let key_pair = key_pair(1);
    let schema = SCHEMA.to_vec();
    let mut node = Node::new();
    let payload = b"first".to_vec();
    let first = sign_entry(&key_pair, 1, &payload, None, None, None);
    let response = node.publish_entry(&first, &payload, &schema).unwrap();
    assert_eq!(response.seq_num, 2);
    assert_eq!(response.log_id, Some(1));
    assert_eq!(response.entry_hash_skiplink, None);
    assert_eq!(response.entry_hash_backlink, Some(hash_hex(&first)));
    assert_eq!(node.store.entries.len(), 1);
    assert_eq!(node.registry.records.len(), 1);
}

#[test]
fn missing_backlink_keeps_log_unchanged() {
    let key_pair = key_pair(2);
    let author = key_pair.public.to_bytes().to_vec();
    let schema = SCHEMA.to_vec();
    let mut node = Node::new();
    let payload = b"payload".to_vec();
    let first = sign_entry(&key_pair, 1, &payload, None, None, None);
    node.publish_entry(&first, &payload, &schema).unwrap();

    // An entry at position two of another log, whose first entry is unknown here
    let other_first = sign_entry(&key_pair, 3, &payload, None, None, None);
    let second = sign_entry(&key_pair, 3, &payload, Some(1), Some(&other_first), Some(&other_first));
    let other_schema = vec![4, 5, 6];
    assert_eq!(
        node.publish_entry(&second, &payload, &other_schema).err(),
        Some(PublishEntryError::BacklinkMissing)
    );
    assert_eq!(node.store.entries.len(), 1);

    let args = node.get_entry_args(&author, &schema);
    assert_eq!(args.seq_num, 2);
    let args = node.get_entry_args(&author, &other_schema);
    assert_eq!(args.seq_num, 1);
    assert_eq!(args.log_id, Some(2));
    assert_eq!(args.entry_hash_backlink, None);
}

#[test]
fn other_log_id_is_refused_after_registration() {
    let key_pair = key_pair(3);
    let schema = SCHEMA.to_vec();
    let mut node = Node::new();
    let payload = b"payload".to_vec();
    let first = sign_entry(&key_pair, 4, &payload, None, None, None);
    node.publish_entry(&first, &payload, &schema).unwrap();

    let other = sign_entry(&key_pair, 6, &payload, None, None, None);
    assert_eq!(
        node.publish_entry(&other, &payload, &schema).err(),
        Some(PublishEntryError::InvalidLogId)
    );
    assert_eq!(node.store.entries.len(), 1);
    assert_eq!(node.registry.records.len(), 1);
}

#[test]
fn lipmaa_vector() {
    assert_eq!(skiplink_seq_num(13), Some(4));
    assert_eq!(skiplink_seq_num(4), Some(1));
    assert_eq!(skiplink_seq_num(1), None);
    assert_eq!(backlink_seq_num(13), Some(12));
    assert_eq!(backlink_seq_num(1), None);
    assert!(!is_skiplink_required(2));
    assert!(is_skiplink_required(4));
    assert!(is_skiplink_required(13));
}

#[test]
fn skiplink_at_lipmaa_position_only() {
    let key_pair = key_pair(4);
    let author = key_pair.public.to_bytes().to_vec();
    let schema = SCHEMA.to_vec();
    let mut node = Node::new();
    let (entries, payloads) = build_log(&key_pair, 1, 12);
    for (entry, payload) in entries.iter().zip(payloads.iter()) {
        node.publish_entry(entry, payload, &schema).unwrap();
    }
    let args = node.get_entry_args(&author, &schema);
    assert_eq!(args.seq_num, 13);
    assert_eq!(args.entry_hash_skiplink, Some(hash_hex(&entries[3])));
    assert_eq!(args.entry_hash_backlink, Some(hash_hex(&entries[11])));

    let payload = b"message 13".to_vec();
    for wrong in [1usize, 2, 3, 5, 8, 12] {
        let entry = sign_entry(
            &key_pair,
            1,
            &payload,
            Some(12),
            Some(&entries[wrong - 1]),
            Some(&entries[11]),
        );
        assert_eq!(
            node.publish_entry(&entry, &payload, &schema).err(),
            Some(PublishEntryError::ChainIntegrityFailure)
        );
    }
    let entry = sign_entry(&key_pair, 1, &payload, Some(12), Some(&entries[3]), Some(&entries[11]));
    let response = node.publish_entry(&entry, &payload, &schema).unwrap();
    assert_eq!(response.seq_num, 14);
    assert_eq!(response.entry_hash_backlink, Some(hash_hex(&entry)));
    assert_eq!(response.entry_hash_skiplink, None);
}

#[test]
fn next_arguments_of_fresh_pair() {
    let node = Node::new();
    let request = EntryArgsRequest { author: vec![9; 32], schema: SCHEMA.to_vec() };
    let args = node.entry_args(&request);
    assert_eq!(args.seq_num, 1);
    assert_eq!(args.log_id, Some(1));
    assert_eq!(args.entry_hash_backlink, None);
    assert_eq!(args.entry_hash_skiplink, None);
}

#[test]
fn malformed_entry_is_refused() {
    let mut node = Node::new();
    let payload = b"payload".to_vec();
    assert_eq!(
        node.publish_entry(&vec![], &payload, &SCHEMA.to_vec()).err(),
        Some(PublishEntryError::MalformedInput)
    );
    assert_eq!(
        node.publish_entry(&vec![0, 1, 2, 3], &payload, &SCHEMA.to_vec()).err(),
        Some(PublishEntryError::MalformedInput)
    );
}

#[test]
fn wrong_payload_fails_verification() {
    let key_pair = key_pair(5);
    let mut node = Node::new();
    let first = sign_entry(&key_pair, 1, b"signed payload", None, None, None);
    assert_eq!(
        node.publish_entry(&first, &b"other payload".to_vec(), &SCHEMA.to_vec()).err(),
        Some(PublishEntryError::ChainIntegrityFailure)
    );
    assert_eq!(node.store.entries.len(), 0);
    assert_eq!(node.registry.records.len(), 0);
}

#[test]
fn same_entry_twice_is_a_storage_failure() {
    let key_pair = key_pair(6);
    let mut node = Node::new();
    let payload = b"payload".to_vec();
    let first = sign_entry(&key_pair, 1, &payload, None, None, None);
    node.publish_entry(&first, &payload, &SCHEMA.to_vec()).unwrap();
    assert_eq!(
        node.publish_entry(&first, &payload, &SCHEMA.to_vec()).err(),
        Some(PublishEntryError::StorageFailure)
    );
    assert_eq!(node.store.entries.len(), 1);
}

#[test]
fn registry_first_write_wins() {
    let mut registry = LogRegistry::new();
    let author = vec![1, 1];
    let schema = vec![2, 2];
    assert_eq!(registry.get(&author, &schema), None);
    assert_eq!(registry.suggest_log_id(&author), Some(1));
    assert!(registry.insert(&author, &schema, 4).is_ok());
    assert!(registry.insert(&author, &schema, 4).is_ok());
    assert_eq!(registry.insert(&author, &schema, 5).err(), Some(RegistryError::DuplicateLogClaim));
    assert_eq!(registry.get(&author, &schema), Some(4));
    assert_eq!(registry.suggest_log_id(&author), Some(5));
    assert!(registry.insert(&author, &vec![3], u64::MAX).is_ok());
    assert_eq!(registry.suggest_log_id(&author), None);
    assert_eq!(registry.suggest_log_id(&vec![7]), Some(1));
}

#[test]
fn publish_response_matches_later_query() {
    let key_pair = key_pair(10);
    let author = key_pair.public.to_bytes().to_vec();
    let schema = SCHEMA.to_vec();
    let mut node = Node::new();
    let (entries, payloads) = build_log(&key_pair, 2, 5);
    for (entry, payload) in entries.iter().zip(payloads.iter()) {
        let response = node.publish_entry(entry, payload, &schema).unwrap();
        let args = node.get_entry_args(&author, &schema);
        assert_eq!(args.seq_num, response.seq_num);
        assert_eq!(args.log_id, response.log_id);
        assert_eq!(args.entry_hash_backlink, response.entry_hash_backlink);
        assert_eq!(args.entry_hash_skiplink, response.entry_hash_skiplink);
    }
}

#[test]
fn no_log_id_left_to_suggest() {
    let mut node = Node::new();
    let author = vec![3u8; 32];
    assert!(node.registry.insert(&author, &vec![1], u64::MAX).is_ok());
    let args = node.get_entry_args(&author, &SCHEMA.to_vec());
    assert_eq!(args.seq_num, 1);
    assert_eq!(args.log_id, None);
    assert_eq!(args.entry_hash_backlink, None);
    assert_eq!(args.entry_hash_skiplink, None);
}
