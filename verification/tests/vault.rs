use stronghold_vault::bucket::Bucket;
use stronghold_vault::client::{snapshot_of, Client};
use stronghold_vault::crypto::{decrypt, encrypt};
use stronghold_vault::replay::DBView;
use stronghold_vault::types::{
    copy_key, write_to_read, Key, Kind, ReadResult, RecordHint, RecordId, VaultError,
};

fn key_of(bytes: &[u8]) -> Key {
    Key { bytes: bytes.to_vec() }
}

fn client_with_vault(key: &Key) -> Client {
    let mut client = Client::new(RecordId(1), Bucket::new());
    client.add_vault(key);
    client
}

#[test]
fn empty_view_has_no_live_records() {
    let view = DBView::load(key_of(b"some key"), &Vec::new());
    assert_eq!(view.list_live_ids().len(), 0);
    assert!(!view.contains(RecordId(7)));
}

#[test]
fn create_then_read_round_trips() {
    let key = key_of(b"abc");
    let mut client = client_with_vault(&key);
    let payload = b"super secret".to_vec();
    let id = client
        .create_record(copy_key(&key), payload.clone())
        .expect("vault is registered");
    let got = client.read_record(copy_key(&key), id).expect("record is live");
    assert_eq!(got, payload);
}

#[test]
fn empty_payload_round_trips() {
    let key = key_of(b"abc");
    let mut client = client_with_vault(&key);
    let id = client.create_record(copy_key(&key), Vec::new()).expect("vault is registered");
    assert_eq!(client.read_record(copy_key(&key), id).unwrap(), Vec::<u8>::new());
}

#[test]
fn never_written_id_is_not_found() {
    let key = key_of(b"abc");
    let mut client = client_with_vault(&key);
    client
        .create_record(copy_key(&key), b"data".to_vec())
        .expect("vault is registered");
    let got = client.read_record(copy_key(&key), RecordId(u64::MAX));
    assert_eq!(got, Err(VaultError::NotFound));
}

#[test]
fn revoked_id_is_not_found_but_entries_remain() {
    let key = key_of(b"abc");
    let mut client = client_with_vault(&key);
    let id = client
        .create_record(copy_key(&key), b"data".to_vec())
        .expect("vault is registered");
    let log_before = client.blobs.vaults[0].log.len();
    client.revoke_record_by_id(id, copy_key(&key)).expect("record is live");
    assert_eq!(client.read_record(copy_key(&key), id), Err(VaultError::NotFound));
    // the tombstone is appended; the dead entries stay until compaction
    assert_eq!(client.blobs.vaults[0].log.len(), log_before + 1);
}

#[test]
fn revoking_unknown_id_reports_not_found() {
    let key = key_of(b"abc");
    let mut client = client_with_vault(&key);
    let got = client.revoke_record_by_id(RecordId(99), copy_key(&key));
    assert_eq!(got, Err(VaultError::NotFound));
}

#[test]
fn gc_preserves_view_and_is_idempotent() {
    let key = key_of(b"abc");
    let mut client = client_with_vault(&key);
    let id1 = client.create_record(copy_key(&key), b"one".to_vec()).unwrap();
    let id2 = client.create_record(copy_key(&key), b"two".to_vec()).unwrap();
    let id3 = client.create_record(copy_key(&key), b"three".to_vec()).unwrap();
    client.revoke_record_by_id(id2, copy_key(&key)).unwrap();

    let mut before = client.list_valid_ids_for_vault(copy_key(&key)).unwrap();
    client.preform_gc(copy_key(&key)).unwrap();
    let mut after = client.list_valid_ids_for_vault(copy_key(&key)).unwrap();
    before.sort();
    after.sort();
    assert_eq!(before, after);
    assert_eq!(client.read_record(copy_key(&key), id1).unwrap(), b"one".to_vec());
    assert_eq!(client.read_record(copy_key(&key), id3).unwrap(), b"three".to_vec());
    assert_eq!(client.read_record(copy_key(&key), id2), Err(VaultError::NotFound));
    // only the two live entries survive compaction
    assert_eq!(client.blobs.vaults[0].log.len(), 2);

    // a second collection leaves the compacted log exactly as it is
    let ids_before: Vec<RecordId> =
        client.blobs.vaults[0].log.iter().map(|e| e.id).collect();
    client.preform_gc(copy_key(&key)).unwrap();
    let ids_after: Vec<RecordId> =
        client.blobs.vaults[0].log.iter().map(|e| e.id).collect();
    assert_eq!(ids_before, ids_after);
    assert_eq!(client.blobs.vaults[0].log.len(), 2);
}

#[test]
fn write_a_write_b_revoke_a_leaves_exactly_b() {
    let key = key_of(b"abc");
    let mut client = client_with_vault(&key);
    let id_a = client.create_record(copy_key(&key), b"a".to_vec()).unwrap();
    let id_b = client.create_record(copy_key(&key), b"b".to_vec()).unwrap();
    client.revoke_record_by_id(id_a, copy_key(&key)).unwrap();
    let ids = client.list_valid_ids_for_vault(copy_key(&key)).unwrap();
    assert_eq!(ids, vec![id_b]);
}

#[test]
fn snapshot_round_trip_reproduces_every_vault() {
    let key1 = key_of(b"first vault");
    let key2 = key_of(b"second vault");
    let mut client = Client::new(RecordId(42), Bucket::new());
    client.add_vault(&key1);
    client.add_vault(&key2);
    let id1 = client.create_record(copy_key(&key1), b"alpha".to_vec()).unwrap();
    let id2 = client.create_record(copy_key(&key1), b"beta".to_vec()).unwrap();
    let id3 = client.create_record(copy_key(&key2), b"gamma".to_vec()).unwrap();
    client.revoke_record_by_id(id1, copy_key(&key1)).unwrap();

    let snapshot = snapshot_of(&client);
    let mut restored = Client::new_from_snapshot(snapshot);

    for key in [&key1, &key2] {
        let mut want = client.list_valid_ids_for_vault(copy_key(key)).unwrap();
        let mut got = restored.list_valid_ids_for_vault(copy_key(key)).unwrap();
        want.sort();
        got.sort();
        assert_eq!(want, got);
    }
    assert_eq!(restored.read_record(copy_key(&key1), id1), Err(VaultError::NotFound));
    assert_eq!(restored.read_record(copy_key(&key1), id2).unwrap(), b"beta".to_vec());
    assert_eq!(restored.read_record(copy_key(&key2), id3).unwrap(), b"gamma".to_vec());
}

#[test]
fn restored_client_reads_like_the_original() {
    let key = key_of(b"one vault");
    let mut client = client_with_vault(&key);
    let id_kept = client.create_record(copy_key(&key), b"kept".to_vec()).unwrap();
    let id_gone = client.create_record(copy_key(&key), b"gone".to_vec()).unwrap();
    client.revoke_record_by_id(id_gone, copy_key(&key)).unwrap();
    let mut restored = stronghold_vault::client::restored_from_snapshot(&client);
    assert_eq!(restored.id, client.id);
    assert_eq!(restored.read_record(copy_key(&key), id_kept).unwrap(), b"kept".to_vec());
    assert_eq!(restored.read_record(copy_key(&key), id_gone), Err(VaultError::NotFound));
}

#[test]
fn truncate_then_write_leaves_one_live_entry() {
    let key = key_of(b"abc");
    let id = RecordId(11);
    let view = DBView::load(copy_key(&key), &Vec::new());
    let mut writer = view.writer(id);
    let mut log: Vec<ReadResult> = Vec::new();
    log.push(write_to_read(&writer.truncate()));
    for req in writer.write(&b"payload".to_vec(), RecordHint::empty()) {
        log.push(write_to_read(&req));
    }
    let reloaded = DBView::load(copy_key(&key), &log);
    let ids = reloaded.list_live_ids();
    assert_eq!(ids, vec![id]);
    assert_eq!(reloaded.get(id).unwrap(), b"payload".to_vec());
}

#[test]
fn second_write_to_same_id_wins() {
    let key = key_of(b"abc");
    let id = RecordId(11);
    let view = DBView::load(copy_key(&key), &Vec::new());
    let mut writer = view.writer(id);
    let mut log: Vec<ReadResult> = Vec::new();
    for req in writer.write(&b"old".to_vec(), RecordHint::empty()) {
        log.push(write_to_read(&req));
    }
    for req in writer.write(&b"new".to_vec(), RecordHint::empty()) {
        log.push(write_to_read(&req));
    }
    let reloaded = DBView::load(copy_key(&key), &log);
    assert_eq!(reloaded.list_live_ids(), vec![id]);
    assert_eq!(reloaded.get(id).unwrap(), b"new".to_vec());
}

#[test]
fn reading_under_a_different_key_fails_as_corruption() {
    let key1 = key_of(&[1, 2, 3]);
    let key2 = key_of(&[4, 5, 6]);
    let id = RecordId(11);
    let view = DBView::load(copy_key(&key1), &Vec::new());
    let mut writer = view.writer(id);
    let mut log: Vec<ReadResult> = Vec::new();
    log.push(write_to_read(&writer.truncate()));
    for req in writer.write(&b"payload".to_vec(), RecordHint::empty()) {
        log.push(write_to_read(&req));
    }
    let wrong = DBView::load(copy_key(&key2), &log);
    assert_eq!(wrong.get(id), Err(VaultError::WrongKeyOrCorruption));
}

#[test]
fn operations_on_unregistered_vault_are_refused() {
    let key = key_of(b"registered");
    let other = key_of(b"never registered");
    let mut client = client_with_vault(&key);
    assert_eq!(
        client.create_record(copy_key(&other), b"data".to_vec()),
        Err(VaultError::UnknownVault)
    );
    assert_eq!(client.read_record(copy_key(&other), RecordId(1)), Err(VaultError::UnknownVault));
    assert_eq!(
        client.revoke_record_by_id(RecordId(1), copy_key(&other)),
        Err(VaultError::UnknownVault)
    );
    assert_eq!(client.preform_gc(copy_key(&other)), Err(VaultError::UnknownVault));
    assert_eq!(
        client.list_valid_ids_for_vault(copy_key(&other)),
        Err(VaultError::UnknownVault)
    );
}

#[test]
fn adding_a_vault_twice_keeps_its_log() {
    let key = key_of(b"abc");
    let mut client = client_with_vault(&key);
    let id = client.create_record(copy_key(&key), b"kept".to_vec()).unwrap();
    client.add_vault(&key);
    assert_eq!(client.read_record(copy_key(&key), id).unwrap(), b"kept".to_vec());
}

#[test]
fn hint_length_is_bounded() {
    assert!(RecordHint::new(vec![0u8; 24]).is_some());
    assert!(RecordHint::new(vec![0u8; 25]).is_none());
}

#[test]
fn cipher_layout_under_trivial_keys() {
    // a single zero key byte leaves the keystream at zero: the ciphertext is
    // the seal tag followed by the payload in the clear
    let key = key_of(&[0]);
    let ct = encrypt(&key, &vec![7, 8]);
    assert_eq!(ct, vec![86, 76, 84, 49, 7, 8]);
    assert_eq!(decrypt(&key, &ct).unwrap(), vec![7, 8]);
    // an all-ones key byte inverts every bit
    let inv = key_of(&[0xff]);
    let ct2 = encrypt(&inv, &vec![7]);
    assert_eq!(ct2, vec![!86u8, !76, !84, !49, !7]);
    assert_eq!(decrypt(&inv, &ct2).unwrap(), vec![7]);
}

#[test]
fn random_keys_and_ids_are_drawn() {
    let key = Key::random();
    assert_eq!(key.bytes.len(), 32);
    let mut client = Client::new(RecordId::random(), Bucket::new());
    client.add_vault(&key);
    let payload = b"drawn at random".to_vec();
    let id = client.create_record(copy_key(&key), payload.clone()).unwrap();
    assert_eq!(client.read_record(copy_key(&key), id).unwrap(), payload);
}

#[test]
fn tombstone_kinds_both_erase() {
    let key = key_of(b"abc");
    let id = RecordId(11);
    let view = DBView::load(copy_key(&key), &Vec::new());
    let mut writer = view.writer(id);
    let mut log: Vec<ReadResult> = Vec::new();
    for req in writer.write(&b"payload".to_vec(), RecordHint::empty()) {
        log.push(write_to_read(&req));
    }
    let mut revoked = Vec::new();
    for e in &log {
        revoked.push(ReadResult::new(e.kind, e.id, RecordHint::empty(), e.data.clone()));
    }
    revoked.push(ReadResult::new(Kind::Revoke, id, RecordHint::empty(), Vec::new()));
    assert!(!DBView::load(copy_key(&key), &revoked).contains(id));
    log.push(write_to_read(&writer.truncate()));
    assert!(!DBView::load(copy_key(&key), &log).contains(id));
}
