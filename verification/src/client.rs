use vstd::prelude::*;
use crate::types::{EntryV, Key, ReadResult, RecordId, VaultError, copy_bytes, copy_key,
    revoke_entry, truncate_entry, write_entry};
use crate::crypto::{decrypt_spec, encrypt_spec};
use crate::replay::{all_writes, copy_entries, distinct_ids, entries_view};
use crate::bucket::{Bucket, Vault, lemma_same_logs_same_views, lists_id};

verus! {

/// Binds one caller identity to one bucket and exposes the vault operations
/// over it; every call passes straight through to the bucket.
pub struct Client {
    pub id: RecordId,
    pub blobs: Bucket,
}

/// The durable boundary form of a whole client: its identity, the keys of
/// its registered vaults, and each vault's raw persisted log, keyed by the
/// vault's identifying bytes.
pub struct Snapshot {
    pub id: RecordId,
    pub keys: Vec<Key>,
    pub state: Vec<(Vec<u8>, Vec<ReadResult>)>,
}

impl Snapshot {
    /// A snapshot's state is a mapping: one entry per vault identifier.
    pub open spec fn wf(self) -> bool {
        forall|i: int, j: int|
            0 <= i < self.state@.len() && 0 <= j < self.state@.len() && i != j
                ==> (#[trigger] self.state@[i]).0@ != (#[trigger] self.state@[j]).0@
    }
}

impl Client {
    pub open spec fn wf(self) -> bool {
        self.blobs.wf()
    }

    /// Whether the key bytes name a vault registered with this client.
    pub open spec fn has_vault(self, kb: Seq<u8>) -> bool {
        self.blobs.has_vault(kb)
    }

    /// The live view of the vault the key bytes name.
    pub open spec fn live_view(self, kb: Seq<u8>) -> Map<u64, EntryV> {
        self.blobs.live_view(kb)
    }

    /// Binds an identity to a bucket.
    pub fn new(id: RecordId, blobs: Bucket) -> (r: Client)
        ensures
            r.id == id,
            r.blobs == blobs,
    {
        Client { id, blobs }
    }

    /// Reconstructs a client from a snapshot by installing each raw per-key
    /// log into a fresh bucket; no cryptographic validation happens here, it
    /// is deferred to the first load.
    pub fn new_from_snapshot(snapshot: Snapshot) -> (r: Client)
        requires
            snapshot.wf(),
        ensures
            r.wf(),
            r.id == snapshot.id,
            r.blobs.vaults@.len() == snapshot.state@.len(),
            forall|i: int|
                0 <= i < snapshot.state@.len()
                    ==> (#[trigger] r.blobs.vaults@[i]).key@ == snapshot.state@[i].0@
                    && entries_view(r.blobs.vaults@[i].log@) == entries_view(
                    snapshot.state@[i].1@,
                ),
    {
        let id = snapshot.id;
        let mut st = snapshot.state;
        let ghost orig = st@;
        let mut vaults: Vec<Vault> = Vec::new();
        while st.len() > 0
            invariant
                vaults@.len() + st@.len() == orig.len(),
                st@ == orig.skip(vaults@.len() as int),
                forall|i: int|
                    0 <= i < vaults@.len() ==> (#[trigger] vaults@[i]).key@ == orig[i].0@
                        && vaults@[i].log@ == orig[i].1@,
            decreases st@.len(),
        {
            let ghost k = vaults@.len() as int;
            let pair = st.remove(0);
            proof {
                assert(pair == orig.skip(k)[0]);
                assert(orig.skip(k)[0] == orig[k]);
                assert(orig.skip(k).remove(0) =~= orig.skip(k + 1));
            }
            let (kb, log) = pair;
            vaults.push(Vault { key: Key { bytes: kb }, log });
        }
        proof {
            assert forall|i: int, j: int|
                0 <= i < vaults@.len() && 0 <= j < vaults@.len() && i != j
                    implies (#[trigger] vaults@[i]).key@ != (#[trigger] vaults@[j]).key@ by {
                assert(vaults@[i].key@ == orig[i].0@);
                assert(vaults@[j].key@ == orig[j].0@);
            }
        }
        Client { id, blobs: Bucket { vaults } }
    }

    /// Registers an empty vault for a new key; a key already registered
    /// keeps its log untouched.
    pub fn add_vault(&mut self, key: &Key)
        requires
            old(self).wf(),
        ensures
            final(self).wf(),
            final(self).id == old(self).id,
            final(self).has_vault(key@),
            forall|kb: Seq<u8>| #[trigger] final(self).has_vault(kb)
                <==> (old(self).has_vault(kb) || kb == key@),
            forall|kb: Seq<u8>| #[trigger] old(self).has_vault(kb)
                ==> final(self).blobs.vault_log(kb) == old(self).blobs.vault_log(kb),
            !old(self).has_vault(key@) ==> final(self).blobs.vault_log(key@)
                == Seq::<EntryV>::empty(),
    {
        self.blobs.add_vault(key);
    }

    /// Creates a record under this client's vault for the key and returns
    /// its freshly drawn id.
    pub fn create_record(&mut self, key: Key, payload: Vec<u8>) -> (r: Result<
        RecordId,
        VaultError,
    >)
        requires
            old(self).wf(),
        ensures
            final(self).wf(),
            final(self).id == old(self).id,
            r is Ok <==> old(self).has_vault(key@),
            r is Err ==> *final(self) == *old(self) && r == Err::<RecordId, VaultError>(
                VaultError::UnknownVault,
            ),
            r matches Ok(id) ==> {
                &&& forall|kb: Seq<u8>| #[trigger] final(self).has_vault(kb)
                    <==> old(self).has_vault(kb)
                &&& forall|kb: Seq<u8>| #[trigger] old(self).has_vault(kb) && kb != key@
                    ==> final(self).blobs.vault_log(kb) == old(self).blobs.vault_log(kb)
                &&& final(self).blobs.vault_log(key@) == old(self).blobs.vault_log(key@).push(
                    truncate_entry(id.0),
                ).push(write_entry(id.0, Seq::<u8>::empty(), encrypt_spec(key@, payload@)))
                &&& final(self).live_view(key@) == old(self).live_view(key@).insert(
                    id.0,
                    write_entry(id.0, Seq::<u8>::empty(), encrypt_spec(key@, payload@)),
                )
                &&& decrypt_spec(key@, final(self).live_view(key@)[id.0].data) == Some(payload@)
            },
    {
        self.blobs.create_record(&key, &payload)
    }

    /// Reads the payload of a live record under the key's vault.
    pub fn read_record(&mut self, key: Key, id: RecordId) -> (r: Result<Vec<u8>, VaultError>)
        requires
            old(self).wf(),
        ensures
            *final(self) == *old(self),
            !old(self).has_vault(key@) ==> r == Err::<Vec<u8>, VaultError>(
                VaultError::UnknownVault,
            ),
            old(self).has_vault(key@) ==> {
                let m = old(self).live_view(key@);
                &&& !m.dom().contains(id.0) ==> r == Err::<Vec<u8>, VaultError>(
                    VaultError::NotFound,
                )
                &&& m.dom().contains(id.0) ==> (match decrypt_spec(key@, m[id.0].data) {
                    Some(p) => r matches Ok(v) && v@ == p,
                    None => r == Err::<Vec<u8>, VaultError>(VaultError::WrongKeyOrCorruption),
                })
            },
    {
        self.blobs.read_record(id, &key)
    }

    /// Compacts the key's vault, dropping dead entries without changing the
    /// live view.
    pub fn preform_gc(&mut self, key: Key) -> (r: Result<(), VaultError>)
        requires
            old(self).wf(),
        ensures
            final(self).wf(),
            final(self).id == old(self).id,
            r is Ok <==> old(self).has_vault(key@),
            r is Err ==> *final(self) == *old(self) && r == Err::<(), VaultError>(
                VaultError::UnknownVault,
            ),
            r is Ok ==> {
                &&& forall|kb: Seq<u8>| #[trigger] final(self).has_vault(kb)
                    <==> old(self).has_vault(kb)
                &&& forall|kb: Seq<u8>| #[trigger] old(self).has_vault(kb) && kb != key@
                    ==> final(self).blobs.vault_log(kb) == old(self).blobs.vault_log(kb)
                &&& all_writes(final(self).blobs.vault_log(key@))
                &&& distinct_ids(final(self).blobs.vault_log(key@))
                &&& final(self).live_view(key@) == old(self).live_view(key@)
                &&& all_writes(old(self).blobs.vault_log(key@)) && distinct_ids(
                    old(self).blobs.vault_log(key@),
                ) ==> final(self).blobs.vault_log(key@) == old(self).blobs.vault_log(key@)
            },
    {
        self.blobs.garbage_collect(&key)
    }

    /// Logically deletes a record: later reads of its id are not found, and
    /// its dead entries stay in the log until the next garbage collection.
    pub fn revoke_record_by_id(&mut self, id: RecordId, key: Key) -> (r: Result<(), VaultError>)
        requires
            old(self).wf(),
        ensures
            final(self).wf(),
            final(self).id == old(self).id,
            r is Ok <==> old(self).has_vault(key@) && old(self).live_view(key@).dom().contains(
                id.0,
            ),
            r is Err ==> *final(self) == *old(self),
            !old(self).has_vault(key@) ==> r == Err::<(), VaultError>(VaultError::UnknownVault),
            old(self).has_vault(key@) && !old(self).live_view(key@).dom().contains(id.0)
                ==> r == Err::<(), VaultError>(VaultError::NotFound),
            r is Ok ==> {
                &&& forall|kb: Seq<u8>| #[trigger] final(self).has_vault(kb)
                    <==> old(self).has_vault(kb)
                &&& forall|kb: Seq<u8>| #[trigger] old(self).has_vault(kb) && kb != key@
                    ==> final(self).blobs.vault_log(kb) == old(self).blobs.vault_log(kb)
                &&& final(self).blobs.vault_log(key@) == old(self).blobs.vault_log(key@).push(
                    revoke_entry(id.0),
                )
                &&& final(self).live_view(key@) == old(self).live_view(key@).remove(id.0)
                &&& !final(self).live_view(key@).dom().contains(id.0)
            },
    {
        self.blobs.revoke_record(id, &key)
    }

    /// Lists the record ids live under the key's vault, each exactly once.
    pub fn list_valid_ids_for_vault(&mut self, key: Key) -> (r: Result<Vec<RecordId>, VaultError>)
        requires
            old(self).wf(),
        ensures
            *final(self) == *old(self),
            r is Ok <==> old(self).has_vault(key@),
            !old(self).has_vault(key@) ==> r == Err::<Vec<RecordId>, VaultError>(
                VaultError::UnknownVault,
            ),
            r matches Ok(ids) ==> forall|u: u64|
                #[trigger] lists_id(ids@, u) <==> old(self).live_view(key@).dom().contains(u),
            r matches Ok(ids) ==> forall|k1: int, k2: int|
                0 <= k1 < ids@.len() && 0 <= k2 < ids@.len() && k1 != k2
                    ==> (#[trigger] ids@[k1]).0 != (#[trigger] ids@[k2]).0,
    {
        self.blobs.list_all_valid_by_key(&key)
    }
}

/// Captures a client's identity, vault keys and raw per-key logs in their
/// durable boundary form.
pub fn snapshot_of(client: &Client) -> (r: Snapshot)
    ensures
        r.id == client.id,
        client.wf() ==> r.wf(),
        r.keys@.len() == client.blobs.vaults@.len(),
        forall|i: int|
            0 <= i < r.keys@.len() ==> (#[trigger] r.keys@[i])@ == client.blobs.vaults@[i].key@,
        r.state@.len() == client.blobs.vaults@.len(),
        forall|i: int|
            0 <= i < r.state@.len() ==> (#[trigger] r.state@[i]).0@
                == client.blobs.vaults@[i].key@ && entries_view(r.state@[i].1@) == entries_view(
                client.blobs.vaults@[i].log@,
            ),
{
    let mut keys: Vec<Key> = Vec::new();
    let mut state: Vec<(Vec<u8>, Vec<ReadResult>)> = Vec::new();
    let mut i: usize = 0;
    while i < client.blobs.vaults.len()
        invariant
            i <= client.blobs.vaults@.len(),
            keys@.len() == i,
            state@.len() == i,
            forall|k: int|
                0 <= k < i ==> (#[trigger] keys@[k])@ == client.blobs.vaults@[k].key@,
            forall|k: int|
                0 <= k < i ==> (#[trigger] state@[k]).0@ == client.blobs.vaults@[k].key@
                    && entries_view(state@[k].1@) == entries_view(client.blobs.vaults@[k].log@),
        decreases client.blobs.vaults@.len() - i,
    {
        let vault = &client.blobs.vaults[i];
        keys.push(copy_key(&vault.key));
        state.push((copy_bytes(&vault.key.bytes), copy_entries(&vault.log)));
        i = i + 1;
    }
    Snapshot { id: client.id, keys, state }
}

/// Capturing a client's snapshot and restoring it reproduces a client with
/// the same identity, the same registered keys, and the same live view -
/// hence the same live record ids and the same payload under every read -
/// for each of them.
pub fn restored_from_snapshot(client: &Client) -> (r: Client)
    requires
        client.wf(),
    ensures
        r.wf(),
        r.id == client.id,
        forall|kb: Seq<u8>| #[trigger] r.has_vault(kb) <==> client.has_vault(kb),
        forall|kb: Seq<u8>| #[trigger] client.has_vault(kb)
            ==> r.live_view(kb) == client.live_view(kb),
{
    let snap = snapshot_of(client);
    let r = Client::new_from_snapshot(snap);
    proof {
        lemma_same_logs_same_views(client.blobs, r.blobs);
    }
    r
}

} // verus!
