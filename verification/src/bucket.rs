use vstd::prelude::*;
use crate::types::{EntryV, Key, Kind, ReadResult, RecordHint, RecordId, VaultError, copy_key,
    revoke_entry, truncate_entry, write_entry, write_to_read, eq_bytes};
use crate::crypto::{decrypt_spec, encrypt_spec, lemma_encrypt_round_trip};
use crate::replay::{DBView, all_writes, distinct_ids, entries_view, has_id, idx_of, live_after,
    lemma_compact_replays, lemma_tombstone_removes, lemma_truncate_then_write};

verus! {

/// One registered vault: the key that protects it and its append-only log.
pub struct Vault {
    pub key: Key,
    pub log: Vec<ReadResult>,
}

/// Whether some vault of the sequence is protected by the key bytes.
pub open spec fn vs_has(vs: Seq<Vault>, kb: Seq<u8>) -> bool {
    exists|i: int| 0 <= i < vs.len() && (#[trigger] vs[i]).key@ == kb
}

/// The position of the vault the key bytes protect, where one exists.
pub open spec fn vs_at(vs: Seq<Vault>, kb: Seq<u8>) -> int {
    choose|i: int| 0 <= i < vs.len() && (#[trigger] vs[i]).key@ == kb
}

/// No two vaults of the sequence share key bytes.
pub open spec fn keys_distinct(vs: Seq<Vault>) -> bool {
    forall|i: int, j: int|
        0 <= i < vs.len() && 0 <= j < vs.len() && i != j
            ==> (#[trigger] vs[i]).key@ != (#[trigger] vs[j]).key@
}

/// Among vaults with distinct keys, the vault at any position is the one its
/// key resolves to.
pub proof fn lemma_vault_pos(vs: Seq<Vault>, j: int)
    requires
        keys_distinct(vs),
        0 <= j < vs.len(),
    ensures
        vs_has(vs, vs[j].key@),
        vs_at(vs, vs[j].key@) == j,
{
    assert(vs_has(vs, vs[j].key@));
    let k = vs_at(vs, vs[j].key@);
    assert(0 <= k < vs.len() && vs[k].key@ == vs[j].key@);
    if k != j {
        assert(vs[k].key@ != vs[j].key@);
    }
}

/// Replacing one vault by another under the same key leaves every lookup in
/// place.
pub proof fn lemma_vaults_replace(pre: Seq<Vault>, post: Seq<Vault>, idx: int)
    requires
        keys_distinct(pre),
        0 <= idx < pre.len(),
        post.len() == pre.len(),
        forall|i: int| 0 <= i < pre.len() && i != idx ==> post[i] == pre[i],
        post[idx].key@ == pre[idx].key@,
    ensures
        keys_distinct(post),
        forall|kb: Seq<u8>| #[trigger] vs_has(post, kb) <==> vs_has(pre, kb),
        forall|kb: Seq<u8>| #[trigger] vs_has(pre, kb) ==> vs_at(post, kb) == vs_at(pre, kb),
{
    assert(forall|i: int| 0 <= i < pre.len() ==> (#[trigger] post[i]).key@ == pre[i].key@);
    assert forall|kb: Seq<u8>| #[trigger] vs_has(post, kb) <==> vs_has(pre, kb) by {
        if vs_has(post, kb) {
            let k = vs_at(post, kb);
            assert(0 <= k < post.len() && post[k].key@ == kb);
            assert(pre[k].key@ == kb);
        }
        if vs_has(pre, kb) {
            let k = vs_at(pre, kb);
            assert(0 <= k < pre.len() && pre[k].key@ == kb);
            assert(post[k].key@ == kb);
        }
    }
    assert forall|i: int, j: int|
        0 <= i < post.len() && 0 <= j < post.len() && i != j
            implies post[i].key@ != post[j].key@ by {
        assert(post[i].key@ == pre[i].key@);
        assert(post[j].key@ == pre[j].key@);
    }
    assert forall|kb: Seq<u8>| #[trigger] vs_has(pre, kb) implies vs_at(post, kb) == vs_at(pre, kb) by {
        let j = vs_at(pre, kb);
        assert(0 <= j < pre.len() && pre[j].key@ == kb);
        assert(post[j].key@ == kb);
        lemma_vault_pos(post, j);
    }
}

/// Two buckets whose vaults stand in the same order, under the same keys,
/// with logs that spell the same entries, register the same keys and leave
/// the same records live under each: replay is a function of the log alone.
/// This is what makes a snapshot round trip exact.
pub proof fn lemma_same_logs_same_views(a: Bucket, b: Bucket)
    requires
        a.wf(),
        b.wf(),
        a.vaults@.len() == b.vaults@.len(),
        forall|i: int|
            0 <= i < a.vaults@.len() ==> (#[trigger] b.vaults@[i]).key@ == a.vaults@[i].key@
                && entries_view(b.vaults@[i].log@) == entries_view(a.vaults@[i].log@),
    ensures
        forall|kb: Seq<u8>| #[trigger] b.has_vault(kb) <==> a.has_vault(kb),
        forall|kb: Seq<u8>| #[trigger] a.has_vault(kb)
            ==> b.vault_log(kb) == a.vault_log(kb) && b.live_view(kb) == a.live_view(kb),
{
    assert forall|kb: Seq<u8>| #[trigger] b.has_vault(kb) <==> a.has_vault(kb) by {
        if vs_has(b.vaults@, kb) {
            let k = vs_at(b.vaults@, kb);
            assert(0 <= k < b.vaults@.len() && b.vaults@[k].key@ == kb);
            assert(a.vaults@[k].key@ == kb);
        }
        if vs_has(a.vaults@, kb) {
            let k = vs_at(a.vaults@, kb);
            assert(0 <= k < a.vaults@.len() && a.vaults@[k].key@ == kb);
            assert(b.vaults@[k].key@ == kb);
        }
    }
    assert forall|kb: Seq<u8>| #[trigger] a.has_vault(kb)
        implies b.vault_log(kb) == a.vault_log(kb) && b.live_view(kb) == a.live_view(kb) by {
        let k = vs_at(a.vaults@, kb);
        assert(0 <= k < a.vaults@.len() && a.vaults@[k].key@ == kb);
        assert(b.vaults@[k].key@ == kb);
        lemma_vault_pos(b.vaults@, k);
    }
}

/// Whether a listed id sequence carries a record id value.
pub open spec fn lists_id(s: Seq<RecordId>, u: u64) -> bool {
    exists|k: int| 0 <= k < s.len() && (#[trigger] s[k]).0 == u
}

/// The multi-vault store: owns the persisted log of every registered key and
/// is the only component that mutates physical storage.
pub struct Bucket {
    pub vaults: Vec<Vault>,
}

impl Bucket {
    /// Every registered key protects exactly one vault.
    pub open spec fn wf(self) -> bool {
        keys_distinct(self.vaults@)
    }

    /// Whether the key bytes name a registered vault.
    pub open spec fn has_vault(self, kb: Seq<u8>) -> bool {
        vs_has(self.vaults@, kb)
    }

    /// The log of the vault the key bytes name.
    pub open spec fn vault_log(self, kb: Seq<u8>) -> Seq<EntryV> {
        entries_view(self.vaults@[vs_at(self.vaults@, kb)].log@)
    }

    /// The live view of the vault the key bytes name: what replaying its log
    /// leaves bound.
    pub open spec fn live_view(self, kb: Seq<u8>) -> Map<u64, EntryV> {
        live_after(self.vault_log(kb))
    }

    /// An empty store with no registered vault.
    pub fn new() -> (r: Bucket)
        ensures
            r.wf(),
            forall|kb: Seq<u8>| !(#[trigger] r.has_vault(kb)),
    {
        Bucket { vaults: Vec::new() }
    }

    /// Looks up the position of the vault a key names.
    fn find_vault(&self, key: &Key) -> (r: Option<usize>)
        requires
            self.wf(),
        ensures
            match r {
                Some(j) => j < self.vaults@.len() && self.vaults@[j as int].key@ == key@
                    && self.has_vault(key@) && vs_at(self.vaults@, key@) == j,
                None => !self.has_vault(key@),
            },
    {
        let mut i: usize = 0;
        while i < self.vaults.len()
            invariant
                self.wf(),
                i <= self.vaults@.len(),
                forall|k: int| 0 <= k < i ==> (#[trigger] self.vaults@[k]).key@ != key@,
            decreases self.vaults@.len() - i,
        {
            if eq_bytes(&self.vaults[i].key.bytes, &key.bytes) {
                proof {
                    lemma_vault_pos(self.vaults@, i as int);
                }
                return Some(i);
            }
            i = i + 1;
        }
        None
    }

    /// Registers an empty log for a new key; a key already registered keeps
    /// its log untouched.
    pub fn add_vault(&mut self, key: &Key)
        requires
            old(self).wf(),
        ensures
            final(self).wf(),
            final(self).has_vault(key@),
            forall|kb: Seq<u8>| #[trigger] final(self).has_vault(kb)
                <==> (old(self).has_vault(kb) || kb == key@),
            forall|kb: Seq<u8>| #[trigger] old(self).has_vault(kb)
                ==> final(self).vault_log(kb) == old(self).vault_log(kb),
            !old(self).has_vault(key@) ==> final(self).vault_log(key@) == Seq::<EntryV>::empty(),
    {
        match self.find_vault(key) {
            Some(_) => {},
            None => {
                let ghost pre = self.vaults@;
                self.vaults.push(Vault { key: copy_key(key), log: Vec::new() });
                proof {
                    let post = self.vaults@;
                    let n = pre.len() as int;
                    assert forall|i: int, j: int|
                        0 <= i < post.len() && 0 <= j < post.len() && i != j
                            implies post[i].key@ != post[j].key@ by {
                        if i < n && j < n {
                        } else if i == n {
                            if post[j].key@ == key@ {
                                assert(pre[j].key@ == key@);
                                assert(vs_has(pre, key@));
                            }
                        } else {
                            if post[i].key@ == key@ {
                                assert(pre[i].key@ == key@);
                                assert(vs_has(pre, key@));
                            }
                        }
                    }
                    assert(post[n].key@ == key@);
                    assert forall|kb: Seq<u8>| #[trigger] vs_has(post, kb)
                        implies (vs_has(pre, kb) || kb == key@) by {
                        let k = vs_at(post, kb);
                        assert(0 <= k < post.len() && post[k].key@ == kb);
                        if k < n {
                            assert(pre[k].key@ == kb);
                        }
                    }
                    assert forall|kb: Seq<u8>| #[trigger] vs_has(pre, kb)
                        implies vs_has(post, kb) && vs_at(post, kb) == vs_at(pre, kb) by {
                        let k = vs_at(pre, kb);
                        assert(0 <= k < pre.len() && pre[k].key@ == kb);
                        assert(post[k].key@ == kb);
                        lemma_vault_pos(post, k);
                    }
                    lemma_vault_pos(post, n);
                    assert(entries_view(Seq::<ReadResult>::empty()) =~= Seq::<EntryV>::empty());
                }
            },
        }
    }

    /// Creates a new record under a freshly drawn id: loads the key's view,
    /// lets a writer truncate and then write the encrypted payload, and
    /// appends the emitted entries as one unit.
    pub fn create_record(&mut self, key: &Key, payload: &Vec<u8>) -> (r: Result<
        RecordId,
        VaultError,
    >)
        requires
            old(self).wf(),
        ensures
            final(self).wf(),
            r is Ok <==> old(self).has_vault(key@),
            r is Err ==> *final(self) == *old(self) && r == Err::<RecordId, VaultError>(
                VaultError::UnknownVault,
            ),
            r matches Ok(id) ==> {
                &&& forall|kb: Seq<u8>| #[trigger] final(self).has_vault(kb)
                    <==> old(self).has_vault(kb)
                &&& forall|kb: Seq<u8>| #[trigger] old(self).has_vault(kb) && kb != key@
                    ==> final(self).vault_log(kb) == old(self).vault_log(kb)
                &&& final(self).vault_log(key@) == old(self).vault_log(key@).push(
                    truncate_entry(id.0),
                ).push(write_entry(id.0, Seq::<u8>::empty(), encrypt_spec(key@, payload@)))
                &&& final(self).live_view(key@) == old(self).live_view(key@).insert(
                    id.0,
                    write_entry(id.0, Seq::<u8>::empty(), encrypt_spec(key@, payload@)),
                )
                &&& decrypt_spec(key@, final(self).live_view(key@)[id.0].data) == Some(payload@)
            },
    {
        let idx = match self.find_vault(key) {
            None => { return Err(VaultError::UnknownVault); },
            Some(i) => i,
        };
        let id = RecordId::random();
        let view = DBView::load(copy_key(key), &self.vaults[idx].log);
        let mut w = view.writer(id);
        let t = w.truncate();
        let reqs = w.write(payload, RecordHint::empty());
        let ghost pre = self.vaults@;
        let ghost old_log = entries_view(pre[idx as int].log@);
        let mut vault = self.vaults.remove(idx);
        vault.log.push(write_to_read(&t));
        vault.log.push(write_to_read(&reqs[0]));
        self.vaults.insert(idx, vault);
        proof {
            let post = self.vaults@;
            assert(post =~= pre.update(idx as int, post[idx as int]));
            lemma_vaults_replace(pre, post, idx as int);
            let tv = truncate_entry(id.0);
            let wv = write_entry(id.0, Seq::<u8>::empty(), encrypt_spec(key@, payload@));
            assert(entries_view(post[idx as int].log@) =~= old_log.push(tv).push(wv));
            lemma_truncate_then_write(old_log, tv, wv);
            lemma_encrypt_round_trip(key@, payload@);
            assert(vs_at(pre, key@) == idx as int);
        }
        Ok(id)
    }

    /// Reads the payload of a live record: loads the key's current view,
    /// resolves the id and decrypts. An id that was never written or was
    /// revoked is not found.
    pub fn read_record(&self, id: RecordId, key: &Key) -> (r: Result<Vec<u8>, VaultError>)
        requires
            self.wf(),
        ensures
            !self.has_vault(key@) ==> r == Err::<Vec<u8>, VaultError>(VaultError::UnknownVault),
            self.has_vault(key@) ==> {
                let m = self.live_view(key@);
                &&& !m.dom().contains(id.0) ==> r == Err::<Vec<u8>, VaultError>(
                    VaultError::NotFound,
                )
                &&& m.dom().contains(id.0) ==> (match decrypt_spec(key@, m[id.0].data) {
                    Some(p) => r matches Ok(v) && v@ == p,
                    None => r == Err::<Vec<u8>, VaultError>(VaultError::WrongKeyOrCorruption),
                })
            },
    {
        let idx = match self.find_vault(key) {
            None => { return Err(VaultError::UnknownVault); },
            Some(i) => i,
        };
        let view = DBView::load(copy_key(key), &self.vaults[idx].log);
        view.get(id)
    }

    /// Logically deletes a live record by appending a revoke tombstone; its
    /// dead entries stay in the log until the next garbage collection.
    /// Revoking an id that is not live reports it as not found.
    pub fn revoke_record(&mut self, id: RecordId, key: &Key) -> (r: Result<(), VaultError>)
        requires
            old(self).wf(),
        ensures
            final(self).wf(),
            r is Ok <==> old(self).has_vault(key@) && old(self).live_view(key@).dom().contains(
                id.0,
            ),
            r is Err ==> *final(self) == *old(self),
            !old(self).has_vault(key@) ==> r == Err::<(), VaultError>(VaultError::UnknownVault),
            old(self).has_vault(key@) && !old(self).live_view(key@).dom().contains(id.0)
                ==> r == Err::<(), VaultError>(VaultError::NotFound),
            r is Ok ==> {
                &&& forall|kb: Seq<u8>| #[trigger] final(self).has_vault(kb)
                    <==> old(self).has_vault(kb)
                &&& forall|kb: Seq<u8>| #[trigger] old(self).has_vault(kb) && kb != key@
                    ==> final(self).vault_log(kb) == old(self).vault_log(kb)
                &&& final(self).vault_log(key@) == old(self).vault_log(key@).push(
                    revoke_entry(id.0),
                )
                &&& final(self).live_view(key@) == old(self).live_view(key@).remove(id.0)
                &&& !final(self).live_view(key@).dom().contains(id.0)
            },
    {
        let idx = match self.find_vault(key) {
            None => { return Err(VaultError::UnknownVault); },
            Some(i) => i,
        };
        let view = DBView::load(copy_key(key), &self.vaults[idx].log);
        if !view.contains(id) {
            return Err(VaultError::NotFound);
        }
        let ghost pre = self.vaults@;
        let ghost old_log = entries_view(pre[idx as int].log@);
        let mut vault = self.vaults.remove(idx);
        vault.log.push(ReadResult::new(Kind::Revoke, id, RecordHint::empty(), Vec::new()));
        self.vaults.insert(idx, vault);
        proof {
            let post = self.vaults@;
            assert(post =~= pre.update(idx as int, post[idx as int]));
            lemma_vaults_replace(pre, post, idx as int);
            let rv = revoke_entry(id.0);
            assert(entries_view(post[idx as int].log@) =~= old_log.push(rv));
            lemma_tombstone_removes(old_log, rv);
            assert(vs_at(pre, key@) == idx as int);
        }
        Ok(())
    }

    /// Compacts the key's log: keeps exactly the entries its current view
    /// still considers live and drops every superseded entry and every
    /// tombstone. The live view is unchanged, and compacting an already
    /// compacted log leaves it as it is.
    pub fn garbage_collect(&mut self, key: &Key) -> (r: Result<(), VaultError>)
        requires
            old(self).wf(),
        ensures
            final(self).wf(),
            r is Ok <==> old(self).has_vault(key@),
            r is Err ==> *final(self) == *old(self) && r == Err::<(), VaultError>(
                VaultError::UnknownVault,
            ),
            r is Ok ==> {
                &&& forall|kb: Seq<u8>| #[trigger] final(self).has_vault(kb)
                    <==> old(self).has_vault(kb)
                &&& forall|kb: Seq<u8>| #[trigger] old(self).has_vault(kb) && kb != key@
                    ==> final(self).vault_log(kb) == old(self).vault_log(kb)
                &&& all_writes(final(self).vault_log(key@))
                &&& distinct_ids(final(self).vault_log(key@))
                &&& final(self).live_view(key@) == old(self).live_view(key@)
                &&& all_writes(old(self).vault_log(key@)) && distinct_ids(
                    old(self).vault_log(key@),
                ) ==> final(self).vault_log(key@) == old(self).vault_log(key@)
            },
    {
        let idx = match self.find_vault(key) {
            None => { return Err(VaultError::UnknownVault); },
            Some(i) => i,
        };
        let view = DBView::load(copy_key(key), &self.vaults[idx].log);
        let ghost vm = view.live_map();
        let ghost vs = view.live_seq();
        let compacted = view.into_live_entries();
        let ghost pre = self.vaults@;
        let ghost old_log = entries_view(pre[idx as int].log@);
        let mut vault = self.vaults.remove(idx);
        vault.log = compacted;
        self.vaults.insert(idx, vault);
        proof {
            let post = self.vaults@;
            assert(post =~= pre.update(idx as int, post[idx as int]));
            lemma_vaults_replace(pre, post, idx as int);
            assert(vs_at(pre, key@) == idx as int);
            assert(entries_view(post[idx as int].log@) == vs);
            lemma_compact_replays(vs);
        }
        Ok(())
    }

    /// Lists the record ids a fresh view load of the key's log leaves live:
    /// each exactly once.
    pub fn list_all_valid_by_key(&self, key: &Key) -> (r: Result<Vec<RecordId>, VaultError>)
        requires
            self.wf(),
        ensures
            r is Ok <==> self.has_vault(key@),
            !self.has_vault(key@) ==> r == Err::<Vec<RecordId>, VaultError>(
                VaultError::UnknownVault,
            ),
            r matches Ok(ids) ==> forall|u: u64|
                #[trigger] lists_id(ids@, u) <==> self.live_view(key@).dom().contains(u),
            r matches Ok(ids) ==> forall|k1: int, k2: int|
                0 <= k1 < ids@.len() && 0 <= k2 < ids@.len() && k1 != k2
                    ==> (#[trigger] ids@[k1]).0 != (#[trigger] ids@[k2]).0,
    {
        let idx = match self.find_vault(key) {
            None => { return Err(VaultError::UnknownVault); },
            Some(i) => i,
        };
        let view = DBView::load(copy_key(key), &self.vaults[idx].log);
        let ids = view.list_live_ids();
        proof {
            assert(vs_at(self.vaults@, key@) == idx as int);
            let m = self.live_view(key@);
            let vs = view.live_seq();
            assert(m == view.live_map());
            assert forall|k1: int, k2: int|
                0 <= k1 < ids@.len() && 0 <= k2 < ids@.len() && k1 != k2
                    implies (#[trigger] ids@[k1]).0 != (#[trigger] ids@[k2]).0 by {
                assert(vs[k1].id == ids@[k1].0);
                assert(vs[k2].id == ids@[k2].0);
            }
            assert forall|u: u64| #[trigger] lists_id(ids@, u) <==> m.dom().contains(u) by {
                if lists_id(ids@, u) {
                    let k = choose|k: int| 0 <= k < ids@.len() && (#[trigger] ids@[k]).0 == u;
                    assert(vs[k].id == ids@[k].0);
                    assert(has_id(vs, vs[k].id));
                }
                if m.dom().contains(u) {
                    let k = idx_of(vs, u);
                    assert(0 <= k < vs.len() && vs[k].id == u);
                    assert(ids@[k].0 == u);
                    assert(lists_id(ids@, u));
                }
            }
        }
        Ok(ids)
    }
}

} // verus!
