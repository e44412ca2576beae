use vstd::prelude::*;
use vstd::pervasive::VecAdditionalExecFns;
use crate::types::{EntryV, Key, Kind, ReadResult, RecordId, VaultError, copy_entry};
use crate::crypto::{decrypt, decrypt_spec};

verus! {

/// The mathematical value of a persisted log: each entry's value, in order.
pub open spec fn entries_view(s: Seq<ReadResult>) -> Seq<EntryV> {
    Seq::new(s.len(), |i: int| s[i]@)
}

/// The live view after replaying a log in append order: a write entry binds
/// its record id to itself, a tombstone entry unbinds its record id.
pub open spec fn live_after(log: Seq<EntryV>) -> Map<u64, EntryV>
    decreases log.len(),
{
    if log.len() == 0 {
        Map::empty()
    } else {
        let m = live_after(log.drop_last());
        let e = log.last();
        if e.kind == Kind::Write {
            m.insert(e.id, e)
        } else {
            m.remove(e.id)
        }
    }
}

/// Whether some entry of the sequence carries the record id.
pub open spec fn has_id(s: Seq<EntryV>, id: u64) -> bool {
    exists|i: int| 0 <= i < s.len() && (#[trigger] s[i]).id == id
}

/// The position of the entry carrying the record id, where one exists.
pub open spec fn idx_of(s: Seq<EntryV>, id: u64) -> int {
    choose|i: int| 0 <= i < s.len() && (#[trigger] s[i]).id == id
}

/// No two entries of the sequence carry the same record id.
pub open spec fn distinct_ids(s: Seq<EntryV>) -> bool {
    forall|i: int, j: int|
        0 <= i < s.len() && 0 <= j < s.len() && i != j
            ==> (#[trigger] s[i]).id != (#[trigger] s[j]).id
}

/// Every entry of the sequence is a write.
pub open spec fn all_writes(s: Seq<EntryV>) -> bool {
    forall|i: int| 0 <= i < s.len() ==> (#[trigger] s[i]).kind == Kind::Write
}

/// The finite map a sequence of uniquely-keyed entries stands for.
pub open spec fn seq_to_map(s: Seq<EntryV>) -> Map<u64, EntryV> {
    Map::new(|id: u64| has_id(s, id), |id: u64| s[idx_of(s, id)])
}

/// In a sequence of distinct ids, the entry at any position is the one its id
/// resolves to.
pub proof fn lemma_idx_at(s: Seq<EntryV>, j: int)
    requires
        distinct_ids(s),
        0 <= j < s.len(),
    ensures
        has_id(s, s[j].id),
        idx_of(s, s[j].id) == j,
{
    assert(has_id(s, s[j].id));
    let k = idx_of(s, s[j].id);
    assert(0 <= k < s.len() && s[k].id == s[j].id);
    if k != j {
        assert(s[k].id != s[j].id);
    }
}

/// Appending an entry with a fresh id binds exactly that id.
pub proof fn lemma_stm_push(s: Seq<EntryV>, e: EntryV)
    requires
        distinct_ids(s),
        !has_id(s, e.id),
    ensures
        distinct_ids(s.push(e)),
        seq_to_map(s.push(e)) == seq_to_map(s).insert(e.id, e),
{
    let s2 = s.push(e);
    let n = s.len() as int;
    assert forall|i: int, j: int|
        0 <= i < s2.len() && 0 <= j < s2.len() && i != j implies s2[i].id != s2[j].id by {
        if i < n && j < n {
        } else if i == n {
            if s2[j].id == e.id {
                assert(s[j].id == e.id);
                assert(has_id(s, e.id));
            }
        } else {
            if s2[i].id == e.id {
                assert(s[i].id == e.id);
                assert(has_id(s, e.id));
            }
        }
    }
    let m1 = seq_to_map(s2);
    let m2 = seq_to_map(s).insert(e.id, e);
    assert forall|id: u64| m1.dom().contains(id) implies m2.dom().contains(id) by {
        let k = idx_of(s2, id);
        assert(0 <= k < s2.len() && s2[k].id == id);
        if k < n {
            assert(s[k].id == id);
            assert(has_id(s, id));
        }
    }
    assert forall|id: u64| m2.dom().contains(id) implies m1.dom().contains(id) by {
        if id == e.id {
            assert(s2[n].id == id);
        } else {
            let k = idx_of(s, id);
            assert(0 <= k < s.len() && s[k].id == id);
            assert(s2[k].id == id);
        }
    }
    assert forall|id: u64| m1.dom().contains(id) && m2.dom().contains(id) implies m1[id] == m2[id] by {
        if id == e.id {
            lemma_idx_at(s2, n);
            assert(m1[id] == s2[n]);
        } else {
            let k = idx_of(s, id);
            assert(0 <= k < s.len() && s[k].id == id);
            lemma_idx_at(s, k);
            lemma_idx_at(s2, k);
            assert(m1[id] == s2[k]);
            assert(m2[id] == s[k]);
        }
    }
    assert(m1 =~= m2);
}

/// Overwriting the entry that carries an id rebinds exactly that id.
pub proof fn lemma_stm_update(s: Seq<EntryV>, j: int, e: EntryV)
    requires
        distinct_ids(s),
        0 <= j < s.len(),
        s[j].id == e.id,
    ensures
        distinct_ids(s.update(j, e)),
        seq_to_map(s.update(j, e)) == seq_to_map(s).insert(e.id, e),
{
    let s2 = s.update(j, e);
    assert forall|i: int, k: int|
        0 <= i < s2.len() && 0 <= k < s2.len() && i != k implies s2[i].id != s2[k].id by {
        assert(s2[i].id == s[i].id);
        assert(s2[k].id == s[k].id);
    }
    let m1 = seq_to_map(s2);
    let m2 = seq_to_map(s).insert(e.id, e);
    assert forall|id: u64| m1.dom().contains(id) implies m2.dom().contains(id) by {
        let k = idx_of(s2, id);
        assert(0 <= k < s2.len() && s2[k].id == id);
        assert(s[k].id == id);
        assert(has_id(s, id));
    }
    assert forall|id: u64| m2.dom().contains(id) implies m1.dom().contains(id) by {
        if id == e.id {
            assert(s2[j].id == id);
        } else {
            let k = idx_of(s, id);
            assert(0 <= k < s.len() && s[k].id == id);
            assert(s2[k].id == id);
        }
    }
    assert forall|id: u64| m1.dom().contains(id) && m2.dom().contains(id) implies m1[id] == m2[id] by {
        if id == e.id {
            lemma_idx_at(s2, j);
            assert(m1[id] == s2[j]);
        } else {
            let k = idx_of(s, id);
            assert(0 <= k < s.len() && s[k].id == id);
            assert(k != j);
            lemma_idx_at(s, k);
            lemma_idx_at(s2, k);
            assert(m1[id] == s2[k]);
            assert(m2[id] == s[k]);
        }
    }
    assert(m1 =~= m2);
}

/// Removing the entry that carries an id unbinds exactly that id.
pub proof fn lemma_stm_remove(s: Seq<EntryV>, j: int)
    requires
        distinct_ids(s),
        0 <= j < s.len(),
    ensures
        distinct_ids(s.remove(j)),
        seq_to_map(s.remove(j)) == seq_to_map(s).remove(s[j].id),
{
    let s2 = s.remove(j);
    s.remove_ensures(j);
    assert forall|i: int, k: int|
        0 <= i < s2.len() && 0 <= k < s2.len() && i != k implies s2[i].id != s2[k].id by {
        let i0: int = if i < j { i } else { i + 1 };
        let k0: int = if k < j { k } else { k + 1 };
        assert(s2[i] == s[i0]);
        assert(s2[k] == s[k0]);
    }
    let m1 = seq_to_map(s2);
    let m2 = seq_to_map(s).remove(s[j].id);
    assert forall|id: u64| m1.dom().contains(id) implies m2.dom().contains(id) by {
        let k = idx_of(s2, id);
        assert(0 <= k < s2.len() && s2[k].id == id);
        let k0: int = if k < j { k } else { k + 1 };
        assert(s2[k] == s[k0]);
        assert(s[k0].id == id);
        assert(has_id(s, id));
        assert(k0 != j);
        assert(s[j].id != id);
    }
    assert forall|id: u64| m2.dom().contains(id) implies m1.dom().contains(id) by {
        let k = idx_of(s, id);
        assert(0 <= k < s.len() && s[k].id == id);
        assert(id != s[j].id);
        assert(k != j);
        if k < j {
            assert(s2[k] == s[k]);
        } else {
            assert(s2[k - 1] == s[k]);
        }
    }
    assert forall|id: u64| m1.dom().contains(id) && m2.dom().contains(id) implies m1[id] == m2[id] by {
        let k = idx_of(s, id);
        assert(0 <= k < s.len() && s[k].id == id);
        assert(k != j);
        lemma_idx_at(s, k);
        let k2: int = if k < j { k } else { k - 1 };
        assert(s2[k2] == s[k]);
        lemma_idx_at(s2, k2);
        assert(m1[id] == s2[k2]);
        assert(m2[id] == s[k]);
    }
    assert(m1 =~= m2);
}

/// What one appended entry does to the live view.
pub proof fn lemma_live_after_push(log: Seq<EntryV>, e: EntryV)
    ensures
        live_after(log.push(e)) == (if e.kind == Kind::Write {
            live_after(log).insert(e.id, e)
        } else {
            live_after(log).remove(e.id)
        }),
{
    assert(log.push(e).drop_last() =~= log);
    assert(log.push(e).last() == e);
}

/// Replaying an empty log yields an empty live view.
pub proof fn lemma_empty_replay()
    ensures
        live_after(Seq::<EntryV>::empty()) == Map::<u64, EntryV>::empty(),
{
}

/// A record id that no entry of the log carries is absent from the live view.
pub proof fn lemma_never_written_not_live(log: Seq<EntryV>, id: u64)
    requires
        forall|i: int| 0 <= i < log.len() ==> (#[trigger] log[i]).id != id,
    ensures
        !live_after(log).dom().contains(id),
    decreases log.len(),
{
    if log.len() > 0 {
        let l0 = log.drop_last();
        assert(forall|i: int| 0 <= i < l0.len() ==> (#[trigger] l0[i]) == log[i]);
        lemma_never_written_not_live(l0, id);
        assert(log.last() == log[log.len() - 1]);
    }
}

/// A tombstone erases its record id from the live view, whatever stood there.
pub proof fn lemma_tombstone_removes(log: Seq<EntryV>, t: EntryV)
    requires
        t.kind != Kind::Write,
    ensures
        live_after(log.push(t)) == live_after(log).remove(t.id),
        !live_after(log.push(t)).dom().contains(t.id),
{
    lemma_live_after_push(log, t);
}

/// A truncate immediately followed by a write leaves exactly the written
/// entry live for that record id.
pub proof fn lemma_truncate_then_write(log: Seq<EntryV>, t: EntryV, w: EntryV)
    requires
        t.kind != Kind::Write,
        w.kind == Kind::Write,
        t.id == w.id,
    ensures
        live_after(log.push(t).push(w)) == live_after(log).insert(w.id, w),
{
    lemma_live_after_push(log, t);
    lemma_live_after_push(log.push(t), w);
    assert(live_after(log).remove(t.id).insert(w.id, w) =~= live_after(log).insert(w.id, w));
}

/// Of two successive writes to one record id, only the second stays visible.
pub proof fn lemma_second_write_wins(log: Seq<EntryV>, w1: EntryV, w2: EntryV)
    requires
        w1.kind == Kind::Write,
        w2.kind == Kind::Write,
        w1.id == w2.id,
    ensures
        live_after(log.push(w1).push(w2)) == live_after(log).insert(w2.id, w2),
{
    lemma_live_after_push(log, w1);
    lemma_live_after_push(log.push(w1), w2);
    assert(live_after(log).insert(w1.id, w1).insert(w2.id, w2)
        =~= live_after(log).insert(w2.id, w2));
}

/// A compacted log - write entries only, one per record id - replays to
/// exactly the map it spells out. This is why compaction preserves the view
/// and, applied to its own output, changes nothing.
pub proof fn lemma_compact_replays(s: Seq<EntryV>)
    requires
        all_writes(s),
        distinct_ids(s),
    ensures
        live_after(s) == seq_to_map(s),
    decreases s.len(),
{
    if s.len() == 0 {
        assert(seq_to_map(s) =~= Map::<u64, EntryV>::empty());
    } else {
        let s0 = s.drop_last();
        let e = s.last();
        assert(forall|i: int| 0 <= i < s0.len() ==> (#[trigger] s0[i]) == s[i]);
        lemma_compact_replays(s0);
        assert(!has_id(s0, e.id)) by {
            if has_id(s0, e.id) {
                let k = idx_of(s0, e.id);
                assert(0 <= k < s0.len() && s0[k].id == e.id);
                assert(s[k].id == s[s.len() - 1].id);
            }
        }
        lemma_stm_push(s0, e);
        assert(s0.push(e) =~= s);
        assert(e.kind == Kind::Write);
    }
}

/// Copies a persisted log entry by entry.
pub fn copy_entries(src: &Vec<ReadResult>) -> (r: Vec<ReadResult>)
    ensures
        r@.len() == src@.len(),
        entries_view(r@) == entries_view(src@),
{
    let mut out: Vec<ReadResult> = Vec::new();
    let mut i: usize = 0;
    while i < src.len()
        invariant
            i <= src.len(),
            out@.len() == i,
            forall|k: int| 0 <= k < i ==> (#[trigger] out@[k])@ == src@[k]@,
        decreases src.len() - i,
    {
        out.push(copy_entry(&src[i]));
        i = i + 1;
    }
    proof {
        assert(entries_view(out@) =~= entries_view(src@));
    }
    out
}

/// A point-in-time reconstruction of the records a log leaves live: one
/// surviving write entry per live record id.
pub struct DBView {
    pub key: Key,
    pub live: Vec<ReadResult>,
}

/// Looks up the position holding a record id among the live entries.
fn find_live(lv: &Vec<ReadResult>, id: RecordId) -> (r: Option<usize>)
    ensures
        match r {
            Some(j) => j < lv@.len() && entries_view(lv@)[j as int].id == id.0,
            None => !has_id(entries_view(lv@), id.0),
        },
{
    let mut i: usize = 0;
    while i < lv.len()
        invariant
            i <= lv@.len(),
            forall|k: int| 0 <= k < i ==> (#[trigger] entries_view(lv@)[k]).id != id.0,
        decreases lv@.len() - i,
    {
        if lv[i].id.0 == id.0 {
            return Some(i);
        }
        i = i + 1;
    }
    None
}

impl DBView {
    /// The surviving entries, in replay order.
    pub open spec fn live_seq(self) -> Seq<EntryV> {
        entries_view(self.live@)
    }

    /// The live view this reconstruction stands for.
    pub open spec fn live_map(self) -> Map<u64, EntryV> {
        seq_to_map(self.live_seq())
    }

    pub open spec fn wf(self) -> bool {
        all_writes(self.live_seq()) && distinct_ids(self.live_seq())
    }

    /// Replays a log in append order: each write entry binds its record id,
    /// each tombstone unbinds it. Decryption is deferred to the reads.
    pub fn load(key: Key, entries: &Vec<ReadResult>) -> (r: DBView)
        ensures
            r.key@ == key@,
            r.wf(),
            r.live_map() == live_after(entries_view(entries@)),
            all_writes(entries_view(entries@)) && distinct_ids(entries_view(entries@))
                ==> r.live_seq() == entries_view(entries@),
    {
        let ghost evs = entries_view(entries@);
        let mut lv: Vec<ReadResult> = Vec::new();
        let mut i: usize = 0;
        while i < entries.len()
            invariant
                i <= entries@.len(),
                evs == entries_view(entries@),
                all_writes(entries_view(lv@)),
                distinct_ids(entries_view(lv@)),
                seq_to_map(entries_view(lv@)) == live_after(evs.take(i as int)),
                all_writes(evs) && distinct_ids(evs) ==> entries_view(lv@) == evs.take(i as int),
            decreases entries@.len() - i,
        {
            let ghost pfx = evs.take(i as int);
            let ghost ls = entries_view(lv@);
            let e = &entries[i];
            proof {
                assert(evs[i as int] == e@);
                assert(evs.take(i as int + 1) =~= pfx.push(e@));
                lemma_live_after_push(pfx, e@);
            }
            let found = find_live(&lv, e.id);
            match e.kind {
                Kind::Write => {
                    match found {
                        Some(j) => {
                            lv.set(j, copy_entry(e));
                            proof {
                                assert(entries_view(lv@) =~= ls.update(j as int, e@));
                                lemma_stm_update(ls, j as int, e@);
                                if all_writes(evs) && distinct_ids(evs) {
                                    assert(ls[j as int].id == evs[i as int].id);
                                    assert(ls[j as int] == evs[j as int]);
                                    assert(false);
                                }
                            }
                        }
                        None => {
                            lv.push(copy_entry(e));
                            proof {
                                assert(entries_view(lv@) =~= ls.push(e@));
                                lemma_stm_push(ls, e@);
                                if all_writes(evs) && distinct_ids(evs) {
                                    assert(entries_view(lv@) =~= evs.take(i as int + 1));
                                }
                            }
                        }
                    }
                }
                _ => {
                    match found {
                        Some(j) => {
                            lv.remove(j);
                            proof {
                                assert(entries_view(lv@) =~= ls.remove(j as int));
                                assert(ls[j as int].id == e@.id);
                                lemma_stm_remove(ls, j as int);
                                if all_writes(evs) && distinct_ids(evs) {
                                    assert(evs[i as int].kind == Kind::Write);
                                    assert(false);
                                }
                            }
                        }
                        None => {
                            proof {
                                assert(seq_to_map(ls).remove(e@.id) =~= seq_to_map(ls));
                                if all_writes(evs) && distinct_ids(evs) {
                                    assert(evs[i as int].kind == Kind::Write);
                                    assert(false);
                                }
                            }
                        }
                    }
                }
            }
            i = i + 1;
        }
        proof {
            assert(evs.take(entries@.len() as int) =~= evs);
        }
        DBView { key, live: lv }
    }

    /// Whether a record id is live in this view.
    pub fn contains(&self, id: RecordId) -> (r: bool)
        ensures
            r == self.live_map().dom().contains(id.0),
    {
        match find_live(&self.live, id) {
            Some(_) => {
                proof {
                    assert(has_id(self.live_seq(), id.0));
                }
                true
            }
            None => false,
        }
    }

    /// Resolves a live record id to its decrypted payload. An id the view
    /// does not hold is not found; a payload that does not decrypt under the
    /// view's key signals corruption or a wrong key.
    pub fn get(&self, id: RecordId) -> (r: Result<Vec<u8>, VaultError>)
        requires
            self.wf(),
        ensures
            !self.live_map().dom().contains(id.0)
                ==> r == Err::<Vec<u8>, VaultError>(VaultError::NotFound),
            self.live_map().dom().contains(id.0) ==> (match decrypt_spec(
                self.key@,
                self.live_map()[id.0].data,
            ) {
                Some(p) => r matches Ok(v) && v@ == p,
                None => r == Err::<Vec<u8>, VaultError>(VaultError::WrongKeyOrCorruption),
            }),
    {
        match find_live(&self.live, id) {
            Some(j) => {
                proof {
                    lemma_idx_at(self.live_seq(), j as int);
                    assert(self.live_map()[id.0] == self.live_seq()[j as int]);
                }
                decrypt(&self.key, &self.live[j].data)
            }
            None => Err(VaultError::NotFound),
        }
    }

    /// The record ids live in this view, in replay order.
    pub fn list_live_ids(&self) -> (r: Vec<RecordId>)
        ensures
            r@.len() == self.live_seq().len(),
            forall|k: int| 0 <= k < r@.len() ==> (#[trigger] r@[k]).0 == self.live_seq()[k].id,
    {
        let mut out: Vec<RecordId> = Vec::new();
        let mut i: usize = 0;
        while i < self.live.len()
            invariant
                i <= self.live@.len(),
                out@.len() == i,
                forall|k: int| 0 <= k < i ==> (#[trigger] out@[k]).0 == self.live_seq()[k].id,
            decreases self.live@.len() - i,
        {
            out.push(self.live[i].id);
            i = i + 1;
        }
        out
    }

    /// Surrenders the surviving entries, in replay order: the compacted form
    /// of any log this view was loaded from.
    pub fn into_live_entries(self) -> (r: Vec<ReadResult>)
        ensures
            entries_view(r@) == self.live_seq(),
    {
        let DBView { key: _, live } = self;
        live
    }
}

} // verus!
