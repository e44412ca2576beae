use vstd::prelude::*;
use crate::types::{ChainId, EntryV, Key, Kind, RecordHint, RecordId, WriteRequest, copy_key};
use crate::crypto::{encrypt, encrypt_spec};
use crate::replay::DBView;

verus! {

/// A single-record cursor bound to a loaded view's key: emits the log
/// entries that create, overwrite or erase its record, for the bucket to
/// append and persist as one unit.
pub struct RecordWriter {
    pub key: Key,
    pub id: RecordId,
    pub ctr: u64,
}

impl RecordWriter {
    /// Emits a truncate entry for this record: the standard way both to
    /// delete it and to begin a fresh chain just before a write.
    pub fn truncate(&mut self) -> (r: WriteRequest)
        requires
            old(self).ctr < u64::MAX,
        ensures
            r@ == (EntryV {
                kind: Kind::Truncate,
                id: old(self).id.0,
                hint: Seq::<u8>::empty(),
                data: Seq::<u8>::empty(),
            }),
            final(self).key@ == old(self).key@,
            final(self).id == old(self).id,
            final(self).ctr == old(self).ctr + 1,
    {
        let chain = ChainId(self.ctr);
        self.ctr = self.ctr + 1;
        WriteRequest {
            chain,
            kind: Kind::Truncate,
            id: self.id,
            hint: RecordHint::empty(),
            data: Vec::new(),
        }
    }

    /// Encrypts a payload under the writer's key and emits the write entries
    /// carrying it, all under this writer's record id. The emitted requests
    /// form one logical record and must be appended together or not at all.
    pub fn write(&mut self, payload: &Vec<u8>, hint: RecordHint) -> (r: Vec<WriteRequest>)
        requires
            old(self).ctr < u64::MAX,
        ensures
            r@.len() == 1,
            r@[0]@ == (EntryV {
                kind: Kind::Write,
                id: old(self).id.0,
                hint: hint@,
                data: encrypt_spec(old(self).key@, payload@),
            }),
            final(self).key@ == old(self).key@,
            final(self).id == old(self).id,
            final(self).ctr == old(self).ctr + 1,
    {
        let data = encrypt(&self.key, payload);
        let chain = ChainId(self.ctr);
        self.ctr = self.ctr + 1;
        let mut out: Vec<WriteRequest> = Vec::new();
        out.push(WriteRequest { chain, kind: Kind::Write, id: self.id, hint, data });
        out
    }
}

impl DBView {
    /// Binds a fresh writer to a record id within this view, without
    /// changing the view.
    pub fn writer(&self, id: RecordId) -> (r: RecordWriter)
        ensures
            r.key@ == self.key@,
            r.id == id,
            r.ctr == 0,
    {
        RecordWriter { key: copy_key(&self.key), id, ctr: 0 }
    }
}

} // verus!
