use vstd::prelude::*;

verus! {

/// Upper bound on the length of a record hint's tag bytes.
pub const MAX_HINT_LEN: usize = 24;

/// The kind of a log entry: a write carrying an encrypted payload, or one of
/// the two tombstone kinds that erase a record from the live view.
#[derive(Clone, Copy, PartialEq, Eq, Structural, Debug)]
pub enum Kind {
    Write,
    Revoke,
    Truncate,
}

/// Identifier of one logical record within a vault.
#[derive(Clone, Copy, PartialEq, Eq, Structural, PartialOrd, Ord, Hash, Debug)]
pub struct RecordId(pub u64);

/// Position marker ordering the entries one writer emits.
#[derive(Clone, Copy, PartialEq, Eq, Structural, Debug)]
pub struct ChainId(pub u64);

/// The capability that identifies one vault and decrypts its log.
pub struct Key {
    pub bytes: Vec<u8>,
}

impl View for Key {
    type V = Seq<u8>;

    open spec fn view(&self) -> Seq<u8> {
        self.bytes@
    }
}

/// Small plaintext tag attached to a write, for labeling records without
/// decrypting them.
pub struct RecordHint {
    pub bytes: Vec<u8>,
}

impl View for RecordHint {
    type V = Seq<u8>;

    open spec fn view(&self) -> Seq<u8> {
        self.bytes@
    }
}

impl RecordHint {
    pub open spec fn wf(&self) -> bool {
        self@.len() <= MAX_HINT_LEN
    }

    /// Accepts a tag of at most `MAX_HINT_LEN` bytes.
    pub fn new(bytes: Vec<u8>) -> (r: Option<RecordHint>)
        ensures
            r is Some <==> bytes@.len() <= MAX_HINT_LEN,
            r matches Some(h) ==> h@ == bytes@ && h.wf(),
    {
        if bytes.len() <= MAX_HINT_LEN {
            Some(RecordHint { bytes })
        } else {
            None
        }
    }

    /// The default, empty tag.
    pub fn empty() -> (r: RecordHint)
        ensures
            r@ == Seq::<u8>::empty(),
            r.wf(),
    {
        RecordHint { bytes: Vec::new() }
    }
}

/// The mathematical value of one log entry.
#[verifier::ext_equal]
pub struct EntryV {
    pub kind: Kind,
    pub id: u64,
    pub hint: Seq<u8>,
    pub data: Seq<u8>,
}

/// The persisted form of one log entry, as replay consumes it.
pub struct ReadResult {
    pub kind: Kind,
    pub id: RecordId,
    pub hint: RecordHint,
    pub data: Vec<u8>,
}

impl View for ReadResult {
    type V = EntryV;

    open spec fn view(&self) -> EntryV {
        EntryV { kind: self.kind, id: self.id.0, hint: self.hint@, data: self.data@ }
    }
}

impl ReadResult {
    pub fn new(kind: Kind, id: RecordId, hint: RecordHint, data: Vec<u8>) -> (r: ReadResult)
        ensures
            r@ == (EntryV { kind, id: id.0, hint: hint@, data: data@ }),
    {
        ReadResult { kind, id, hint, data }
    }
}

/// One pending log entry emitted by a record writer, not yet persisted.
pub struct WriteRequest {
    pub chain: ChainId,
    pub kind: Kind,
    pub id: RecordId,
    pub hint: RecordHint,
    pub data: Vec<u8>,
}

impl View for WriteRequest {
    type V = EntryV;

    open spec fn view(&self) -> EntryV {
        EntryV { kind: self.kind, id: self.id.0, hint: self.hint@, data: self.data@ }
    }
}

/// The typed failures of the vault operations.
#[derive(Clone, Copy, PartialEq, Eq, Structural, Debug)]
pub enum VaultError {
    /// The record id is absent from the live view: never written, or revoked.
    NotFound,
    /// A payload did not decrypt under the supplied key.
    WrongKeyOrCorruption,
    /// The key names a vault that was never registered with the bucket.
    UnknownVault,
}

/// The value of a truncate entry for a record id.
pub open spec fn truncate_entry(id: u64) -> EntryV {
    EntryV { kind: Kind::Truncate, id, hint: Seq::<u8>::empty(), data: Seq::<u8>::empty() }
}

/// The value of a revoke entry for a record id.
pub open spec fn revoke_entry(id: u64) -> EntryV {
    EntryV { kind: Kind::Revoke, id, hint: Seq::<u8>::empty(), data: Seq::<u8>::empty() }
}

/// The value of a write entry binding a record id to a ciphertext.
pub open spec fn write_entry(id: u64, hint: Seq<u8>, data: Seq<u8>) -> EntryV {
    EntryV { kind: Kind::Write, id, hint, data }
}

/// Compares two byte vectors by contents.
pub fn eq_bytes(a: &Vec<u8>, b: &Vec<u8>) -> (r: bool)
    ensures
        r == (a@ == b@),
{
    if a.len() != b.len() {
        return false;
    }
    let mut i: usize = 0;
    while i < a.len()
        invariant
            i <= a.len(),
            a@.len() == b@.len(),
            forall|k: int| 0 <= k < i ==> a@[k] == b@[k],
        decreases a.len() - i,
    {
        if a[i] != b[i] {
            return false;
        }
        i = i + 1;
    }
    proof {
        assert(a@ =~= b@);
    }
    true
}

/// Copies a byte vector element by element.
pub fn copy_bytes(src: &Vec<u8>) -> (r: Vec<u8>)
    ensures
        r@ == src@,
{
    let mut out: Vec<u8> = Vec::new();
    let mut i: usize = 0;
    while i < src.len()
        invariant
            i <= src.len(),
            out@ == src@.take(i as int),
        decreases src.len() - i,
    {
        out.push(src[i]);
        i = i + 1;
    }
    proof {
        assert(src@.take(src@.len() as int) =~= src@);
    }
    out
}

/// Copies a record hint.
pub fn copy_hint(src: &RecordHint) -> (r: RecordHint)
    ensures
        r@ == src@,
{
    RecordHint { bytes: copy_bytes(&src.bytes) }
}

/// Copies a key.
pub fn copy_key(src: &Key) -> (r: Key)
    ensures
        r@ == src@,
{
    Key { bytes: copy_bytes(&src.bytes) }
}

/// Copies a persisted log entry.
pub fn copy_entry(src: &ReadResult) -> (r: ReadResult)
    ensures
        r@ == src@,
{
    ReadResult {
        kind: src.kind,
        id: src.id,
        hint: copy_hint(&src.hint),
        data: copy_bytes(&src.data),
    }
}

/// Converts a pending write request into its persisted form.
pub fn write_to_read(w: &WriteRequest) -> (r: ReadResult)
    ensures
        r@ == w@,
{
    ReadResult { kind: w.kind, id: w.id, hint: copy_hint(&w.hint), data: copy_bytes(&w.data) }
}

} // verus!
