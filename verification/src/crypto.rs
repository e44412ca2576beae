use vstd::prelude::*;
use crate::types::{Key, RecordId, VaultError};

verus! {

/// The keystream byte a key yields at a position: its bytes, repeated.
/// An empty key leaves the payload in the clear.
pub open spec fn keystream_at(key: Seq<u8>, i: int) -> u8 {
    if key.len() == 0 {
        0u8
    } else {
        key[i % (key.len() as int)]
    }
}

/// A message combined position by position with a key's keystream.
pub open spec fn xor_seq(key: Seq<u8>, m: Seq<u8>) -> Seq<u8> {
    Seq::new(m.len(), |i: int| m[i] ^ keystream_at(key, i))
}

/// The plaintext marker prepended before encryption, whose survival is the
/// check that a ciphertext decrypts under the key that produced it.
pub open spec fn seal_tag() -> Seq<u8> {
    seq![86u8, 76u8, 84u8, 49u8]
}

/// What encrypting a payload under a key produces.
pub open spec fn encrypt_spec(key: Seq<u8>, p: Seq<u8>) -> Seq<u8> {
    xor_seq(key, seal_tag() + p)
}

/// What decrypting a ciphertext under a key produces: the payload when the
/// recovered marker matches, nothing otherwise.
pub open spec fn decrypt_spec(key: Seq<u8>, c: Seq<u8>) -> Option<Seq<u8>> {
    let m = xor_seq(key, c);
    if c.len() >= 4 && m.subrange(0, 4) == seal_tag() {
        Some(m.subrange(4, c.len() as int))
    } else {
        None
    }
}

/// Applying a key's keystream twice gives the message back.
pub proof fn lemma_xor_involution(key: Seq<u8>, m: Seq<u8>)
    ensures
        xor_seq(key, xor_seq(key, m)) == m,
{
    let once = xor_seq(key, m);
    let twice = xor_seq(key, once);
    assert forall|i: int| 0 <= i < m.len() implies twice[i] == m[i] by {
        let a = m[i];
        let b = keystream_at(key, i);
        assert((a ^ b) ^ b == a) by (bit_vector);
    }
    assert(twice =~= m);
}

/// A payload encrypted under a key decrypts under that key to itself.
pub proof fn lemma_encrypt_round_trip(key: Seq<u8>, p: Seq<u8>)
    ensures
        decrypt_spec(key, encrypt_spec(key, p)) == Some(p),
{
    let c = encrypt_spec(key, p);
    lemma_xor_involution(key, seal_tag() + p);
    assert(xor_seq(key, c) == seal_tag() + p);
    assert((seal_tag() + p).subrange(0, 4) =~= seal_tag());
    assert((seal_tag() + p).subrange(4, c.len() as int) =~= p);
}

/// Decryption inverts encryption exactly: a ciphertext yields a payload under
/// a key if and only if it is that payload's encryption under that key.
pub proof fn lemma_decrypt_characterizes(key: Seq<u8>, c: Seq<u8>, p: Seq<u8>)
    ensures
        decrypt_spec(key, c) == Some(p) <==> c == encrypt_spec(key, p),
{
    if c == encrypt_spec(key, p) {
        lemma_encrypt_round_trip(key, p);
    }
    if decrypt_spec(key, c) == Some(p) {
        let m = xor_seq(key, c);
        assert(m =~= seal_tag() + p);
        lemma_xor_involution(key, c);
        assert(encrypt_spec(key, p) == xor_seq(key, m));
    }
}

/// The keystream byte of a key at a position.
fn key_byte(key: &Key, i: usize) -> (r: u8)
    ensures
        r == keystream_at(key@, i as int),
{
    if key.bytes.len() == 0 {
        0
    } else {
        key.bytes[i % key.bytes.len()]
    }
}

/// Combines a message with a key's keystream, position by position.
fn xor_with_key(key: &Key, m: &Vec<u8>) -> (r: Vec<u8>)
    ensures
        r@ == xor_seq(key@, m@),
{
    let mut out: Vec<u8> = Vec::new();
    let mut i: usize = 0;
    while i < m.len()
        invariant
            i <= m.len(),
            out@ == xor_seq(key@, m@).take(i as int),
        decreases m.len() - i,
    {
        out.push(m[i] ^ key_byte(key, i));
        i = i + 1;
    }
    proof {
        assert(xor_seq(key@, m@).take(m@.len() as int) =~= xor_seq(key@, m@));
    }
    out
}

/// Encrypts a payload under a key.
pub fn encrypt(key: &Key, payload: &Vec<u8>) -> (r: Vec<u8>)
    ensures
        r@ == encrypt_spec(key@, payload@),
{
    let mut msg: Vec<u8> = Vec::new();
    msg.push(86);
    msg.push(76);
    msg.push(84);
    msg.push(49);
    let mut i: usize = 0;
    while i < payload.len()
        invariant
            i <= payload.len(),
            msg@ == seal_tag() + payload@.take(i as int),
        decreases payload.len() - i,
    {
        msg.push(payload[i]);
        proof {
            assert(seal_tag() + payload@.take(i as int + 1)
                =~= (seal_tag() + payload@.take(i as int)).push(payload@[i as int]));
        }
        i = i + 1;
    }
    proof {
        assert(seal_tag() + payload@.take(payload@.len() as int) =~= seal_tag() + payload@);
    }
    xor_with_key(key, &msg)
}

/// Decrypts a ciphertext under a key; fails when the recovered marker shows
/// the ciphertext was not produced under this key.
pub fn decrypt(key: &Key, ciphertext: &Vec<u8>) -> (r: Result<Vec<u8>, VaultError>)
    ensures
        match decrypt_spec(key@, ciphertext@) {
            Some(p) => r matches Ok(v) && v@ == p,
            None => r == Err::<Vec<u8>, VaultError>(VaultError::WrongKeyOrCorruption),
        },
{
    let m = xor_with_key(key, ciphertext);
    if m.len() < 4 {
        return Err(VaultError::WrongKeyOrCorruption);
    }
    if m[0] != 86 || m[1] != 76 || m[2] != 84 || m[3] != 49 {
        proof {
            assert(xor_seq(key@, ciphertext@).subrange(0, 4) != seal_tag());
        }
        return Err(VaultError::WrongKeyOrCorruption);
    }
    proof {
        assert(xor_seq(key@, ciphertext@).subrange(0, 4) =~= seal_tag());
    }
    let mut out: Vec<u8> = Vec::new();
    let mut i: usize = 4;
    while i < m.len()
        invariant
            4 <= i <= m.len(),
            m@ == xor_seq(key@, ciphertext@),
            out@ == m@.subrange(4, i as int),
        decreases m.len() - i,
    {
        out.push(m[i]);
        proof {
            assert(m@.subrange(4, i as int + 1) =~= m@.subrange(4, i as int).push(m@[i as int]));
        }
        i = i + 1;
    }
    Ok(out)
}

/// Relies on rand::random for a uniformly sampled 64-bit value; nothing is
/// assumed about the result.
#[verifier::external_body]
fn random_u64() -> u64 {
    rand::random()
}

impl RecordId {
    /// A freshly drawn record identifier.
    pub fn random() -> RecordId {
        RecordId(random_u64())
    }
}

impl Key {
    /// A freshly drawn 32-byte key.
    pub fn random() -> (r: Key)
        ensures
            r@.len() == 32,
    {
        let mut bytes: Vec<u8> = Vec::new();
        let mut i: usize = 0;
        while i < 32
            invariant
                i <= 32,
                bytes@.len() == i,
            decreases 32 - i,
        {
            let x = random_u64();
            proof {
                assert(x & 0xff < 256) by (bit_vector);
            }
            bytes.push((x & 0xff) as u8);
            i = i + 1;
        }
        Key { bytes }
    }
}

} // verus!
