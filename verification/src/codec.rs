//! AEAD frame codec: length-prefixed XChaCha20-Poly1305 frames.
//!
//! On the wire a frame is `len_hi, len_lo, nonce[24], ciphertext_and_tag`,
//! where the two length bytes hold `24 + |ciphertext_and_tag|` big-endian,
//! so a whole frame occupies `2 + len` bytes.

use vstd::prelude::*;

use aead::{Aead, AeadCore, KeyInit, OsRng};
use chacha20poly1305::{Key, XChaCha20Poly1305, XNonce};

verus! {

/// Length of the per-frame nonce in bytes.
pub const NONCE_LEN: usize = 24;

/// Length of the authentication tag appended to the ciphertext.
pub const TAG_LEN: usize = 16;

/// Largest plaintext a single frame can carry: the length field is 16 bits
/// and counts nonce, ciphertext and tag.
pub const MAX_PLAINTEXT: usize = 65495;

/// Why a frame failed to decode.
#[derive(Clone, Copy, Debug, PartialEq, Eq, Structural)]
pub enum CodecError {
    /// The frame is malformed: too short, or its length field is less
    /// than the nonce length.
    Protocol,
    /// The ciphertext did not authenticate under the key and nonce.
    Decrypt,
}

/// The ciphertext-and-tag that XChaCha20-Poly1305 produces for a key, a
/// nonce and a plaintext.
pub uninterp spec fn seal_of(key: Seq<u8>, nonce: Seq<u8>, plain: Seq<u8>) -> Seq<u8>;

/// What XChaCha20-Poly1305 decryption returns for a key, a nonce and a
/// ciphertext-and-tag: the plaintext, or nothing when authentication fails.
pub uninterp spec fn open_of(key: Seq<u8>, nonce: Seq<u8>, sealed: Seq<u8>) -> Option<Seq<u8>>;

/// The two big-endian bytes of a 16-bit value.
pub open spec fn be16(x: u16) -> Seq<u8> {
    seq![(x / 256) as u8, (x % 256) as u8]
}

/// The frame bytes for a key, a nonce and a plaintext.
pub open spec fn frame_of(key: Seq<u8>, nonce: Seq<u8>, plain: Seq<u8>) -> Seq<u8> {
    be16((NONCE_LEN + plain.len() + TAG_LEN) as u16) + nonce + seal_of(key, nonce, plain)
}

/// What decoding one whole frame yields.
pub open spec fn decode_spec(key: Seq<u8>, frame: Seq<u8>) -> Result<Seq<u8>, CodecError> {
    if frame.len() < 2 {
        Err(CodecError::Protocol)
    } else {
        let len = (frame[0] as int) * 256 + (frame[1] as int);
        if len < NONCE_LEN || frame.len() != 2 + len {
            Err(CodecError::Protocol)
        } else {
            let nonce = frame.subrange(2, 2 + NONCE_LEN as int);
            let sealed = frame.subrange(2 + NONCE_LEN as int, frame.len() as int);
            match open_of(key, nonce, sealed) {
                Some(plain) => Ok(plain),
                None => Err(CodecError::Decrypt),
            }
        }
    }
}

/// The number of bytes a frame occupies on the wire, from the two bytes of
/// its length prefix.
pub fn frame_len(hb: u8, lb: u8) -> (r: usize)
    ensures
        r == (hb as int) * 256 + (lb as int) + 2,
{
    proof {
        assert(((hb as u16) << 8u16) | (lb as u16) == (hb as u16) * 256 + (lb as u16))
            by (bit_vector);
    }
    (((hb as u16) << 8u16) | (lb as u16)) as usize + 2
}

/// A stateless codec for AEAD frames under one symmetric key.
pub struct Encrypter {
    key: Vec<u8>,
}

/// Draws a fresh 256-bit key from the system's cryptographic random source.
///
/// Relies on `chacha20poly1305::XChaCha20Poly1305::generate_key` with
/// `aead::OsRng`: the result is 32 random bytes; nothing more can be said
/// of a random value.
#[verifier::external_body]
pub fn generate_key() -> (r: Vec<u8>)
    ensures
        r@.len() == 32,
{
    XChaCha20Poly1305::generate_key(&mut OsRng).to_vec()
}

/// Draws a fresh 192-bit nonce from the system's cryptographic random source.
///
/// Relies on `chacha20poly1305::XChaCha20Poly1305::generate_nonce` with
/// `aead::OsRng`: the result is 24 random bytes; nothing more can be said
/// of a random value.
#[verifier::external_body]
fn generate_nonce() -> (r: Vec<u8>)
    ensures
        r@.len() == NONCE_LEN,
{
    XChaCha20Poly1305::generate_nonce(&mut OsRng).to_vec()
}

/// Relies on `chacha20poly1305::XChaCha20Poly1305`: with a 32-byte key and a
/// 24-byte nonce, `encrypt` is a deterministic function of key, nonce and
/// plaintext; it appends a 16-byte tag; and `decrypt` of its result under
/// the same key and nonce returns the plaintext.
#[verifier::external_body]
fn aead_seal(key: &Vec<u8>, nonce: &Vec<u8>, plain: &[u8]) -> (r: Vec<u8>)
    requires
        key@.len() == 32,
        nonce@.len() == NONCE_LEN,
        plain@.len() <= MAX_PLAINTEXT,
    ensures
        r@ == seal_of(key@, nonce@, plain@),
        r@.len() == plain@.len() + TAG_LEN,
        open_of(key@, nonce@, r@) == Some(plain@),
{
    let cipher = XChaCha20Poly1305::new(Key::from_slice(key));
    cipher.encrypt(XNonce::from_slice(nonce), plain).expect("aead encrypt")
}

/// Relies on `chacha20poly1305::XChaCha20Poly1305::decrypt`: with a 32-byte
/// key and a 24-byte nonce the result is a deterministic function of key,
/// nonce and ciphertext, and it fails exactly when the tag does not
/// authenticate.
#[verifier::external_body]
fn aead_open(key: &Vec<u8>, nonce: &[u8], sealed: &[u8]) -> (r: Option<Vec<u8>>)
    requires
        key@.len() == 32,
        nonce@.len() == NONCE_LEN,
    ensures
        match r {
            Some(plain) => open_of(key@, nonce@, sealed@) == Some(plain@),
            None => open_of(key@, nonce@, sealed@) is None,
        },
{
    let cipher = XChaCha20Poly1305::new(Key::from_slice(key));
    match cipher.decrypt(XNonce::from_slice(nonce), sealed) {
        Ok(plain) => Some(plain),
        Err(_) => None,
    }
}

impl Encrypter {
    /// The codec is well formed when it holds a full 256-bit key.
    pub closed spec fn wf(&self) -> bool {
        self.key@.len() == 32
    }

    /// The key the codec seals and opens with.
    pub closed spec fn key(&self) -> Seq<u8> {
        self.key@
    }

    pub fn new(key: &Vec<u8>) -> (r: Self)
        requires
            key@.len() == 32,
        ensures
            r.wf(),
            r.key() == key@,
    {
        Encrypter { key: key.clone() }
    }

    /// Encrypts one plaintext as one self-describing frame under a fresh
    /// random nonce.
    pub fn enc_aead_frame(&self, buf: &[u8]) -> (r: Vec<u8>)
        requires
            self.wf(),
            buf@.len() <= MAX_PLAINTEXT,
        ensures
            r@.len() == 2 + NONCE_LEN + buf@.len() + TAG_LEN,
            exists|nonce: Seq<u8>|
                {
                    &&& nonce.len() == NONCE_LEN
                    &&& r@ == frame_of(self.key(), nonce, buf@)
                    &&& open_of(self.key(), nonce, seal_of(self.key(), nonce, buf@)) == Some(buf@)
                },
    {
        let nonce = generate_nonce();
        let sealed = aead_seal(&self.key, &nonce, buf);
        let len: usize = nonce.len() + sealed.len();
        let mut result: Vec<u8> = Vec::new();
        result.push((len / 256) as u8);
        result.push((len % 256) as u8);
        let mut i: usize = 0;
        while i < nonce.len()
            invariant
                i <= nonce@.len(),
                nonce@.len() == NONCE_LEN,
                result@ == be16(len as u16) + nonce@.take(i as int),
            decreases nonce@.len() - i,
        {
            result.push(nonce[i]);
            i = i + 1;
        }
        assert(nonce@.take(nonce@.len() as int) == nonce@);
        let mut j: usize = 0;
        while j < sealed.len()
            invariant
                j <= sealed@.len(),
                result@ == be16(len as u16) + nonce@ + sealed@.take(j as int),
            decreases sealed@.len() - j,
        {
            result.push(sealed[j]);
            j = j + 1;
        }
        assert(sealed@.take(sealed@.len() as int) == sealed@);
        proof {
            let ghost n = nonce@;
            assert(len == NONCE_LEN + buf@.len() + TAG_LEN);
            assert(result@ == frame_of(self.key(), n, buf@));
        }
        result
    }

    /// Decodes one whole frame: checks the length prefix, splits off the
    /// nonce, and opens the ciphertext.
    pub fn dec_aead_frame(&self, buf: &[u8]) -> (r: Result<Vec<u8>, CodecError>)
        requires
            self.wf(),
        ensures
            match r {
                Ok(plain) => decode_spec(self.key(), buf@) == Ok::<Seq<u8>, CodecError>(plain@),
                Err(e) => decode_spec(self.key(), buf@) == Err::<Seq<u8>, CodecError>(e),
            },
    {
        if buf.len() < 2 {
            return Err(CodecError::Protocol);
        }
        let len: usize = (buf[0] as usize) * 256 + (buf[1] as usize);
        if len < NONCE_LEN || buf.len() != 2 + len {
            return Err(CodecError::Protocol);
        }
        let nonce = slice_range(buf, 2, 2 + NONCE_LEN);
        let sealed = slice_range(buf, 2 + NONCE_LEN, buf.len());
        match aead_open(&self.key, nonce.as_slice(), sealed.as_slice()) {
            Some(plain) => Ok(plain),
            None => Err(CodecError::Decrypt),
        }
    }
}

/// Codec round trip: a frame built from a plaintext decodes back to
/// exactly that plaintext. The two cipher facts in the hypothesis are what
/// `enc_aead_frame` ensures of every frame it returns, for the nonce it
/// drew.
pub proof fn lemma_codec_round_trip(key: Seq<u8>, nonce: Seq<u8>, plain: Seq<u8>)
    requires
        nonce.len() == NONCE_LEN,
        plain.len() <= MAX_PLAINTEXT,
        seal_of(key, nonce, plain).len() == plain.len() + TAG_LEN,
        open_of(key, nonce, seal_of(key, nonce, plain)) == Some(plain),
    ensures
        decode_spec(key, frame_of(key, nonce, plain)) == Ok::<Seq<u8>, CodecError>(plain),
{
    let f = frame_of(key, nonce, plain);
    let len = NONCE_LEN + plain.len() + TAG_LEN;
    assert(f.len() == 2 + len);
    assert(f[0] == (len / 256) as u8 && f[1] == (len % 256) as u8);
    assert((f[0] as int) * 256 + (f[1] as int) == len);
    assert(f.subrange(2, 2 + NONCE_LEN as int) =~= nonce);
    assert(f.subrange(2 + NONCE_LEN as int, f.len() as int) =~= seal_of(key, nonce, plain));
}

/// Copies `s[lo..hi]` out of a slice.
pub fn slice_range(s: &[u8], lo: usize, hi: usize) -> (r: Vec<u8>)
    requires
        lo <= hi <= s@.len(),
    ensures
        r@ == s@.subrange(lo as int, hi as int),
{
    let mut r: Vec<u8> = Vec::new();
    let mut i: usize = lo;
    while i < hi
        invariant
            lo <= i <= hi <= s@.len(),
            r@ == s@.subrange(lo as int, i as int),
        decreases hi - i,
    {
        r.push(s[i]);
        proof {
            assert(s@.subrange(lo as int, (i + 1) as int) == s@.subrange(lo as int, i as int).push(
                s@[i as int],
            ));
        }
        i = i + 1;
    }
    r
}

} // verus!
