//! The stream cipher that wraps an authenticated connection.
//!
//! Each direction of a connection has its own nonce and shares the key. A
//! cipher XORs the bytes that pass with the ChaCha20 keystream at its
//! position and advances by their number, so both ends stay in step as long as
//! the bytes arrive in order and none is lost.

use chacha20::cipher::{KeyIvInit, StreamCipher, StreamCipherSeek};
use vstd::prelude::*;
use crate::auth::SessionKey;

verus! {

/// The number of bytes in a cipher key.
pub const KEY_LEN: usize = 32;

/// The number of bytes in a nonce.
pub const NONCE_LEN: usize = 12;

/// Where the client-to-server nonce starts in a session key.
pub const CLIENT_NONCE_START: usize = 32;

/// Where the server-to-client nonce starts in a session key.
pub const SERVER_NONCE_START: usize = 44;

/// The number of keystream bytes that one key and nonce give: 64 bytes for
/// each value of the 32-bit block counter but the last.
pub const KEYSTREAM_LIMIT: u64 = 0x3F_FFFF_FFC0;

/// The byte of the ChaCha20 keystream for `key` and `nonce` at `position`.
pub uninterp spec fn chacha20_keystream(key: Seq<u8>, nonce: Seq<u8>, position: int) -> u8;

/// `data` XORed with the keystream for `key` and `nonce` from `offset` on.
pub open spec fn xor_stream(data: Seq<u8>, key: Seq<u8>, nonce: Seq<u8>, offset: int) -> Seq<u8> {
    Seq::new(data.len(), |i: int| data[i] ^ chacha20_keystream(key, nonce, offset + i))
}

/// `chacha20::ChaCha20`: a cipher made with `KeyIvInit::new` from `key` and
/// `nonce`, moved with `StreamCipherSeek::seek` to byte `offset` of its
/// keystream, XORs `data` with the keystream from there on in
/// `StreamCipher::apply_keystream`. The keystream is a function of key, nonce
/// and position alone. Seeking and applying panic beyond the end of the
/// keystream, which `requires` leaves out.
#[verifier::external_body]
fn chacha20_xor(key: &[u8; 32], nonce: &[u8; 12], offset: u64, data: &[u8]) -> (out: Vec<u8>)
    requires
        offset + data@.len() <= KEYSTREAM_LIMIT,
    ensures
        out@.len() == data@.len(),
        forall|i: int|
            0 <= i < data@.len() ==> #[trigger] out@[i] == data@[i] ^ chacha20_keystream(
                key@,
                nonce@,
                offset + i,
            ),
{
    let mut cipher = chacha20::ChaCha20::new(key.into(), nonce.into());
    cipher.seek(offset);
    let mut out = data.to_vec();
    cipher.apply_keystream(&mut out);
    out
}

/// An encryption key and nonce for one direction of a connection.
#[derive(Clone, Copy, Debug, PartialEq, Eq)]
pub struct Key {
    pub key: [u8; 32],
    pub iv: [u8; 12],
}

/// Copies 32 bytes of `session` from `start` on.
fn take_key(session: &SessionKey, start: usize) -> (out: [u8; 32])
    requires
        start + 32 <= 64,
    ensures
        out@ == session@.subrange(start as int, start + 32),
{
    let mut out = [0u8; 32];
    let mut i: usize = 0;
    while i < 32
        invariant
            i <= 32,
            start + 32 <= 64,
            forall|k: int| 0 <= k < i ==> out@[k] == session@[start + k],
        decreases 32 - i,
    {
        out[i] = session[start + i];
        i = i + 1;
    }
    assert(out@ =~= session@.subrange(start as int, start + 32));
    out
}

/// Copies 12 bytes of `session` from `start` on.
fn take_nonce(session: &SessionKey, start: usize) -> (out: [u8; 12])
    requires
        start + 12 <= 64,
    ensures
        out@ == session@.subrange(start as int, start + 12),
{
    let mut out = [0u8; 12];
    let mut i: usize = 0;
    while i < 12
        invariant
            i <= 12,
            start + 12 <= 64,
            forall|k: int| 0 <= k < i ==> out@[k] == session@[start + k],
        decreases 12 - i,
    {
        out[i] = session[start + i];
        i = i + 1;
    }
    assert(out@ =~= session@.subrange(start as int, start + 12));
    out
}

impl Key {
    /// The key and nonce for what the client sends to the server: bytes 0 to
    /// 31 and 32 to 43 of the session key.
    pub fn from_client_session(session: &SessionKey) -> (key: Key)
        ensures
            key.key@ == session@.subrange(0, 32),
            key.iv@ == session@.subrange(32, 44),
    {
        Key { key: take_key(session, 0), iv: take_nonce(session, CLIENT_NONCE_START) }
    }

    /// The key and nonce for what the server sends to the client: bytes 0 to
    /// 31 and 44 to 55 of the session key.
    pub fn from_server_session(session: &SessionKey) -> (key: Key)
        ensures
            key.key@ == session@.subrange(0, 32),
            key.iv@ == session@.subrange(44, 56),
    {
        Key { key: take_key(session, 0), iv: take_nonce(session, SERVER_NONCE_START) }
    }

    /// A cipher for this key and nonce at the start of its keystream.
    pub fn make_cipher(&self) -> (cipher: Cipher)
        ensures
            cipher@ == (CipherModel { key: self.key@, nonce: self.iv@, position: 0 }),
    {
        Cipher { key: self.key, nonce: self.iv, position: 0 }
    }
}

/// A cipher as a plain value.
pub struct CipherModel {
    pub key: Seq<u8>,
    pub nonce: Seq<u8>,
    /// How many keystream bytes have been used.
    pub position: nat,
}

/// A ChaCha20 stream at a position of its keystream.
#[derive(Clone, Debug)]
pub struct Cipher {
    key: [u8; 32],
    nonce: [u8; 12],
    position: u64,
}

impl View for Cipher {
    type V = CipherModel;

    closed spec fn view(&self) -> CipherModel {
        CipherModel { key: self.key@, nonce: self.nonce@, position: self.position as nat }
    }
}

/// What a cipher gives for `data`.
pub open spec fn applied(cipher: CipherModel, data: Seq<u8>) -> Seq<u8> {
    xor_stream(data, cipher.key, cipher.nonce, cipher.position as int)
}

/// A cipher after it was applied to `count` bytes.
pub open spec fn advanced(cipher: CipherModel, count: nat) -> CipherModel {
    CipherModel { position: cipher.position + count, ..cipher }
}

/// Whether a cipher has keystream left for `count` more bytes.
pub open spec fn has_keystream(cipher: CipherModel, count: nat) -> bool {
    cipher.position + count <= KEYSTREAM_LIMIT
}

impl Cipher {
    /// How many keystream bytes have been used.
    pub fn position(&self) -> (position: u64)
        ensures
            position == self@.position,
    {
        self.position
    }

    /// How many keystream bytes are left.
    pub fn remaining(&self) -> (left: u64)
        ensures
            self@.position <= KEYSTREAM_LIMIT ==> left == KEYSTREAM_LIMIT - self@.position,
            self@.position > KEYSTREAM_LIMIT ==> left == 0,
    {
        if self.position <= KEYSTREAM_LIMIT {
            KEYSTREAM_LIMIT - self.position
        } else {
            0
        }
    }

    /// XORs `data` with the keystream at the cipher's position and advances
    /// the cipher by the length of `data`.
    pub fn apply_keystream(&mut self, data: &[u8]) -> (out: Vec<u8>)
        requires
            has_keystream(old(self)@, data@.len()),
        ensures
            out@ == applied(old(self)@, data@),
            final(self)@ == advanced(old(self)@, data@.len()),
    {
        let out = chacha20_xor(&self.key, &self.nonce, self.position, data);
        assert(out@ =~= applied(self@, data@));
        self.position = self.position + data.len() as u64;
        out
    }

    /// What `data` becomes under the keystream at the cipher's position,
    /// without advancing the cipher; `None` where the keystream does not
    /// suffice.
    pub fn peek_keystream(&self, data: &[u8]) -> (out: Option<Vec<u8>>)
        ensures
            out is Some <==> has_keystream(self@, data@.len()),
            out matches Some(bytes) ==> bytes@ == applied(self@, data@),
    {
        if self.position <= KEYSTREAM_LIMIT && data.len() as u64 <= KEYSTREAM_LIMIT - self.position {
            let out = chacha20_xor(&self.key, &self.nonce, self.position, data);
            assert(out@ =~= applied(self@, data@));
            Some(out)
        } else {
            None
        }
    }

    /// Advances the cipher by `count` bytes of keystream, where it has as
    /// many left; else the cipher stays where it is.
    pub fn skip_keystream(&mut self, count: usize) -> (done: bool)
        ensures
            done == has_keystream(old(self)@, count as nat),
            done ==> final(self)@ == advanced(old(self)@, count as nat),
            !done ==> final(self)@ == old(self)@,
    {
        if self.position <= KEYSTREAM_LIMIT && count as u64 <= KEYSTREAM_LIMIT - self.position {
            self.position = self.position + count as u64;
            true
        } else {
            false
        }
    }

    /// As [`Cipher::apply_keystream`], where the keystream suffices for
    /// `data`; else `None`, with the cipher as it was.
    pub fn try_apply_keystream(&mut self, data: &[u8]) -> (out: Option<Vec<u8>>)
        ensures
            out is Some <==> has_keystream(old(self)@, data@.len()),
            out matches Some(bytes) ==> bytes@ == applied(old(self)@, data@) && final(self)@
                == advanced(old(self)@, data@.len()),
            out is None ==> final(self)@ == old(self)@,
    {
        if self.position <= KEYSTREAM_LIMIT && data.len() as u64 <= KEYSTREAM_LIMIT - self.position {
            Some(self.apply_keystream(data))
        } else {
            None
        }
    }
}

/// The sending end of an encrypted connection.
#[derive(Clone, Debug)]
pub struct Encryptor {
    cipher: Cipher,
}

/// The receiving end of an encrypted connection.
#[derive(Clone, Debug)]
pub struct Decryptor {
    cipher: Cipher,
}

impl View for Encryptor {
    type V = CipherModel;

    closed spec fn view(&self) -> CipherModel {
        self.cipher@
    }
}

impl View for Decryptor {
    type V = CipherModel;

    closed spec fn view(&self) -> CipherModel {
        self.cipher@
    }
}

impl Encryptor {
    /// An encryptor for `key` at the start of the stream.
    pub fn new(key: &Key) -> (encryptor: Encryptor)
        ensures
            encryptor@ == (CipherModel { key: key.key@, nonce: key.iv@, position: 0 }),
    {
        Encryptor { cipher: key.make_cipher() }
    }

    /// The bytes to put on the wire for `data`, or `None` where the keystream
    /// does not suffice; the connection is then at its end.
    pub fn write(&mut self, data: &[u8]) -> (wire: Option<Vec<u8>>)
        ensures
            wire is Some <==> has_keystream(old(self)@, data@.len()),
            wire matches Some(bytes) ==> bytes@ == applied(old(self)@, data@) && final(self)@
                == advanced(old(self)@, data@.len()),
            wire is None ==> final(self)@ == old(self)@,
    {
        self.cipher.try_apply_keystream(data)
    }

    /// The bytes that `data` would put on the wire, with the encryptor left
    /// where it is: for a transport that may take only a part of what it is
    /// offered. `None` where the keystream does not suffice.
    pub fn offer(&self, data: &[u8]) -> (wire: Option<Vec<u8>>)
        ensures
            wire is Some <==> has_keystream(self@, data@.len()),
            wire matches Some(bytes) ==> bytes@ == applied(self@, data@),
    {
        self.cipher.peek_keystream(data)
    }

    /// Advances the encryptor by the `taken` bytes that the transport took
    /// of what was offered; it stays where it is where the keystream does
    /// not reach that far.
    pub fn advance(&mut self, taken: usize) -> (done: bool)
        ensures
            done == has_keystream(old(self)@, taken as nat),
            done ==> final(self)@ == advanced(old(self)@, taken as nat),
            !done ==> final(self)@ == old(self)@,
    {
        self.cipher.skip_keystream(taken)
    }
}

impl Decryptor {
    /// A decryptor for `key` at the start of the stream.
    pub fn new(key: &Key) -> (decryptor: Decryptor)
        ensures
            decryptor@ == (CipherModel { key: key.key@, nonce: key.iv@, position: 0 }),
    {
        Decryptor { cipher: key.make_cipher() }
    }

    /// The bytes that were sent, for the bytes `wire` that arrived, or `None`
    /// where the keystream does not suffice.
    pub fn read(&mut self, wire: &[u8]) -> (data: Option<Vec<u8>>)
        ensures
            data is Some <==> has_keystream(old(self)@, wire@.len()),
            data matches Some(bytes) ==> bytes@ == applied(old(self)@, wire@) && final(self)@
                == advanced(old(self)@, wire@.len()),
            data is None ==> final(self)@ == old(self)@,
    {
        self.cipher.try_apply_keystream(wire)
    }

    /// The bytes that were sent, for the bytes that arrived last in a
    /// buffer: of `filled`, the bytes from position `before` on, where
    /// `before` is how many bytes the buffer held when the transport was
    /// asked. The bytes in front of them have passed the cipher already and
    /// do not pass it again. `None` where the keystream does not suffice.
    pub fn read_arrived(&mut self, filled: &[u8], before: usize) -> (data: Option<Vec<u8>>)
        ensures
            data is Some <==> has_keystream(old(self)@, arrived(filled@, before).len()),
            data matches Some(bytes) ==> bytes@ == applied(old(self)@, arrived(filled@, before))
                && final(self)@ == advanced(old(self)@, arrived(filled@, before).len()),
            data is None ==> final(self)@ == old(self)@,
    {
        let start = if before <= filled.len() {
            before
        } else {
            filled.len()
        };
        let fresh = vstd::slice::slice_subrange(filled, start, filled.len());
        assert(fresh@ =~= arrived(filled@, before));
        self.cipher.try_apply_keystream(fresh)
    }
}

/// The bytes of `filled` that came after the first `before`; none where
/// `filled` holds no more than that.
pub open spec fn arrived(filled: Seq<u8>, before: usize) -> Seq<u8> {
    if before <= filled.len() {
        filled.skip(before as int)
    } else {
        Seq::empty()
    }
}

/// A transport that takes only the first `taken` bytes of what was offered
/// has taken what those bytes alone would have put on the wire.
pub proof fn lemma_offer_prefix(cipher: CipherModel, data: Seq<u8>, taken: int)
    requires
        0 <= taken <= data.len(),
    ensures
        applied(cipher, data).take(taken) == applied(cipher, data.take(taken)),
{
    assert(applied(cipher, data).take(taken) =~= applied(cipher, data.take(taken)));
}

/// Applying the keystream twice at the same position gives the data back:
/// what one end writes, the other end reads, when both are at the same
/// position of the same stream.
pub proof fn lemma_round_trip(cipher: CipherModel, data: Seq<u8>)
    ensures
        applied(cipher, applied(cipher, data)) == data,
{
    let once = applied(cipher, data);
    let twice = applied(cipher, once);
    assert forall|i: int| 0 <= i < data.len() implies twice[i] == data[i] by {
        let d = data[i];
        let k = chacha20_keystream(cipher.key, cipher.nonce, cipher.position + i);
        assert((d ^ k) ^ k == d) by (bit_vector);
    }
    assert(twice =~= data);
}

/// Fragmenting changes nothing: applying a cipher to `first` and then, where
/// it has advanced to, to `second` gives what applying it to both at once
/// gives.
pub proof fn lemma_fragments(cipher: CipherModel, first: Seq<u8>, second: Seq<u8>)
    ensures
        applied(cipher, first) + applied(advanced(cipher, first.len()), second) == applied(
            cipher,
            first + second,
        ),
        advanced(advanced(cipher, first.len()), second.len()) == advanced(
            cipher,
            (first + second).len(),
        ),
{
    assert(applied(cipher, first) + applied(advanced(cipher, first.len()), second) =~= applied(
        cipher,
        first + second,
    ));
}

/// The chunks of `chunks`, one after the other.
pub open spec fn joined(chunks: Seq<Seq<u8>>) -> Seq<u8>
    decreases chunks.len(),
{
    if chunks.len() == 0 {
        Seq::empty()
    } else {
        chunks[0] + joined(chunks.drop_first())
    }
}

/// What comes out when a cipher is applied to each chunk of `chunks` in turn,
/// each where the cipher has advanced to, one output after the other.
pub open spec fn applied_each(cipher: CipherModel, chunks: Seq<Seq<u8>>) -> Seq<u8>
    decreases chunks.len(),
{
    if chunks.len() == 0 {
        Seq::empty()
    } else {
        applied(cipher, chunks[0]) + applied_each(
            advanced(cipher, chunks[0].len()),
            chunks.drop_first(),
        )
    }
}

/// Fragmenting changes nothing, into however many chunks: applying a cipher
/// chunk by chunk gives what applying it to all the bytes at once gives.
pub proof fn lemma_fragments_any(cipher: CipherModel, chunks: Seq<Seq<u8>>)
    ensures
        applied_each(cipher, chunks) == applied(cipher, joined(chunks)),
    decreases chunks.len(),
{
    if chunks.len() == 0 {
        assert(applied(cipher, Seq::<u8>::empty()) =~= Seq::<u8>::empty());
    } else {
        let rest = chunks.drop_first();
        lemma_fragments_any(advanced(cipher, chunks[0].len()), rest);
        lemma_fragments(cipher, chunks[0], joined(rest));
    }
}

/// The two directions of a session use the same cipher key and the nonces at
/// bytes 32 to 43 and 44 to 55 of the session key.
pub proof fn lemma_session_key_layout(session: Seq<u8>)
    requires
        session.len() == 64,
    ensures
        session.subrange(0, 32).len() == KEY_LEN,
        session.subrange(32, 44).len() == NONCE_LEN,
        session.subrange(44, 56).len() == NONCE_LEN,
        forall|i: int| 0 <= i < 12 ==> #[trigger] session.subrange(32, 44)[i] == session[32 + i],
        forall|i: int| 0 <= i < 12 ==> #[trigger] session.subrange(44, 56)[i] == session[44 + i],
{
}

} // verus!
