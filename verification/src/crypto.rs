//! Message protection for a session.
//!
//! A datagram on the wire is an 8-byte nonce suffix followed by an AES-128-OCB3
//! ciphertext that carries its own 16-byte tag.

use aes::Aes128;
use ocb3::aead::{Aead, KeyInit, Payload};
use ocb3::Ocb3;
use vstd::prelude::*;
use vstd::slice::*;
use vstd::string::*;
use vstd::utf8::*;

use crate::base64::{decode_key, decoded, encode_key, encoded, keys_round_trip};
use crate::big_endian::{
    be_bytes, be_value, from_be, lemma_be_bytes_round_trip, lemma_be_number_round_trip,
    lemma_pow256, to_be,
};
use crate::text::text_eq;

verus! {

/// Bytes added to a plaintext by encryption, not counting the nonce.
pub const ADDED_BYTES: usize = 16;

/// Largest datagram that is accepted.
pub const RECEIVE_MTU: usize = 2048;

/// So many blocks may be encrypted under one key by each side. The cipher's guarantees
/// degrade as the square of the number of blocks seen, and both ends share a key.
pub const BLOCK_LIMIT: u64 = 0x8000_0000_0000;

#[derive(Debug, Clone, Copy, PartialEq, Eq, Structural)]
pub enum CryptoError {
    BadKeyLength,
    BadKeyEncoding,
    NotA128BitKey,
    BadNonceLength,
    TooShort,
    IntegrityCheck,
    CounterWrapped,
    BlockLimitReached,
}

impl CryptoError {
    /// The message for a person.
    pub open spec fn message(self) -> Seq<char> {
        match self {
            CryptoError::BadKeyLength => "Key must be 22 letters long."@,
            CryptoError::BadKeyEncoding => "Key must be well-formed base64."@,
            CryptoError::NotA128BitKey => "Base64 key was not encoded 128-bit key."@,
            CryptoError::BadNonceLength => "Nonce representation must be 8 octets long."@,
            CryptoError::TooShort => "Ciphertext must contain nonce and tag."@,
            CryptoError::IntegrityCheck => "Packet failed integrity check."@,
            CryptoError::CounterWrapped => "Counter wrapped"@,
            CryptoError::BlockLimitReached => "Encrypted 2^47 blocks."@,
        }
    }

    /// The message for a person.
    pub fn text(&self) -> (s: &'static str)
        ensures
            s@ == self.message(),
    {
        match self {
            CryptoError::BadKeyLength => "Key must be 22 letters long.",
            CryptoError::BadKeyEncoding => "Key must be well-formed base64.",
            CryptoError::NotA128BitKey => "Base64 key was not encoded 128-bit key.",
            CryptoError::BadNonceLength => "Nonce representation must be 8 octets long.",
            CryptoError::TooShort => "Ciphertext must contain nonce and tag.",
            CryptoError::IntegrityCheck => "Packet failed integrity check.",
            CryptoError::CounterWrapped => "Counter wrapped",
            CryptoError::BlockLimitReached => "Encrypted 2^47 blocks.",
        }
    }
}

/// `getrandom::fill` overwrites a buffer with bytes from the system's source of
/// randomness, or reports that there is none. Nothing is stated of the bytes but their
/// number.
#[verifier::external_body]
pub(crate) fn random_bytes(n: usize) -> (r: Option<Vec<u8>>)
    ensures
        r matches Some(bytes) ==> bytes@.len() == n,
{
    let mut bytes = vec![0u8; n];
    match getrandom::fill(&mut bytes) {
        Ok(()) => Some(bytes),
        Err(_) => None,
    }
}

/// The 22 characters that a key is written as.
pub open spec fn printed_key(key: Seq<u8>) -> Seq<char> {
    encoded(key).take(22).map_values(|c: u8| c as char)
}

/// The key that is written as the given text.
pub open spec fn key_in(printable: Seq<char>) -> Result<Seq<u8>, CryptoError> {
    let bytes = encode_utf8(printable);
    if bytes.len() != 22 {
        Err(CryptoError::BadKeyLength)
    } else {
        match decoded(bytes + seq![61u8, 61u8]) {
            None => Err(CryptoError::BadKeyEncoding),
            Some(key) => if printed_key(key) == printable {
                Ok(key)
            } else {
                Err(CryptoError::NotA128BitKey)
            },
        }
    }
}

/// A 128-bit session key, written down as 22 base64 characters. It has no debugging form:
/// a key must not reach a log by accident.
#[derive(Clone, PartialEq, Eq)]
pub struct Base64Key {
    key: [u8; 16],
}

impl View for Base64Key {
    type V = Seq<u8>;

    closed spec fn view(&self) -> Seq<u8> {
        self.key@
    }
}

impl Base64Key {
    /// A fresh random key, if there is a source of randomness: what [`Base64Key::from_random`]
    /// makes of sixteen bytes that are drawn from it. Which bytes those are, and whether
    /// there are any, is up to the system.
    pub fn random() -> (r: Option<Self>)
        ensures
            r matches Some(k) ==> k@.len() == 16,
    {
        Self::from_random(random_bytes(16))
    }

    /// The key that consists of the bytes that were drawn. There is none without bytes, nor
    /// with another number of them than a key has.
    pub fn from_random(drawn: Option<Vec<u8>>) -> (r: Option<Self>)
        ensures
            r is Some <==> drawn is Some && drawn->0@.len() == 16,
            r matches Some(k) ==> k@ == drawn->0@,
    {
        let bytes = match drawn {
            Some(bytes) => bytes,
            None => {
                return None;
            },
        };
        if bytes.len() != 16 {
            return None;
        }
        let mut key: [u8; 16] = [0; 16];
        let mut i: usize = 0;
        while i < 16
            invariant
                i <= 16,
                bytes@.len() == 16,
                forall|k: int| 0 <= k < i ==> #[trigger] key@[k] == bytes@[k],
            decreases 16 - i,
        {
            key[i] = bytes[i];
            i = i + 1;
        }
        assert(key@ =~= bytes@);
        Some(Base64Key { key })
    }

    pub fn from_bytes(key: [u8; 16]) -> (k: Self)
        ensures
            k@ == key@,
    {
        Base64Key { key }
    }

    pub fn as_bytes(&self) -> (key: &[u8; 16])
        ensures
            key@ == self@,
    {
        &self.key
    }

    /// Parse the printable form. Rejects anything that would not print back identically,
    /// which catches a 22-character string whose trailing bits were altered.
    pub fn parse(printable: &str) -> (r: Result<Self, CryptoError>)
        ensures
            match key_in(printable@) {
                Ok(key) => r matches Ok(k) && k@ == key,
                Err(e) => r matches Err(f) && f == e,
            },
    {
        let bytes = printable.as_bytes();
        if bytes.len() != 22 {
            return Err(CryptoError::BadKeyLength);
        }
        let mut padded: Vec<u8> = slice_to_vec(bytes);
        padded.push(61);
        padded.push(61);
        assert(padded@ =~= encode_utf8(printable@) + seq![61u8, 61u8]);
        let key = match decode_key(padded.as_slice()) {
            Some(key) => key,
            None => {
                return Err(CryptoError::BadKeyEncoding);
            },
        };
        let this = Base64Key { key };
        if !text_eq(this.printable().as_str(), printable) {
            return Err(CryptoError::NotA128BitKey);
        }
        Ok(this)
    }

    /// The 22-character printable form, with padding stripped.
    pub fn printable(&self) -> (s: String)
        ensures
            s@ == printed_key(self@),
    {
        let letters = encode_key(&self.key);
        let mut s = String::new();
        let mut i: usize = 0;
        while i < 22
            invariant
                i <= 22,
                letters@ == encoded(self@),
                s@ == printed_key(self@).subrange(0, i as int),
            decreases 22 - i,
        {
            s.push(letters[i] as char);
            i = i + 1;
            assert(s@ =~= printed_key(self@).subrange(0, i as int));
        }
        assert(printed_key(self@).subrange(0, 22) =~= printed_key(self@));
        s
    }
}

proof fn lemma_printed_key_bytes(key: Seq<u8>)
    requires
        key.len() == 16,
    ensures
        encode_utf8(printed_key(key)) == encoded(key).take(22),
{
    let s = printed_key(key);
    assert(is_ascii_chars(s));
    is_ascii_chars_encode_utf8(s);
    assert(encode_utf8(s) =~= encoded(key).take(22));
}

/// Every key can be read back from its printed form.
pub proof fn printed_keys_are_read_back(key: Seq<u8>)
    requires
        key.len() == 16,
    ensures
        key_in(printed_key(key)) == Ok::<Seq<u8>, CryptoError>(key),
{
    lemma_printed_key_bytes(key);
    assert(encoded(key).take(22) + seq![61u8, 61u8] =~= encoded(key));
    keys_round_trip(key);
}

/// A text that is accepted as a key is the key's printed form: no two texts are the same
/// key.
pub proof fn a_key_has_one_printed_form(a: Seq<char>, b: Seq<char>)
    requires
        key_in(a) is Ok,
        key_in(a) == key_in(b),
    ensures
        a == b,
{
}

/// The twelve bytes of a nonce: four zero bytes, then the counter.
pub open spec fn nonce_bytes(val: u64) -> Seq<u8> {
    seq![0u8, 0u8, 0u8, 0u8] + be_bytes(val as nat, 8)
}

/// A 12-byte nonce: four zero bytes then a 64-bit counter, big-endian.
///
/// Only the counter travels on the wire; the zero prefix is implied.
#[derive(Debug, Clone, Copy, PartialEq, Eq)]
pub struct Nonce {
    bytes: [u8; 12],
}

impl View for Nonce {
    type V = u64;

    closed spec fn view(&self) -> u64 {
        be_value(self.bytes@.subrange(4, 12)) as u64
    }
}

impl Nonce {
    /// How many bytes a nonce has.
    pub const LEN: usize = 12;

    #[verifier::type_invariant]
    spec fn begins_with_zeros(self) -> bool {
        &&& self.bytes@[0] == 0
        &&& self.bytes@[1] == 0
        &&& self.bytes@[2] == 0
        &&& self.bytes@[3] == 0
    }

    proof fn lemma_bytes(self)
        requires
            self.begins_with_zeros(),
        ensures
            self.bytes@ == nonce_bytes(self@),
            self.bytes@.subrange(4, 12) == be_bytes(self@ as nat, 8),
            be_value(self.bytes@.subrange(4, 12)) == self@,
    {
        let wire = self.bytes@.subrange(4, 12);
        lemma_be_bytes_round_trip(wire);
        lemma_pow256();
        assert(self.bytes@ =~= nonce_bytes(self@));
    }

    pub fn new(val: u64) -> (n: Self)
        ensures
            n@ == val,
    {
        let wire = to_be(val, 8);
        proof {
            lemma_pow256();
            lemma_be_number_round_trip(val as nat, 8);
        }
        Nonce::from_counter(wire.as_slice())
    }

    fn from_counter(wire: &[u8]) -> (n: Self)
        requires
            wire@.len() == 8,
        ensures
            n@ == be_value(wire@),
    {
        let bytes: [u8; 12] = [
            0, 0, 0, 0, wire[0], wire[1], wire[2], wire[3], wire[4], wire[5], wire[6], wire[7],
        ];
        proof {
            lemma_be_bytes_round_trip(wire@);
            lemma_pow256();
        }
        assert(bytes@.subrange(4, 12) =~= wire@);
        Nonce { bytes }
    }

    /// Rebuild from the 8 bytes that travelled on the wire.
    pub fn from_wire(wire: &[u8]) -> (r: Result<Self, CryptoError>)
        ensures
            if wire@.len() == 8 {
                r matches Ok(n) && n@ == be_value(wire@)
            } else {
                r matches Err(e) && e == CryptoError::BadNonceLength
            },
    {
        if wire.len() != 8 {
            return Err(CryptoError::BadNonceLength);
        }
        Ok(Nonce::from_counter(wire))
    }

    pub fn val(&self) -> (v: u64)
        ensures
            v == self@,
    {
        proof {
            use_type_invariant(self);
            self.lemma_bytes();
        }
        from_be(slice_subrange(self.bytes.as_slice(), 4, 12))
    }

    /// The 8 bytes that travel on the wire.
    pub fn wire(&self) -> (w: &[u8])
        ensures
            w@ == be_bytes(self@ as nat, 8),
    {
        proof {
            use_type_invariant(self);
            self.lemma_bytes();
        }
        slice_subrange(self.bytes.as_slice(), 4, 12)
    }

    pub fn as_bytes(&self) -> (b: &[u8; 12])
        ensures
            b@ == nonce_bytes(self@),
    {
        proof {
            use_type_invariant(self);
            self.lemma_bytes();
        }
        &self.bytes
    }
}

/// A nonce is read back from its wire form.
pub proof fn nonces_round_trip(val: u64)
    ensures
        be_bytes(val as nat, 8).len() == 8,
        be_value(be_bytes(val as nat, 8)) == val,
{
    lemma_pow256();
    lemma_be_number_round_trip(val as nat, 8);
}

/// A plaintext and the nonce it goes under.
#[verifier::ext_equal]
pub struct MessageView {
    pub nonce: u64,
    pub text: Seq<u8>,
}

/// A decrypted datagram together with the nonce it arrived under.
#[derive(Debug, Clone, PartialEq, Eq)]
pub struct Message {
    pub nonce: Nonce,
    pub text: Vec<u8>,
}

impl View for Message {
    type V = MessageView;

    open spec fn view(&self) -> MessageView {
        MessageView { nonce: self.nonce@, text: self.text@ }
    }
}

impl Message {
    pub fn new(nonce: Nonce, text: Vec<u8>) -> (m: Self)
        ensures
            m@ == (MessageView { nonce: nonce@, text: text@ }),
    {
        Message { nonce, text }
    }
}

/// Texts have to be shorter than this, or the cipher's table of offsets runs out.
pub open spec fn text_limit() -> int {
    if usize::BITS == 64 {
        0x10_0000_0000
    } else {
        0x10_0000
    }
}

/// What AES-128-OCB3 makes of a text under a key and a nonce: the ciphertext, then the tag.
pub uninterp spec fn ocb3_sealed(key: Seq<u8>, nonce: Seq<u8>, text: Seq<u8>) -> Seq<u8>;

/// The text that AES-128-OCB3 finds in a ciphertext with its tag, or nothing if the tag is
/// wrong.
pub uninterp spec fn ocb3_opened(key: Seq<u8>, nonce: Seq<u8>, sealed: Seq<u8>) -> Option<
    Seq<u8>,
>;

/// `Aead::encrypt` of `ocb3::Ocb3<aes::Aes128>`, without associated data. It depends on
/// the key, the nonce and the text alone, cannot fail on a text below the limit, adds 16
/// bytes, and what it returns is decrypted to the text by the same cipher.
#[verifier::external_body]
fn seal(key: &[u8; 16], nonce: &[u8; 12], text: &[u8]) -> (r: Option<Vec<u8>>)
    requires
        text@.len() < text_limit(),
    ensures
        r is Some,
        r->0@ == ocb3_sealed(key@, nonce@, text@),
        r->0@.len() == text@.len() + 16,
        ocb3_opened(key@, nonce@, r->0@) == Some(text@),
{
    let cipher = Ocb3::<Aes128>::new(key.into());
    cipher.encrypt(nonce.into(), Payload { msg: text, aad: &[] }).ok()
}

/// `Aead::decrypt` of `ocb3::Ocb3<aes::Aes128>`, without associated data. It depends on
/// the key, the nonce and the ciphertext alone; what it returns is 16 bytes shorter.
#[verifier::external_body]
fn open(key: &[u8; 16], nonce: &[u8; 12], sealed: &[u8]) -> (r: Option<Vec<u8>>)
    requires
        sealed@.len() < text_limit() + 16,
    ensures
        r is Some == ocb3_opened(key@, nonce@, sealed@) is Some,
        r is Some ==> ocb3_opened(key@, nonce@, sealed@) == Some(r->0@),
        r is Some ==> r->0@.len() + 16 == sealed@.len(),
{
    let cipher = Ocb3::<Aes128>::new(key.into());
    cipher.decrypt(nonce.into(), Payload { msg: sealed, aad: &[] }).ok()
}

/// How many cipher blocks a text takes, a partial one counted.
pub open spec fn blocks_in(len: nat) -> nat {
    (len + 15) / 16
}

/// A datagram as it goes on the wire.
pub open spec fn framed(nonce: u64, sealed: Seq<u8>) -> Seq<u8> {
    be_bytes(nonce as nat, 8) + sealed
}

/// The message in a datagram, given what the cipher found in it.
pub open spec fn unsealed(nonce: u64, opened: Option<Seq<u8>>) -> Result<MessageView, CryptoError> {
    match opened {
        Some(text) => Ok(MessageView { nonce, text }),
        None => Err(CryptoError::IntegrityCheck),
    }
}

/// The message in a datagram.
pub open spec fn decrypted(key: Seq<u8>, datagram: Seq<u8>) -> Result<MessageView, CryptoError> {
    if datagram.len() < 24 {
        Err(CryptoError::TooShort)
    } else {
        let nonce = be_value(datagram.take(8)) as u64;
        unsealed(nonce, ocb3_opened(key, nonce_bytes(nonce), datagram.skip(8)))
    }
}

/// A datagram is opened as it was sealed: it starts with its nonce, and holds what the cipher
/// makes of the rest under that nonce.
pub proof fn datagrams_are_opened_as_they_were_sealed(key: Seq<u8>, nonce: u64, sealed: Seq<u8>)
    requires
        sealed.len() >= ADDED_BYTES,
    ensures
        framed(nonce, sealed).len() == 8 + sealed.len(),
        framed(nonce, sealed).take(8) == be_bytes(nonce as nat, 8),
        decrypted(key, framed(nonce, sealed)) == unsealed(
            nonce,
            ocb3_opened(key, nonce_bytes(nonce), sealed),
        ),
{
    let wire = framed(nonce, sealed);
    nonces_round_trip(nonce);
    assert(wire.take(8) =~= be_bytes(nonce as nat, 8));
    assert(wire.skip(8) =~= sealed);
}

/// A datagram is too short exactly if it has no room for a nonce and a tag.
pub proof fn only_short_datagrams_are_too_short(key: Seq<u8>, datagram: Seq<u8>)
    ensures
        decrypted(key, datagram) == Err::<MessageView, CryptoError>(CryptoError::TooShort)
            <==> datagram.len() < 8 + ADDED_BYTES,
{
}

/// A session: its key, and how many blocks were encrypted under it.
pub struct SessionView {
    pub key: Seq<u8>,
    pub blocks_encrypted: u64,
}

/// Encrypts and decrypts datagrams under one session key.
pub struct Session {
    key: Base64Key,
    blocks_encrypted: u64,
}

impl View for Session {
    type V = SessionView;

    closed spec fn view(&self) -> SessionView {
        SessionView { key: self.key@, blocks_encrypted: self.blocks_encrypted }
    }
}

/// The count of blocks after a text; it stays at its maximum once it is there.
pub open spec fn blocks_after(blocks: u64, len: nat) -> u64 {
    if blocks + blocks_in(len) > u64::MAX {
        u64::MAX
    } else {
        (blocks + blocks_in(len)) as u64
    }
}

impl Session {
    pub fn new(key: &Base64Key) -> (s: Self)
        ensures
            s@ == (SessionView { key: key@, blocks_encrypted: 0 }),
    {
        Session { key: Base64Key { key: key.key }, blocks_encrypted: 0 }
    }

    /// Encrypt, returning the datagram as it goes on the wire: nonce suffix then
    /// ciphertext-with-tag. What is returned is decrypted to the message again.
    pub fn encrypt(&mut self, plaintext: &Message) -> (r: Result<Vec<u8>, CryptoError>)
        requires
            plaintext.text@.len() < text_limit(),
        ensures
            final(self)@ == (SessionView {
                blocks_encrypted: blocks_after(
                    old(self)@.blocks_encrypted,
                    plaintext.text@.len(),
                ),
                ..old(self)@
            }),
            if final(self)@.blocks_encrypted >= BLOCK_LIMIT {
                r matches Err(e) && e == CryptoError::BlockLimitReached
            } else {
                r matches Ok(wire) && {
                    &&& wire@ == framed(
                        plaintext@.nonce,
                        ocb3_sealed(old(self)@.key, nonce_bytes(plaintext@.nonce), plaintext@.text),
                    )
                    &&& wire@.len() == 8 + plaintext@.text.len() + ADDED_BYTES
                    &&& decrypted(old(self)@.key, wire@) == Ok::<MessageView, CryptoError>(
                        plaintext@,
                    )
                }
            },
    {
        let sealed = match seal(
            self.key.as_bytes(),
            plaintext.nonce.as_bytes(),
            plaintext.text.as_slice(),
        ) {
            Some(sealed) => sealed,
            None => {
                return Err(CryptoError::IntegrityCheck);
            },
        };
        let r = self.frame(&plaintext.nonce, plaintext.text.len(), sealed.as_slice());
        proof {
            datagrams_are_opened_as_they_were_sealed(self@.key, plaintext@.nonce, sealed@);
        }
        r
    }

    /// Account for an encrypted text, and put its nonce in front of it.
    pub fn frame(&mut self, nonce: &Nonce, len: usize, sealed: &[u8]) -> (r: Result<
        Vec<u8>,
        CryptoError,
    >)
        ensures
            final(self)@ == (SessionView {
                blocks_encrypted: blocks_after(old(self)@.blocks_encrypted, len as nat),
                ..old(self)@
            }),
            if final(self)@.blocks_encrypted >= BLOCK_LIMIT {
                r matches Err(e) && e == CryptoError::BlockLimitReached
            } else {
                r matches Ok(wire) && wire@ == framed(nonce@, sealed@)
            },
    {
        let whole: u64 = (len / 16) as u64;
        let part: u64 = if len % 16 != 0 {
            1
        } else {
            0
        };
        self.blocks_encrypted = match self.blocks_encrypted.checked_add(whole + part) {
            Some(n) => n,
            None => u64::MAX,
        };
        if self.blocks_encrypted >= BLOCK_LIMIT {
            return Err(CryptoError::BlockLimitReached);
        }
        let mut out: Vec<u8> = slice_to_vec(nonce.wire());
        out.extend_from_slice(sealed);
        assert(out@ =~= framed(nonce@, sealed@));
        Ok(out)
    }

    /// Decrypt a datagram received from the peer.
    pub fn decrypt(&self, datagram: &[u8]) -> (r: Result<Message, CryptoError>)
        requires
            datagram@.len() < text_limit() + 24,
        ensures
            match decrypted(self@.key, datagram@) {
                Ok(m) => r matches Ok(message) && message@ == m,
                Err(e) => r matches Err(f) && f == e,
            },
    {
        if datagram.len() < 24 {
            return Err(CryptoError::TooShort);
        }
        let wire = slice_subrange(datagram, 0, 8);
        assert(wire@ =~= datagram@.take(8));
        let nonce = match Nonce::from_wire(wire) {
            Ok(nonce) => nonce,
            Err(e) => {
                return Err(e);
            },
        };
        let sealed = slice_subrange(datagram, 8, datagram.len());
        assert(sealed@ =~= datagram@.skip(8));
        let opened = open(self.key.as_bytes(), nonce.as_bytes(), sealed);
        Session::unsealed(nonce, opened)
    }

    /// The message that was found in a datagram.
    pub fn unsealed(nonce: Nonce, opened: Option<Vec<u8>>) -> (r: Result<Message, CryptoError>)
        ensures
            match opened {
                Some(text) => r matches Ok(m) && m@ == (MessageView {
                    nonce: nonce@,
                    text: text@,
                }),
                None => r matches Err(e) && e == CryptoError::IntegrityCheck,
            },
    {
        match opened {
            Some(text) => Ok(Message { nonce, text }),
            None => Err(CryptoError::IntegrityCheck),
        }
    }
}

/// A source of nonce values that never repeats.
#[derive(Debug)]
pub struct Unique {
    counter: u64,
}

impl View for Unique {
    type V = u64;

    /// How many values were handed out.
    closed spec fn view(&self) -> u64 {
        self.counter
    }
}

impl Default for Unique {
    fn default() -> (u: Self)
        ensures
            u@ == 0,
    {
        Unique::new()
    }
}

impl Unique {
    pub fn new() -> (u: Self)
        ensures
            u@ == 0,
    {
        Unique { counter: 0 }
    }

    /// The next never-before-used value. The values are the numbers from zero on; when
    /// they have run out there are no more.
    pub fn next_value(&mut self) -> (r: Result<u64, CryptoError>)
        ensures
            if old(self)@ < u64::MAX {
                r matches Ok(v) && v == old(self)@ && final(self)@ == old(self)@ + 1
            } else {
                r matches Err(e) && e == CryptoError::CounterWrapped && final(self)@ == old(
                    self,
                )@
            },
    {
        if self.counter == u64::MAX {
            return Err(CryptoError::CounterWrapped);
        }
        let rv = self.counter;
        self.counter = self.counter + 1;
        Ok(rv)
    }
}

} // verus!
