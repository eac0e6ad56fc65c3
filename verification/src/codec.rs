//! Fixed-size encrypted packet codec.
//!
//! `pack` frames caller data into one 508-byte datagram: a 4-byte key id with
//! its top bit forced to zero, a fresh 12-byte nonce, 476 bytes of
//! authenticated ciphertext and a 16-byte tag.  The plaintext carries a
//! two-byte frame header, random filler, and the caller's data right-aligned
//! at the tail.

use vstd::prelude::*;

verus! {

/// Largest unit assumed safe for the underlying transport.
pub const MTU: usize = 508;

/// Bytes of plaintext in each packet: the MTU minus key id, nonce and tag.
pub const PLAINTEXT_LEN: usize = 476;

/// Room left for caller data once the two-byte frame header is in place.
pub const MAX_USER_DATA: usize = 474;

/// Frame opcodes.  Only the padding/filler frame is defined so far; its
/// numeric value on the wire is 64.
#[derive(Clone, Copy, Debug, PartialEq, Eq, Structural)]
pub enum OpCode {
    Padding,
}

impl OpCode {
    /// Numeric value of the opcode as it appears, shifted, in the header.
    pub open spec fn spec_value(self) -> u8 {
        match self {
            OpCode::Padding => 64,
        }
    }

    /// Executable twin of `spec_value`.
    pub fn value(self) -> (r: u8)
        ensures
            r == self.spec_value(),
    {
        match self {
            OpCode::Padding => 64,
        }
    }
}

/// Why `pack` or `write_opcode` refused its input.
#[derive(Clone, Copy, Debug, PartialEq, Eq, Structural)]
pub enum PackError {
    /// The caller's data does not fit beside the frame header.
    TooMuchUserData,
    /// The frame length cannot be encoded in the header's length field.
    FrameTooBig,
}

/// First header byte: the opcode shifted up one bit, with the ninth bit of
/// the frame length in the low position.
pub open spec fn header_byte0(code: OpCode, frame_len: int) -> u8 {
    (code.spec_value() * 2 + frame_len / 256) as u8
}

/// Second header byte: the low eight bits of the frame length.
pub open spec fn header_byte1(frame_len: int) -> u8 {
    (frame_len % 256) as u8
}

/// Writes the two-byte frame header into the front of `into`: a 6-bit opcode,
/// criticality and length-extension bits, and the frame length.  Lengths
/// above `PLAINTEXT_LEN` cannot be encoded and are refused.
pub fn write_opcode(into: &mut Vec<u8>, code: OpCode, frame_len: usize) -> (r: Result<
    (),
    PackError,
>)
    requires
        old(into)@.len() >= 2,
    ensures
        match r {
            Ok(()) => frame_len <= PLAINTEXT_LEN && final(into)@ == old(into)@.update(
                0,
                header_byte0(code, frame_len as int),
            ).update(1, header_byte1(frame_len as int)),
            Err(e) => frame_len > PLAINTEXT_LEN && e == PackError::FrameTooBig && final(into)@
                == old(into)@,
        },
{
    if frame_len > PLAINTEXT_LEN {
        return Err(PackError::FrameTooBig);
    }
    let high: u8 = (frame_len / 256) as u8;
    let b0: u8 = code.value() * 2 + high;
    let b1: u8 = (frame_len % 256) as u8;
    into[0] = b0;
    into[1] = b1;
    Ok(())
}

/// What the authenticated encryption produces as ciphertext; a function of
/// key, nonce, associated data and plaintext alone.
pub uninterp spec fn aead_cipher(
    key: Seq<u8>,
    nonce: Seq<u8>,
    aad: Seq<u8>,
    plaintext: Seq<u8>,
) -> Seq<u8>;

/// What the authenticated encryption produces as its tag; a function of key,
/// nonce, associated data and plaintext alone.
pub uninterp spec fn aead_tag(
    key: Seq<u8>,
    nonce: Seq<u8>,
    aad: Seq<u8>,
    plaintext: Seq<u8>,
) -> Seq<u8>;

/// Relies on rand: `Rng::fill_bytes` on the thread-local generator fills the
/// whole slice.  Nothing more can be promised of random bytes.
#[verifier::external_body]
fn random_bytes(n: usize) -> (r: Vec<u8>)
    ensures
        r@.len() == n,
{
    let mut buf = vec![0u8; n];
    rand::Rng::fill_bytes(&mut rand::rng(), &mut buf);
    buf
}

/// Relies on chacha20_poly1305_aead::encrypt: with a 32-byte key and a
/// 12-byte nonce it panics on neither, writes exactly one ciphertext byte
/// per plaintext byte, and returns a 16-byte tag; ciphertext and tag depend
/// on key, nonce, associated data (empty here) and plaintext alone.  The
/// only error paths are the output sink, which for a vector cannot fail,
/// and a block-counter overflow, ruled out by the length bound.
#[verifier::external_body]
fn aead_encrypt(key: &Vec<u8>, nonce: &Vec<u8>, plaintext: &Vec<u8>) -> (r: (Vec<u8>, Vec<u8>))
    requires
        key@.len() == 32,
        nonce@.len() == 12,
        plaintext@.len() < 0x100000000,
    ensures
        r.0@ == aead_cipher(key@, nonce@, Seq::<u8>::empty(), plaintext@),
        r.0@.len() == plaintext@.len(),
        r.1@ == aead_tag(key@, nonce@, Seq::<u8>::empty(), plaintext@),
        r.1@.len() == 16,
{
    let mut cipher: Vec<u8> = Vec::with_capacity(plaintext.len());
    let tag = chacha20_poly1305_aead::encrypt(key, nonce, &[], plaintext, &mut cipher).expect(
        "encrypting into a vector cannot fail",
    );
    (cipher, tag.to_vec())
}

/// The placeholder 32-byte key; key agreement is outside this core.
pub open spec fn zero_key() -> Seq<u8> {
    Seq::new(32, |i: int| 0u8)
}

/// The key id with its top bit forced to zero, marking protocol version 0.
pub open spec fn masked_key_id(key_id: u32) -> u32 {
    key_id % 0x80000000
}

/// The four big-endian bytes of the masked key id.
pub open spec fn key_id_bytes(key_id: u32) -> Seq<u8> {
    seq![
        (masked_key_id(key_id) / 0x1000000) as u8,
        ((masked_key_id(key_id) / 0x10000) % 0x100) as u8,
        ((masked_key_id(key_id) / 0x100) % 0x100) as u8,
        (masked_key_id(key_id) % 0x100) as u8,
    ]
}

/// The 476-byte plaintext laid out by `pack`: the two-byte frame header for
/// a padding frame whose length is all the space not taken by `data`, then
/// the filler, then the caller's data right-aligned at the tail.
pub open spec fn plaintext_bytes(data: Seq<u8>, filler: Seq<u8>) -> Seq<u8> {
    let pad = PLAINTEXT_LEN as int - data.len();
    seq![header_byte0(OpCode::Padding, pad), header_byte1(pad)] + filler + data
}

/// The bytes of one packed unit: big-endian masked key id, then nonce,
/// ciphertext and tag.
pub open spec fn packet_bytes(
    key_id: u32,
    nonce: Seq<u8>,
    cipher: Seq<u8>,
    tag: Seq<u8>,
) -> Seq<u8> {
    key_id_bytes(key_id) + nonce + cipher + tag
}

/// `p` is a packed unit for `key_id` and `data`: some 12-byte nonce and some
/// filler of exactly the padding length produced it, with the ciphertext and
/// tag of the plaintext that right-aligns `data`.  The ciphertext is as long
/// as the plaintext and the tag 16 bytes, so the packet's regions are fixed:
/// ciphertext at bytes 16..492, tag at 492..508.
pub open spec fn is_packed(key_id: u32, data: Seq<u8>, p: Seq<u8>) -> bool {
    exists|nonce: Seq<u8>, filler: Seq<u8>|
        nonce.len() == 12 && filler.len() == PLAINTEXT_LEN as int - 2 - data.len()
            && aead_cipher(zero_key(), nonce, Seq::<u8>::empty(), plaintext_bytes(data, filler)).len()
            == PLAINTEXT_LEN as int
            && aead_tag(zero_key(), nonce, Seq::<u8>::empty(), plaintext_bytes(data, filler)).len()
            == 16 && p == packet_bytes(
            key_id,
            nonce,
            aead_cipher(zero_key(), nonce, Seq::<u8>::empty(), plaintext_bytes(data, filler)),
            aead_tag(zero_key(), nonce, Seq::<u8>::empty(), plaintext_bytes(data, filler)),
        )
}

/// Law: the plaintext packed around any fitting `data` is exactly
/// `PLAINTEXT_LEN` bytes and decodes as a padding frame: its first byte
/// carries opcode 64, its length field is the padding length — between 2
/// and `PLAINTEXT_LEN`, and exactly the space `data` does not use — and its
/// final bytes past the padding are `data`, unchanged.
pub proof fn lemma_plaintext_layout(data: Seq<u8>, filler: Seq<u8>)
    requires
        data.len() <= MAX_USER_DATA as int,
        filler.len() == PLAINTEXT_LEN as int - 2 - data.len(),
    ensures
        plaintext_bytes(data, filler).len() == PLAINTEXT_LEN as int,
        plaintext_bytes(data, filler)[0] / 2 == 64,
        ({
            let p = plaintext_bytes(data, filler);
            let decoded = (p[0] % 2) * 256 + p[1];
            2 <= decoded <= PLAINTEXT_LEN as int && decoded == PLAINTEXT_LEN as int - data.len()
                && p.skip(decoded) == data
        }),
{
    let pad = PLAINTEXT_LEN as int - data.len();
    let p = plaintext_bytes(data, filler);
    assert(p[0] == header_byte0(OpCode::Padding, pad));
    assert(p[1] == header_byte1(pad));
    assert(header_byte0(OpCode::Padding, pad) == 128 + pad / 256) by {
        assert(OpCode::Padding.spec_value() == 64);
    }
    assert((p[0] % 2) * 256 + p[1] == pad);
    assert(p.skip(pad) =~= data);
}

/// Builds one fixed-size encrypted datagram from a key identifier and the
/// caller's data.  Data longer than `MAX_USER_DATA` is refused before any
/// cryptographic work; otherwise the unit is exactly `MTU` bytes, its first
/// byte always has a clear top bit, its first four bytes are the big-endian
/// masked key id, and the rest is a fresh nonce with the authenticated
/// ciphertext and tag of the padded plaintext.
pub fn pack(key_id: u32, data: &Vec<u8>) -> (r: Result<Vec<u8>, PackError>)
    ensures
        match r {
            Ok(p) => data@.len() <= MAX_USER_DATA && p@.len() == MTU && p@.subrange(0, 4)
                == key_id_bytes(key_id) && p@[0] < 128 && is_packed(key_id, data@, p@),
            Err(e) => data@.len() > MAX_USER_DATA && e == PackError::TooMuchUserData,
        },
{
    if data.len() > MAX_USER_DATA {
        return Err(PackError::TooMuchUserData);
    }
    let pad: usize = PLAINTEXT_LEN - data.len();
    let nonce = random_bytes(12);
    let ghost noncev = nonce@;
    let filler = random_bytes(pad - 2);
    let ghost fillerv = filler@;
    let mut plaintext = crate::chunks::zero_bytes(2);
    match write_opcode(&mut plaintext, OpCode::Padding, pad) {
        Ok(()) => {},
        Err(e) => {
            // `pad` never exceeds `PLAINTEXT_LEN`, so the header always
            // encodes; this arm is proved unreachable.
            proof {
                assert(false);
            }
            return Err(e);
        },
    }
    proof {
        assert(plaintext@ =~= seq![
            header_byte0(OpCode::Padding, pad as int),
            header_byte1(pad as int),
        ]);
    }
    let mut f2 = filler;
    plaintext.append(&mut f2);
    let mut d2 = crate::chunks::clone_bytes(data);
    plaintext.append(&mut d2);
    proof {
        assert(plaintext@ =~= plaintext_bytes(data@, fillerv));
    }
    let key = crate::chunks::zero_bytes(32);
    proof {
        assert(key@ =~= zero_key());
    }
    let (cipher, tag) = aead_encrypt(&key, &nonce, &plaintext);
    let ghost cipherv = cipher@;
    let ghost tagv = tag@;
    let masked: u32 = key_id % 0x80000000;
    let mut packet: Vec<u8> = Vec::new();
    packet.push((masked / 0x1000000) as u8);
    packet.push(((masked / 0x10000) % 0x100) as u8);
    packet.push(((masked / 0x100) % 0x100) as u8);
    packet.push((masked % 0x100) as u8);
    let mut n2 = nonce;
    packet.append(&mut n2);
    let mut c2 = cipher;
    packet.append(&mut c2);
    let mut t2 = tag;
    packet.append(&mut t2);
    proof {
        assert(packet@.subrange(0, 4) =~= key_id_bytes(key_id));
        assert(packet@ =~= packet_bytes(key_id, noncev, cipherv, tagv));
        assert(cipherv.len() == PLAINTEXT_LEN as int);
        assert(tagv.len() == 16);
        assert(noncev.len() == 12 && fillerv.len() == PLAINTEXT_LEN as int - 2 - data@.len()
            && cipherv.len() == PLAINTEXT_LEN as int && tagv.len() == 16 && packet@
            == packet_bytes(
            key_id,
            noncev,
            aead_cipher(zero_key(), noncev, Seq::<u8>::empty(), plaintext_bytes(data@, fillerv)),
            aead_tag(zero_key(), noncev, Seq::<u8>::empty(), plaintext_bytes(data@, fillerv)),
        ));
        assert(is_packed(key_id, data@, packet@));
    }
    Ok(packet)
}

} // verus!
