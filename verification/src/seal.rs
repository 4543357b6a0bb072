//! Sealing and opening of disco message bodies.
//!
//! Each pair of peers shares a symmetric key derived by X25519 from one
//! side's secret key and the other side's public key.  A message body is
//! encrypted into an authenticated box under that key with a fresh random
//! 24-byte nonce; the sealed body on the wire is the nonce followed by the
//! ciphertext.
//!
//! Opening classifies failures: a box that does not open (wrong key or
//! tampering) is an [`DiscoBoxError::Open`]; a box that opens to bytes that
//! are not a valid message encoding is a [`DiscoBoxError::Parse`].  Neither
//! closes any connection; both are counted and dropped by the caller.

use vstd::prelude::*;
use crypto_box::aead::Aead;
use crate::addr::NODE_KEY_LEN;
use crate::disco::{
    enc_msg, parse_msg, wf_msg, encode_message, parse_message, enc_addr_list, DiscoMessage,
    DiscoMsgSpec,
};
use crate::split::subvec;

verus! {

/// Length in bytes of the nonce that opens a sealed box.
pub const NONCE_LEN: usize = 24;

/// Largest message body this module seals; well-formed encodings stay far
/// below it.
pub const MAX_SEAL_LEN: usize = 0x200000;

/// The X25519 public key derived from a 32-byte secret key.
pub uninterp spec fn x25519_public(secret: Seq<u8>) -> Seq<u8>;

/// What opening an authenticated box returns: a function of the two sides'
/// public keys (which fix the shared key), the nonce and the ciphertext.
/// `None` when authentication fails.
pub uninterp spec fn box_open_spec(
    sender_pub: Seq<u8>,
    receiver_pub: Seq<u8>,
    nonce: Seq<u8>,
    ciphertext: Seq<u8>,
) -> Option<Seq<u8>>;

/// Relies on `crypto_box::SecretKey::public_key`: the X25519 public key is a
/// function of the secret key alone and is 32 bytes long.
#[verifier::external_body]
pub fn derive_public(secret: &Vec<u8>) -> (r: Vec<u8>)
    requires
        secret@.len() == NODE_KEY_LEN,
    ensures
        r@ == x25519_public(secret@),
        r@.len() == NODE_KEY_LEN,
{
    let sk = crypto_box::SecretKey::from_bytes(secret.as_slice().try_into().unwrap());
    sk.public_key().to_bytes().to_vec()
}

/// Relies on `rand::random`: 24 bytes drawn from the thread-local generator.
/// Nothing is promised of their value.
#[verifier::external_body]
fn random_nonce() -> (r: Vec<u8>)
    ensures
        r@.len() == NONCE_LEN,
{
    let bytes: [u8; 24] = rand::random();
    bytes.to_vec()
}

/// Relies on `crypto_box::ChaChaBox` with `aead::Aead::encrypt`: sealing
/// under the X25519 shared key of (my secret, peer public) produces a box
/// that `decrypt` opens back to the plaintext under the same pair and nonce.
#[verifier::external_body]
fn seal_box(secret: &Vec<u8>, peer_public: &Vec<u8>, nonce: &Vec<u8>, msg: &Vec<u8>) -> (r: Vec<
    u8,
>)
    requires
        secret@.len() == NODE_KEY_LEN,
        peer_public@.len() == NODE_KEY_LEN,
        nonce@.len() == NONCE_LEN,
        msg@.len() <= MAX_SEAL_LEN,
    ensures
        box_open_spec(x25519_public(secret@), peer_public@, nonce@, r@) == Some(msg@),
{
    let sk = crypto_box::SecretKey::from_bytes(secret.as_slice().try_into().unwrap());
    let pk = crypto_box::PublicKey::from_bytes(peer_public.as_slice().try_into().unwrap());
    let bx = crypto_box::ChaChaBox::new(&pk, &sk);
    let n = crypto_box::Nonce::from_slice(nonce.as_slice());
    bx.encrypt(n, msg.as_slice()).expect("sealing cannot fail for bounded plaintext")
}

/// Relies on `crypto_box::ChaChaBox` with `aead::Aead::decrypt`: opening is
/// deterministic in the key pair, nonce and ciphertext, and fails exactly
/// when authentication fails.
#[verifier::external_body]
fn open_box(secret: &Vec<u8>, sender_public: &Vec<u8>, nonce: &Vec<u8>, ciphertext: &Vec<u8>) -> (r:
    Option<Vec<u8>>)
    requires
        secret@.len() == NODE_KEY_LEN,
        sender_public@.len() == NODE_KEY_LEN,
        nonce@.len() == NONCE_LEN,
    ensures
        match r {
            Some(m) => box_open_spec(sender_public@, x25519_public(secret@), nonce@, ciphertext@)
                == Some(m@),
            None => box_open_spec(sender_public@, x25519_public(secret@), nonce@, ciphertext@)
                is None,
        },
{
    let sk = crypto_box::SecretKey::from_bytes(secret.as_slice().try_into().unwrap());
    let pk = crypto_box::PublicKey::from_bytes(sender_public.as_slice().try_into().unwrap());
    let bx = crypto_box::ChaChaBox::new(&pk, &sk);
    let n = crypto_box::Nonce::from_slice(nonce.as_slice());
    bx.decrypt(n, ciphertext.as_slice()).ok()
}

/// What a sealed body opens to: the first 24 bytes are the nonce, the rest
/// the ciphertext.  A body too short to hold a nonce opens to nothing.
pub open spec fn unseal_spec(sender_pub: Seq<u8>, receiver_pub: Seq<u8>, sealed: Seq<u8>) -> Option<
    Seq<u8>,
> {
    if sealed.len() < NONCE_LEN {
        None
    } else {
        box_open_spec(
            sender_pub,
            receiver_pub,
            sealed.subrange(0, NONCE_LEN as int),
            sealed.subrange(NONCE_LEN as int, sealed.len() as int),
        )
    }
}

/// The encoding of a list of addresses takes at most 19 bytes per address.
proof fn lemma_enc_addr_list_len(addrs: Seq<crate::addr::IpPort>)
    ensures
        enc_addr_list(addrs).len() <= addrs.len() * 19,
    decreases addrs.len(),
{
    vstd::bytes::lemma_auto_spec_u16_to_from_le_bytes();
    vstd::bytes::lemma_auto_spec_u32_to_from_le_bytes();
    vstd::bytes::lemma_auto_spec_u128_to_from_le_bytes();
    if addrs.len() > 0 {
        lemma_enc_addr_list_len(addrs.drop_first());
        assert(crate::disco::enc_ipport(addrs[0]).len() <= 19);
        assert(enc_addr_list(addrs).len() == crate::disco::enc_ipport(addrs[0]).len()
            + enc_addr_list(addrs.drop_first()).len());
        assert(addrs.drop_first().len() * 19 == addrs.len() * 19 - 19);
    }
}

/// A well-formed message encodes to fewer than `MAX_SEAL_LEN` bytes.
pub proof fn lemma_enc_msg_len(m: DiscoMsgSpec)
    requires
        wf_msg(m),
    ensures
        enc_msg(m).len() <= MAX_SEAL_LEN,
{
    vstd::bytes::lemma_auto_spec_u16_to_from_le_bytes();
    vstd::bytes::lemma_auto_spec_u32_to_from_le_bytes();
    vstd::bytes::lemma_auto_spec_u128_to_from_le_bytes();
    match m {
        DiscoMsgSpec::Ping { .. } => {},
        DiscoMsgSpec::Pong { tx_id, addr } => {
            assert(crate::disco::enc_send_addr(addr).len() <= 3 + 0xffff);
        },
        DiscoMsgSpec::CallMeMaybe { addrs } => {
            lemma_enc_addr_list_len(addrs);
            assert(addrs.len() * 19 <= 0xffff * 19) by (nonlinear_arith)
                requires
                    addrs.len() <= 0xffff,
            ;
        },
    }
}

/// Why opening a sealed disco message failed.
#[derive(Clone, Copy, Debug, PartialEq, Eq, Structural)]
pub enum DiscoBoxError {
    /// The box did not open: wrong key or a tampered box.
    Open,
    /// The box opened, but its content is not a valid message encoding.
    Parse,
}

/// Encodes a message and seals it to the peer with the given public key.
///
/// The result opens — under the same key pair — to exactly the message's
/// encoding.
pub fn seal_message(my_secret: &Vec<u8>, peer_public: &Vec<u8>, msg: &DiscoMessage) -> (r: Vec<u8>)
    requires
        my_secret@.len() == NODE_KEY_LEN,
        peer_public@.len() == NODE_KEY_LEN,
        msg.wf(),
    ensures
        unseal_spec(x25519_public(my_secret@), peer_public@, r@) == Some(enc_msg(msg.model())),
{
    proof {
        lemma_enc_msg_len(msg.model());
    }
    let body = encode_message(msg);
    let nonce = random_nonce();
    let ct = seal_box(my_secret, peer_public, &nonce, &body);
    let mut sealed = nonce;
    let ghost nonce_seq = sealed@;
    let mut ct2 = ct;
    let ghost ct_seq = ct2@;
    sealed.append(&mut ct2);
    proof {
        assert(sealed@.subrange(0, NONCE_LEN as int) =~= nonce_seq);
        assert(sealed@.subrange(NONCE_LEN as int, sealed@.len() as int) =~= ct_seq);
    }
    sealed
}

/// Opens a sealed disco message body from the peer with the given public key
/// and decodes it.
///
/// Exactly one of three things happens: the box does not open
/// ([`DiscoBoxError::Open`]); it opens but does not decode
/// ([`DiscoBoxError::Parse`]); or the message it encodes is returned.
pub fn unseal_message(my_secret: &Vec<u8>, sender_public: &Vec<u8>, sealed: &Vec<u8>) -> (r: Result<
    DiscoMessage,
    DiscoBoxError,
>)
    requires
        my_secret@.len() == NODE_KEY_LEN,
        sender_public@.len() == NODE_KEY_LEN,
    ensures
        ({
            let opened = unseal_spec(sender_public@, x25519_public(my_secret@), sealed@);
            match r {
                Ok(m) => m.wf() && opened is Some && parse_msg(opened.unwrap()) == Some(m.model()),
                Err(e) => match e {
                    DiscoBoxError::Open => opened is None,
                    DiscoBoxError::Parse => opened is Some && parse_msg(opened.unwrap()) is None,
                },
            }
        }),
{
    if sealed.len() < NONCE_LEN {
        return Err(DiscoBoxError::Open);
    }
    let nonce = subvec(sealed, 0, NONCE_LEN);
    let ct = subvec(sealed, NONCE_LEN, sealed.len());
    match open_box(my_secret, sender_public, &nonce, &ct) {
        None => Err(DiscoBoxError::Open),
        Some(body) => match parse_message(&body) {
            Some(m) => Ok(m),
            None => Err(DiscoBoxError::Parse),
        },
    }
}

/// Law: sealing is lossless.  Whatever a peer's sealed body opens to, if it
/// opens to the encoding of a well-formed message — as everything
/// [`seal_message`] produces does — then decoding gives back exactly that
/// message, never a parse failure and never another message.
pub proof fn lemma_disco_round_trip(
    sender_pub: Seq<u8>,
    receiver_pub: Seq<u8>,
    sealed: Seq<u8>,
    m: DiscoMsgSpec,
)
    requires
        wf_msg(m),
        unseal_spec(sender_pub, receiver_pub, sealed) == Some(enc_msg(m)),
    ensures
        parse_msg(unseal_spec(sender_pub, receiver_pub, sealed).unwrap()) == Some(m),
{
    crate::disco::lemma_parse_msg_encode(m);
}

} // verus!
