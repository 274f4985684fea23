//! The rules of the transport: framing, handshake, and who is let in.
//!
//! A frame is the length of its payload, as four bytes with the highest first,
//! followed by the payload. Public keys are exchanged in the handshake, and
//! kept to check the signatures of later votes.

use crate::bytes::push_bytes;
use crate::crypto::{ed25519_is_key, is_public_key};
use crate::messages::{Msg, Wire};
use std::collections::HashMap;
use vstd::prelude::*;

verus! {

// ---- Framing ----

/// The number of bytes of a frame before its payload.
pub const HEADER_LEN: usize = 4;

/// A number as four bytes, the highest first.
pub open spec fn be32(n: u32) -> Seq<u8> {
    seq![
        (n / 0x100_0000) as u8,
        (n / 0x1_0000 % 0x100) as u8,
        (n / 0x100 % 0x100) as u8,
        (n % 0x100) as u8,
    ]
}

/// The number that four bytes stand for, the highest first.
pub open spec fn be_value(s: Seq<u8>) -> int {
    s[0] * 0x100_0000 + s[1] * 0x1_0000 + s[2] * 0x100 + s[3]
}

/// The frame of a payload. Lengths are taken modulo 2^32.
pub open spec fn frame_of(payload: Seq<u8>) -> Seq<u8> {
    be32((payload.len() % 0x1_0000_0000) as u32) + payload
}

/// Wraps a payload in a frame.
pub fn frame(payload: &[u8]) -> (r: Vec<u8>)
    ensures
        r@ == frame_of(payload@),
{
    let len = (payload.len() as u64 % 0x1_0000_0000) as u32;
    let mut out: Vec<u8> = Vec::new();
    out.push((len / 0x100_0000) as u8);
    out.push((len / 0x1_0000 % 0x100) as u8);
    out.push((len / 0x100 % 0x100) as u8);
    out.push((len % 0x100) as u8);
    assert(out@ =~= be32(len));
    push_bytes(&mut out, payload);
    out
}

/// The length of the payload that follows a frame's header.
pub fn frame_len(header: &[u8; 4]) -> (r: u32)
    ensures
        r == be_value(header@),
{
    let a = header[0] as u32;
    let b = header[1] as u32;
    let c = header[2] as u32;
    let d = header[3] as u32;
    a * 0x100_0000 + b * 0x1_0000 + c * 0x100 + d
}

// ---- Handshake ----

/// Who greets in a message, and with which public key.
pub open spec fn greeter(msg: Msg) -> Option<(u32, [u8; 32])> {
    match msg {
        Msg::Hello { node_id, pubkey } => Some((node_id, pubkey)),
        _ => None,
    }
}

/// The public keys that are known after a peer has shown its own.
pub open spec fn keys_with(
    keys: Map<u32, [u8; 32]>,
    peer_id: u32,
    pubkey: [u8; 32],
    key_ok: bool,
) -> Map<u32, [u8; 32]> {
    if key_ok {
        keys.insert(peer_id, pubkey)
    } else {
        keys
    }
}

/// The first message on a connection.
pub fn hello(my_id: u32, my_pk: [u8; 32]) -> (r: Wire)
    ensures
        r@ == (Msg::Hello { node_id: my_id, pubkey: my_pk }),
        greeter(r@) == Some((my_id, my_pk)),
{
    Wire::Hello { node_id: my_id, pubkey: my_pk }
}

/// Who the peer says it is in its first message. A message that is no greeting
/// is handed back.
pub fn greeting(msg: Wire) -> (r: Result<(u32, [u8; 32]), Wire>)
    ensures
        r is Ok <==> greeter(msg@) is Some,
        r matches Ok(who) ==> greeter(msg@) == Some(who),
        match r {
            Ok((node_id, pubkey)) => msg@ == (Msg::Hello { node_id, pubkey }),
            Err(other) => other == msg && !(msg@ is Hello),
        },
{
    match msg {
        Wire::Hello { node_id, pubkey } => Ok((node_id, pubkey)),
        other => Err(other),
    }
}

/// What becomes of a connection after its handshake.
#[derive(Clone, Copy, Debug, PartialEq, Eq, Structural)]
pub enum Admission {
    /// The peer's public key is not one.
    InvalidKey,
    /// There is a connection to the peer already.
    Duplicate,
    Accepted,
}

/// Whether a peer is let in that is `connected` already or not, and whose
/// public key is valid or not.
pub open spec fn admission(key_ok: bool, connected: bool) -> Admission {
    if !key_ok {
        Admission::InvalidKey
    } else if connected {
        Admission::Duplicate
    } else {
        Admission::Accepted
    }
}

/// Decides on a connection to `peer_id`, and keeps the peer's public key if it
/// is one. The key is kept before the connection counts, so that no message
/// of the peer is checked without it.
pub fn admit_peer(
    peer_keys: &mut HashMap<u32, [u8; 32]>,
    peer_id: u32,
    pubkey: [u8; 32],
    connected: bool,
) -> (r: Admission)
    ensures
        r == admission(ed25519_is_key(pubkey@), connected),
        final(peer_keys)@ == keys_with(
            old(peer_keys)@,
            peer_id,
            pubkey,
            ed25519_is_key(pubkey@),
        ),
        final(peer_keys)@ == if ed25519_is_key(pubkey@) {
            old(peer_keys)@.insert(peer_id, pubkey)
        } else {
            old(peer_keys)@
        },
{
    let key_ok = is_public_key(&pubkey);
    admit_checked_peer(peer_keys, peer_id, pubkey, key_ok, connected)
}

/// [`admit_peer`] for a public key that has been checked: `key_ok` says whether
/// it is one.
pub fn admit_checked_peer(
    peer_keys: &mut HashMap<u32, [u8; 32]>,
    peer_id: u32,
    pubkey: [u8; 32],
    key_ok: bool,
    connected: bool,
) -> (r: Admission)
    ensures
        r == admission(key_ok, connected),
        final(peer_keys)@ == keys_with(old(peer_keys)@, peer_id, pubkey, key_ok),
        final(peer_keys)@ == if key_ok {
            old(peer_keys)@.insert(peer_id, pubkey)
        } else {
            old(peer_keys)@
        },
{
    if !key_ok {
        return Admission::InvalidKey;
    }
    peer_keys.insert(peer_id, pubkey);
    if connected {
        Admission::Duplicate
    } else {
        Admission::Accepted
    }
}

// ---- Dialing ----

/// How long to wait after the first failed attempt to connect.
pub const FIRST_BACKOFF_MS: u64 = 200;

/// How long to wait between attempts at most.
pub const MAX_BACKOFF_MS: u64 = 2000;

/// Twice a wait, or [`MAX_BACKOFF_MS`] where that is shorter.
pub open spec fn backoff_after(backoff_ms: u64) -> int {
    if 2 * backoff_ms < MAX_BACKOFF_MS {
        2 * backoff_ms
    } else {
        MAX_BACKOFF_MS as int
    }
}

/// How long to wait after an attempt to connect that followed a wait of
/// `backoff_ms`: twice as long, up to [`MAX_BACKOFF_MS`].
pub fn next_backoff(backoff_ms: u64) -> (r: u64)
    requires
        2 * backoff_ms <= u64::MAX,
    ensures
        r == backoff_after(backoff_ms),
{
    let doubled = backoff_ms * 2;
    if doubled < MAX_BACKOFF_MS {
        doubled
    } else {
        MAX_BACKOFF_MS
    }
}

/// Whether as many replicas are connected as `n` replicas need.
pub open spec fn all_connected(connected: u32, n: u32) -> bool {
    connected >= n - 1
}

/// How many replicas there are with `others` other ones.
pub open spec fn size_with(others: u32) -> int {
    others + 1
}

/// Whether all of the `n - 1` other replicas are connected.
pub fn peers_ready(connected: u32, n: u32) -> (r: bool)
    requires
        n >= 1,
    ensures
        r == (connected >= n - 1),
        r == all_connected(connected, n),
{
    connected >= n - 1
}

/// The number of replicas, given how many others there are.
pub fn cluster_size(others: u32) -> (r: u32)
    requires
        others < u32::MAX,
    ensures
        r == others + 1,
        r == size_with(others),
{
    others + 1
}

// ---- Laws ----

/// A frame can be taken apart again: its header gives the length of the
/// payload, and the payload follows. Payloads of 2^32 bytes or more have no
/// frame of their own.
pub proof fn law_frame_round_trip(payload: Seq<u8>)
    requires
        payload.len() < 0x1_0000_0000,
    ensures
        frame_of(payload).len() == HEADER_LEN + payload.len(),
        be_value(frame_of(payload).take(HEADER_LEN as int)) == payload.len(),
        frame_of(payload).skip(HEADER_LEN as int) == payload,
{
    let n = payload.len() as u32;
    assert(n == payload.len() % 0x1_0000_0000);
    assert(frame_of(payload).take(4) =~= be32(n));
    assert(frame_of(payload).skip(4) =~= payload);
}

/// The wait between attempts to connect never gets shorter, and never longer
/// than [`MAX_BACKOFF_MS`].
pub proof fn law_backoff_bounded(backoff_ms: u64)
    requires
        backoff_ms <= MAX_BACKOFF_MS,
    ensures
        backoff_ms <= backoff_after(backoff_ms) <= MAX_BACKOFF_MS,
{
}


/// The header of a frame is the length of its payload, modulo 2^32, in four bytes,
/// the highest first, and the payload follows; headers are read the same way.
pub proof fn law_header_is_big_endian(payload: Seq<u8>, header: Seq<u8>)
    requires
        header.len() == 4,
    ensures
        ({
            let f = frame_of(payload);
            let n = (payload.len() % 0x1_0000_0000) as u32;
            &&& f.len() == 4 + payload.len()
            &&& f[0] == n / 0x100_0000
            &&& f[1] == n / 0x1_0000 % 0x100
            &&& f[2] == n / 0x100 % 0x100
            &&& f[3] == n % 0x100
            &&& f.skip(4) == payload
        }),
        be_value(header) == ((header[0] * 0x100 + header[1]) * 0x100 + header[2]) * 0x100
            + header[3],
        HEADER_LEN == 4,
{
    let n = (payload.len() % 0x1_0000_0000) as u32;
    assert(n / 0x100_0000 < 0x100);
    assert(frame_of(payload).skip(4) =~= payload);
}

/// A peer is let in if its key is one and it is not connected yet. A key that is
/// none comes before a connection that is there.
pub proof fn law_admission(key_ok: bool, connected: bool)
    ensures
        admission(key_ok, connected) == Admission::Accepted <==> key_ok && !connected,
        admission(key_ok, connected) == Admission::Duplicate <==> key_ok && connected,
        admission(key_ok, connected) == Admission::InvalidKey <==> !key_ok,
{
}

/// Each wait is twice the one before, up to two seconds; the first is a fifth of
/// a second.
pub proof fn law_backoff_doubles(backoff_ms: u64)
    ensures
        FIRST_BACKOFF_MS == 200,
        MAX_BACKOFF_MS == 2000,
        backoff_ms <= 1000 ==> backoff_after(backoff_ms) == 2 * backoff_ms,
        backoff_ms > 1000 ==> backoff_after(backoff_ms) == 2000,
{
}

/// A replica is ready once the connected ones and itself are all there are, and
/// the replicas are the others and itself.
pub proof fn law_everybody_counts(connected: u32, n: u32)
    requires
        n >= 1,
    ensures
        all_connected(connected, n) <==> connected + 1 >= n,
        size_with((n - 1) as u32) == n,
{
}

/// A greeting tells who greets and with which key; no other message does.
pub proof fn law_greetings_tell_who(msg: Msg, node_id: u32, pubkey: [u8; 32])
    ensures
        greeter(Msg::Hello { node_id, pubkey }) == Some((node_id, pubkey)),
        !(msg is Hello) ==> greeter(msg) is None,
{
}

/// The key of a peer is known after its greeting if it is one, and all other keys
/// stay as they were.
pub proof fn law_key_is_kept(
    keys: Map<u32, [u8; 32]>,
    peer_id: u32,
    pubkey: [u8; 32],
    other: u32,
)
    ensures
        keys_with(keys, peer_id, pubkey, false) == keys,
        keys_with(keys, peer_id, pubkey, true).contains_key(peer_id),
        keys_with(keys, peer_id, pubkey, true)[peer_id] == pubkey,
        other != peer_id ==> {
            let after = keys_with(keys, peer_id, pubkey, true);
            &&& after.contains_key(other) == keys.contains_key(other)
            &&& after[other] == keys[other]
        },
{
}

} // verus!
