//! SHA-256 chain hashing of audit entries.
//!
//! Each entry's hash is `SHA-256(prev_hash || payload)`, where the payload is
//! the entry's numeric fields in big-endian order followed by the SHA-256
//! digests of its actor, portfolio, outcome, detail and its two state
//! snapshots. Digests are computed by the Soroban host; this module lays out
//! the bytes that are hashed and makes the hashing calls.

use crate::audit::StateSnapshot;
use crate::bytes::{be_i128, be_seq, be_u32, be_u64};
use vstd::prelude::*;

verus! {

/// The Soroban host environment, through which digests are computed.
#[verifier::external_type_specification]
#[verifier::external_body]
pub struct ExEnv(soroban_sdk::Env);

/// The SHA-256 digest of a byte string.
pub uninterp spec fn sha256_digest(data: Seq<u8>) -> Seq<u8>;

/// `Crypto::sha256` of `soroban_sdk` (reached through `Env::crypto`), taken
/// on trust: the host's SHA-256 digest of `data`, a function of the bytes
/// alone. The host aborts the call once its resource budget is spent,
/// which no clause here states.
#[verifier::external_body]
fn sha256(env: &soroban_sdk::Env, data: &Vec<u8>) -> (digest: [u8; 32])
    ensures
        digest@ == sha256_digest(data@),
{
    env.crypto().sha256(&soroban_sdk::Bytes::from_slice(env, data.as_slice())).to_array()
}

/// The low byte of a character's code point.
pub open spec fn low_byte(c: char) -> u8 {
    ((c as u32) % 256) as u8
}

/// A text as bytes: each character's low byte (exact for ASCII text).
pub open spec fn text_bytes(s: Seq<char>) -> Seq<u8> {
    s.map_values(|c: char| low_byte(c))
}

/// The bytes of a snapshot's fields from the first `n`: each key's text
/// bytes followed by its value as 16 big-endian bytes.
pub open spec fn fields_bytes(s: StateSnapshot, n: int) -> Seq<u8>
    decreases n,
{
    if n <= 0 {
        Seq::empty()
    } else {
        let f = s.fields@[n - 1];
        fields_bytes(s, n - 1) + text_bytes(f.key@) + be_seq((f.value as u128) as nat, 16)
    }
}

/// The serialized snapshot: the field count as 4 big-endian bytes, then
/// every field.
pub open spec fn snapshot_layout(s: StateSnapshot) -> Seq<u8> {
    be_seq(s.fields@.len(), 4) + fields_bytes(s, s.fields@.len() as int)
}

/// Append `bytes` to `out`.
fn append(out: &mut Vec<u8>, bytes: &[u8])
    ensures
        final(out)@ == old(out)@ + bytes@,
{
    let ghost start = out@;
    let mut i: usize = 0;
    while i < bytes.len()
        invariant
            i <= bytes@.len(),
            out@ == start + bytes@.take(i as int),
        decreases bytes@.len() - i,
    {
        out.push(bytes[i]);
        assert(bytes@.take(i + 1) =~= bytes@.take(i as int).push(bytes@[i as int]));
        i = i + 1;
    }
    assert(bytes@.take(bytes@.len() as int) =~= bytes@);
}

/// A text's bytes: each character's low byte.
pub fn string_bytes(s: &String) -> (b: Vec<u8>)
    ensures
        b@ == text_bytes(s@),
{
    let text = s.as_str();
    let n = text.unicode_len();
    let mut b: Vec<u8> = Vec::new();
    let mut i: usize = 0;
    while i < n
        invariant
            n == s@.len(),
            text@ == s@,
            i <= n,
            b@ == text_bytes(s@.take(i as int)),
        decreases n - i,
    {
        let c = text.get_char(i);
        let byte: u8 = (c as u32 % 256) as u8;
        b.push(byte);
        assert(text_bytes(s@.take(i + 1)) =~= text_bytes(s@.take(i as int)).push(low_byte(c)));
        i = i + 1;
    }
    assert(s@.take(n as int) =~= s@);
    b
}

/// A snapshot's bytes: the field count, then each key's text bytes and
/// value.
pub fn snapshot_bytes(s: &StateSnapshot) -> (b: Vec<u8>)
    requires
        s.fields@.len() <= u32::MAX,
    ensures
        b@ == snapshot_layout(*s),
{
    let mut b = be_u32(s.fields.len() as u32);
    let mut i: usize = 0;
    while i < s.fields.len()
        invariant
            i <= s.fields@.len(),
            b@ == be_seq(s.fields@.len(), 4) + fields_bytes(*s, i as int),
        decreases s.fields@.len() - i,
    {
        let ghost before = b@;
        let key = string_bytes(&s.fields[i].key);
        append(&mut b, key.as_slice());
        let value = be_i128(s.fields[i].value);
        append(&mut b, value.as_slice());
        assert(b@ =~= be_seq(s.fields@.len(), 4) + fields_bytes(*s, i + 1));
        i = i + 1;
    }
    b
}

/// The payload layout: `seq` and `timestamp` as 8 big-endian bytes each,
/// `event_type_id` and `permissions` as 4 each, then the six digests.
pub open spec fn payload_layout(
    seq: u64,
    timestamp: u64,
    event_type_id: u32,
    permissions: u32,
    actor_digest: Seq<u8>,
    portfolio_digest: Seq<u8>,
    outcome_digest: Seq<u8>,
    detail_digest: Seq<u8>,
    before_digest: Seq<u8>,
    after_digest: Seq<u8>,
) -> Seq<u8> {
    be_seq(seq as nat, 8) + be_seq(timestamp as nat, 8) + be_seq(event_type_id as nat, 4) + be_seq(
        permissions as nat,
        4,
    ) + actor_digest + portfolio_digest + outcome_digest + detail_digest + before_digest
        + after_digest
}

/// The payload hashed for an entry, given the six 32-byte digests of its
/// actor, portfolio, outcome, detail, state before and state after.
pub fn payload_from_digests(
    seq: u64,
    timestamp: u64,
    event_type_id: u32,
    permissions: u32,
    actor_digest: &[u8; 32],
    portfolio_digest: &[u8; 32],
    outcome_digest: &[u8; 32],
    detail_digest: &[u8; 32],
    before_digest: &[u8; 32],
    after_digest: &[u8; 32],
) -> (b: Vec<u8>)
    ensures
        b@ == payload_layout(
            seq,
            timestamp,
            event_type_id,
            permissions,
            actor_digest@,
            portfolio_digest@,
            outcome_digest@,
            detail_digest@,
            before_digest@,
            after_digest@,
        ),
        b@.len() == 216,
{
    let mut b = be_u64(seq);
    let t = be_u64(timestamp);
    append(&mut b, t.as_slice());
    let e = be_u32(event_type_id);
    append(&mut b, e.as_slice());
    let p = be_u32(permissions);
    append(&mut b, p.as_slice());
    append(&mut b, actor_digest);
    append(&mut b, portfolio_digest);
    append(&mut b, outcome_digest);
    append(&mut b, detail_digest);
    append(&mut b, before_digest);
    append(&mut b, after_digest);
    b
}

/// The canonical payload hashed for an audit entry (its hash excluded): the
/// numeric fields, then the digests of the actor's, portfolio's, outcome's
/// and detail's text bytes and of the two serialized snapshots.
pub fn entry_payload(
    env: &soroban_sdk::Env,
    seq: u64,
    timestamp: u64,
    event_type_id: u32,
    permissions: u32,
    actor: &String,
    portfolio: &String,
    outcome: &String,
    detail: &String,
    state_before: &StateSnapshot,
    state_after: &StateSnapshot,
) -> (b: Vec<u8>)
    requires
        state_before.fields@.len() <= u32::MAX,
        state_after.fields@.len() <= u32::MAX,
    ensures
        b@ == payload_layout(
            seq,
            timestamp,
            event_type_id,
            permissions,
            sha256_digest(text_bytes(actor@)),
            sha256_digest(text_bytes(portfolio@)),
            sha256_digest(text_bytes(outcome@)),
            sha256_digest(text_bytes(detail@)),
            sha256_digest(snapshot_layout(*state_before)),
            sha256_digest(snapshot_layout(*state_after)),
        ),
{
    let actor_digest = sha256(env, &string_bytes(actor));
    let portfolio_digest = sha256(env, &string_bytes(portfolio));
    let outcome_digest = sha256(env, &string_bytes(outcome));
    let detail_digest = sha256(env, &string_bytes(detail));
    let before_digest = sha256(env, &snapshot_bytes(state_before));
    let after_digest = sha256(env, &snapshot_bytes(state_after));
    payload_from_digests(
        seq,
        timestamp,
        event_type_id,
        permissions,
        &actor_digest,
        &portfolio_digest,
        &outcome_digest,
        &detail_digest,
        &before_digest,
        &after_digest,
    )
}

/// The entry hash: `SHA-256(prev_hash || payload)`.
pub fn chain_hash(env: &soroban_sdk::Env, prev_hash: &[u8; 32], payload: &Vec<u8>) -> (h: [u8; 32])
    ensures
        h@ == sha256_digest(prev_hash@ + payload@),
{
    sha256(env, &chain_preimage(prev_hash, payload))
}

/// The chain head before any entry: all zeros.
pub const CHAIN_ORIGIN: [u8; 32] = [
    0, 0, 0, 0, 0, 0, 0, 0, 0, 0, 0, 0, 0, 0, 0, 0, 0, 0, 0, 0, 0, 0, 0, 0, 0, 0, 0, 0, 0, 0, 0, 0,
];

/// The hash of the very first entry, chained onto [`CHAIN_ORIGIN`].
pub fn first_chain_hash(env: &soroban_sdk::Env, payload: &Vec<u8>) -> (h: [u8; 32])
    ensures
        h@ == sha256_digest(CHAIN_ORIGIN@ + payload@),
{
    chain_hash(env, &CHAIN_ORIGIN, payload)
}

/// The bytes hashed to chain an entry: the previous hash, then the payload.
pub fn chain_preimage(prev_hash: &[u8; 32], payload: &Vec<u8>) -> (b: Vec<u8>)
    ensures
        b@ == prev_hash@ + payload@,
{
    let mut b: Vec<u8> = Vec::new();
    append(&mut b, prev_hash);
    append(&mut b, payload.as_slice());
    assert(Seq::<u8>::empty() + prev_hash@ =~= prev_hash@);
    b
}

} // verus!
