use astraport::audit::checksum::{
    chain_hash, chain_preimage, entry_payload, first_chain_hash, payload_from_digests,
    snapshot_bytes, string_bytes, CHAIN_ORIGIN,
};
use astraport::audit::log_query::LogQuery;
use astraport::audit::{AuditLog, SnapshotField, StateSnapshot};
use astraport::bytes::{be_i128, be_u32, be_u64};

fn entry(ts: u64, event_type: u32, actor: &str, portfolio: &str) -> AuditLog {
    AuditLog {
        seq: 0,
        timestamp: ts,
        event_type,
        permissions: 1,
        actor: actor.to_string(),
        portfolio: portfolio.to_string(),
        outcome: "done".to_string(),
        detail: String::new(),
        state_before: StateSnapshot { fields: vec![] },
        state_after: StateSnapshot { fields: vec![] },
    }
}

#[test]
fn empty_query_matches_everything() {
    let q = LogQuery::new(10);
    assert_eq!(q.limit, 10);
    assert_eq!(q.portfolio, "none");
    assert!(q.matches(&entry(0, 3, "GA", "p1")));
    assert!(q.matches(&entry(u64::MAX, 0, "", "")));
}

#[test]
fn query_filters_combine() {
    let q = LogQuery::new(5)
        .from_ts(100)
        .to_ts(200)
        .event_type(2)
        .actor("GA".to_string())
        .portfolio("p1".to_string())
        .limit(7);
    assert_eq!(q.limit, 7);
    assert!(q.matches(&entry(100, 2, "GA", "p1")));
    assert!(q.matches(&entry(200, 2, "GA", "p1")));
    assert!(!q.matches(&entry(99, 2, "GA", "p1")));
    assert!(!q.matches(&entry(201, 2, "GA", "p1")));
    assert!(!q.matches(&entry(150, 1, "GA", "p1")));
    assert!(!q.matches(&entry(150, 2, "GB", "p1")));
    assert!(!q.matches(&entry(150, 2, "GA", "p2")));
}

#[test]
fn big_endian_encodings() {
    assert_eq!(be_u64(0x0102_0304_0506_0708), vec![1, 2, 3, 4, 5, 6, 7, 8]);
    assert_eq!(be_u32(258), vec![0, 0, 1, 2]);
    assert_eq!(be_i128(-2), {
        let mut v = vec![0xff; 15];
        v.push(0xfe);
        v
    });
    assert_eq!(be_i128(i128::MAX), i128::MAX.to_be_bytes().to_vec());
}

#[test]
fn text_and_snapshot_bytes() {
    assert_eq!(string_bytes(&"USDC".to_string()), b"USDC".to_vec());
    assert_eq!(string_bytes(&String::new()), Vec::<u8>::new());
    let snap = StateSnapshot {
        fields: vec![
            SnapshotField { key: "A".to_string(), value: 1 },
            SnapshotField { key: "BC".to_string(), value: -1 },
        ],
    };
    let mut expected = vec![0, 0, 0, 2, b'A'];
    expected.extend_from_slice(&1i128.to_be_bytes());
    expected.extend_from_slice(b"BC");
    expected.extend_from_slice(&(-1i128).to_be_bytes());
    assert_eq!(snapshot_bytes(&snap), expected);
}

#[test]
fn payload_and_chain_layout() {
    let d = |x: u8| [x; 32];
    let payload = payload_from_digests(1, 2, 3, 4, &d(10), &d(11), &d(12), &d(13), &d(14), &d(15));
    assert_eq!(payload.len(), 216);
    assert_eq!(&payload[..8], &1u64.to_be_bytes());
    assert_eq!(&payload[8..16], &2u64.to_be_bytes());
    assert_eq!(&payload[16..20], &3u32.to_be_bytes());
    assert_eq!(&payload[20..24], &4u32.to_be_bytes());
    assert_eq!(payload[24], 10);
    assert_eq!(payload[215], 15);
    let pre = chain_preimage(&d(9), &payload);
    assert_eq!(pre.len(), 248);
    assert_eq!(&pre[..32], &[9u8; 32]);
    assert_eq!(&pre[32..], &payload[..]);
}

const SHA256_GA: [u8; 32] = [
    15, 188, 38, 72, 94, 35, 47, 87, 43, 26, 33, 241, 201, 224, 95, 131, 44, 84, 251, 186, 30,
    249, 90, 103, 203, 187, 1, 2, 209, 119, 76, 190,
];

const SHA256_FOUR_ZEROS: [u8; 32] = [
    223, 63, 97, 152, 4, 169, 47, 219, 64, 87, 25, 45, 196, 61, 215, 72, 234, 119, 138, 220, 82,
    188, 73, 140, 232, 5, 36, 192, 20, 184, 17, 25,
];

#[test]
fn entry_payload_hashes_each_part() {
    let env = soroban_sdk::Env::default();
    let empty = StateSnapshot { fields: vec![] };
    let payload = entry_payload(
        &env,
        1,
        2,
        3,
        4,
        &"GA".to_string(),
        &"p1".to_string(),
        &"ok".to_string(),
        &String::new(),
        &empty,
        &empty,
    );
    assert_eq!(payload.len(), 216);
    assert_eq!(&payload[..8], &1u64.to_be_bytes());
    assert_eq!(&payload[24..56], &SHA256_GA);
    assert_eq!(&payload[152..184], &SHA256_FOUR_ZEROS);
    assert_eq!(&payload[184..216], &SHA256_FOUR_ZEROS);
}

#[test]
fn chain_hash_is_sha256_of_previous_hash_and_payload() {
    let env = soroban_sdk::Env::default();
    let h = chain_hash(&env, &[7u8; 32], &vec![1, 2, 3]);
    assert_eq!(
        h,
        [
            76, 135, 80, 140, 43, 70, 211, 120, 73, 86, 205, 165, 36, 161, 219, 19, 114, 207, 72,
            8, 197, 156, 204, 39, 117, 185, 86, 137, 229, 203, 48, 245,
        ]
    );
    assert_ne!(chain_hash(&env, &[8u8; 32], &vec![1, 2, 3]), h);
}

#[test]
fn first_entry_chains_onto_the_zero_origin() {
    let env = soroban_sdk::Env::default();
    assert_eq!(CHAIN_ORIGIN, [0u8; 32]);
    let h = first_chain_hash(&env, &vec![1, 2, 3]);
    assert_eq!(h, chain_hash(&env, &[0u8; 32], &vec![1, 2, 3]));
    assert_eq!(h, [68, 0, 193, 184, 99, 138, 194, 220, 227, 206, 14, 16, 184, 168, 145, 23, 89, 38, 202, 41, 167, 36, 110, 150, 239, 65, 170, 129, 241, 18, 1, 204]);
}
