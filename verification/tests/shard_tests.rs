//! Key-to-shard mapping and shard map behavior, cross-checked against the
//! hash library the mapping is built on.

use std::hash::Hasher;

use attachment_service::ids::{NodeId, ShardCount, ShardNumber};
use attachment_service::shard::{
    key_to_shard_number, Key, ShardIdentity, ShardLocation, ShardMap, ShardStripeSize,
    DEFAULT_STRIPE_SIZE, LAYOUT_V1,
};

fn key(field1: u8, field2: u32, field3: u32, field4: u32, field6: u32) -> Key {
    Key { field1, field2, field3, field4, field5: 0, field6 }
}

/// The prescribed mapping, computed here directly from the hash library:
/// 32-bit MurmurHash3 (seed 0) of the prefix bytes, plus the stripe
/// index, taken modulo the count.
fn expected_shard(count: u8, stripe_size: u32, k: &Key) -> u8 {
    let mut hasher = mur3::Hasher32::with_seed(0);
    hasher.write(&[k.field1]);
    hasher.write(&k.field2.to_le_bytes());
    hasher.write(&k.field3.to_le_bytes());
    hasher.write(&k.field4.to_le_bytes());
    let hash = hasher.finish32();
    let stripe = hash as u64 + (k.field6 / stripe_size) as u64;
    (stripe % count as u64) as u8
}

#[test]
fn key_mapping_matches_murmur_hash() {
    let cases = [
        key(1, 2, 3, 4, 0),
        key(0, 0, 0, 0, 0),
        key(255, 0xdead_beef, 0x1234_5678, 42, 8191),
        key(7, 1, 1, 1, 1_000_000),
    ];
    for k in &cases {
        for count in [1u8, 2, 3, 7, 8, 255] {
            let got = key_to_shard_number(ShardCount(count), ShardStripeSize(32768), k);
            assert_eq!(got.0, expected_shard(count, 32768, k), "count {count} key {k:?}");
            assert!(got.0 < count);
        }
    }
}

#[test]
fn key_mapping_unsharded_is_degenerate() {
    let k = key(9, 9, 9, 9, 123456);
    assert_eq!(key_to_shard_number(ShardCount(0), ShardStripeSize(32768), &k).0, 0);
}

#[test]
fn key_mapping_depends_on_block_number() {
    // two keys differing only in the block number land one stripe apart
    let a = key(1, 2, 3, 4, 0);
    let b = key(1, 2, 3, 4, 32768);
    let sa = expected_shard(7, 32768, &a);
    let sb = expected_shard(7, 32768, &b);
    assert_eq!(key_to_shard_number(ShardCount(7), ShardStripeSize(32768), &a).0, sa);
    assert_eq!(key_to_shard_number(ShardCount(7), ShardStripeSize(32768), &b).0, sb);
    assert_ne!(sa, sb);
}

#[test]
fn within_count_bounds() {
    assert!(ShardNumber(0).within_count(ShardCount(1)));
    assert!(ShardNumber(2).within_count(ShardCount(3)));
    assert!(!ShardNumber(3).within_count(ShardCount(3)));
    assert!(!ShardNumber(0).within_count(ShardCount(0)));
}

#[test]
fn default_identity_is_legacy_single_shard() {
    let id = ShardIdentity::default();
    assert_eq!(id.layout.0, LAYOUT_V1);
    assert_eq!(id.number.0, 0);
    assert_eq!(id.count.0, 1);
    assert_eq!(id.stripe_size.0, DEFAULT_STRIPE_SIZE);
    assert_eq!(DEFAULT_STRIPE_SIZE, 32768);
}

#[test]
fn shard_map_holds_locations() {
    let mut map = ShardMap::default_with_shards(ShardCount(2));
    map.pageservers[1] = Some(ShardLocation {
        id: NodeId(3),
        page_service_host: String::from("ps3.local"),
        page_service_port: 6400,
    });
    assert!(map.get_location(ShardNumber(0)).is_none());
    let loc = map.get_location(ShardNumber(1)).as_ref().unwrap();
    assert_eq!(loc.id, NodeId(3));
    assert_eq!(loc.page_service_host, "ps3.local");
    assert_eq!(loc.page_service_port, 6400);
}

#[test]
fn shard_map_defaults_and_identity() {
    let map = ShardMap::default_with_shards(ShardCount(4));
    assert_eq!(map.count.0, 4);
    assert_eq!(map.pageservers.len(), 4);
    for i in 0..4u8 {
        assert!(map.get_location(ShardNumber(i)).is_none());
        let ident = map.get_identity(ShardNumber(i));
        assert_eq!(ident.number.0, i);
        assert_eq!(ident.count.0, 4);
    }
    let k = key(1, 2, 3, 4, 99);
    assert_eq!(
        map.get_shard_number(&k).0,
        expected_shard(4, DEFAULT_STRIPE_SIZE, &k)
    );
    let ident = map.get_identity(ShardNumber(0));
    assert_eq!(
        ident.get_shard_number(&k).0,
        expected_shard(4, DEFAULT_STRIPE_SIZE, &k)
    );
}
