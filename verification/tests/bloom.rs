//! Bloom filters of the collector.
use artifact_depot::error::DepotError;
use artifact_depot::gc::bloom::{
    bloom_check, bloom_countable, bloom_empty_like, bloom_set, bloom_union, bloom_usable,
    BloomAccumulator,
};
use bloomfilter::Bloom;

fn filter(items: usize) -> Bloom<[u8]> {
    Bloom::new_for_fp_rate(items, 0.01).unwrap()
}

#[test]
fn bloom_filter_basic() {
    let mut bf = filter(100);
    bloom_set(&mut bf, b"hello");
    bloom_set(&mut bf, b"world");
    assert!(bloom_check(&bf, b"hello"));
    assert!(bloom_check(&bf, b"world"));
    assert!(!bloom_check(&bf, b"missing"));
}

#[test]
fn bloom_filter_union() {
    let mut bf1 = filter(100);
    let mut bf2 = bloom_empty_like(&bf1).unwrap();
    bloom_set(&mut bf1, b"alpha");
    bloom_set(&mut bf2, b"beta");

    bloom_union(&mut bf1, &bf2).unwrap();
    assert!(bloom_check(&bf1, b"alpha"));
    assert!(bloom_check(&bf1, b"beta"));
}

#[test]
fn bloom_accumulator_matches_union() {
    let template = filter(1000);

    // Shard-local filters with overlapping and disjoint keys.
    let mut shards: Vec<Bloom<[u8]>> =
        (0..8).map(|_| bloom_empty_like(&template).unwrap()).collect();
    for (i, shard) in shards.iter_mut().enumerate() {
        for j in 0..64 {
            bloom_set(shard, format!("shard-{i}-item-{j}").as_bytes());
        }
        bloom_set(shard, b"shared-key-a");
        bloom_set(shard, b"shared-key-b");
    }

    let mut via_union = bloom_empty_like(&template).unwrap();
    for s in &shards {
        bloom_union(&mut via_union, s).unwrap();
    }

    let mut acc = BloomAccumulator::empty_like(&template);
    for s in &shards {
        acc.or_from(s).unwrap();
    }
    let via_acc = acc.finalize().unwrap();

    // The serialized form holds the bitmap, the sizes and the hash seeds.
    assert_eq!(via_union.as_slice(), via_acc.as_slice());
    assert_eq!(via_union.len(), via_acc.len());
    assert_eq!(
        via_union.number_of_hash_functions(),
        via_acc.number_of_hash_functions()
    );
    assert_eq!(via_union.seed(), via_acc.seed());

    for i in 0..8 {
        for j in 0..64 {
            let key = format!("shard-{i}-item-{j}");
            assert!(bloom_check(&via_acc, key.as_bytes()));
        }
    }
    assert!(bloom_check(&via_acc, b"shared-key-a"));
    assert!(bloom_check(&via_acc, b"shared-key-b"));
}

#[test]
fn bloom_filter_false_positive_rate() {
    let n = 10_000;
    let mut bf = filter(n);
    for i in 0..n {
        bloom_set(&mut bf, format!("item-{i}").as_bytes());
    }

    // All inserted items must be found (no false negatives).
    for i in 0..n {
        assert!(bloom_check(&bf, format!("item-{i}").as_bytes()));
    }

    // Check false positive rate on non-inserted items.
    let test_count = 100_000;
    let mut false_positives = 0;
    for i in n..(n + test_count) {
        if bloom_check(&bf, format!("item-{i}").as_bytes()) {
            false_positives += 1;
        }
    }
    let fp_rate = false_positives as f64 / test_count as f64;
    // Allow up to 2% (target is 1%, some variance expected).
    assert!(
        fp_rate < 0.02,
        "false positive rate {fp_rate:.4} exceeds 2%"
    );
}

#[test]
fn sharded_merge_equals_single_filter_build() {
    let n_shards = 16;
    let keys_per_shard = 128;
    let template = filter(n_shards * keys_per_shard);

    // Reference: one filter, all keys, sequential.
    let mut single = bloom_empty_like(&template).unwrap();
    for i in 0..n_shards {
        for j in 0..keys_per_shard {
            bloom_set(&mut single, format!("blob-{i}-{j}").as_bytes());
        }
    }

    // Sharded: each shard sets its own keys into its own filter; merged both ways.
    let shards: Vec<Bloom<[u8]>> = (0..n_shards)
        .map(|i| {
            let mut bf = bloom_empty_like(&template).unwrap();
            for j in 0..keys_per_shard {
                bloom_set(&mut bf, format!("blob-{i}-{j}").as_bytes());
            }
            bf
        })
        .collect();

    let mut via_union = bloom_empty_like(&template).unwrap();
    for s in &shards {
        bloom_union(&mut via_union, s).unwrap();
    }
    let mut acc = BloomAccumulator::empty_like(&template);
    for s in &shards {
        acc.or_from(s).unwrap();
    }
    let via_acc = acc.finalize().unwrap();

    assert_eq!(
        single.as_slice(),
        via_union.as_slice(),
        "union-merged shards must be byte-identical to a single build"
    );
    assert_eq!(
        single.as_slice(),
        via_acc.as_slice(),
        "accumulator-merged shards must be byte-identical to a single build"
    );

    for i in 0..n_shards {
        for j in 0..keys_per_shard {
            let key = format!("blob-{i}-{j}");
            assert!(bloom_check(&single, key.as_bytes()));
            assert!(bloom_check(&via_union, key.as_bytes()));
            assert!(bloom_check(&via_acc, key.as_bytes()));
        }
    }
}

#[test]
fn empty_like_clears_the_bits_and_keeps_the_parameters() {
    let mut template = filter(50);
    bloom_set(&mut template, b"gone");
    let empty = bloom_empty_like(&template).unwrap();
    assert!(!bloom_check(&empty, b"gone"));
    assert_eq!(empty.as_slice()[..45], template.as_slice()[..45]);
    assert!(empty.as_slice()[45..].iter().all(|b| *b == 0));
    assert!(bloom_usable(&empty) && bloom_countable(&empty));
}

#[test]
fn merge_is_commutative_and_idempotent() {
    let template = filter(50);
    let mut a = bloom_empty_like(&template).unwrap();
    let mut b = bloom_empty_like(&template).unwrap();
    bloom_set(&mut a, b"a");
    bloom_set(&mut b, b"b");
    let mut ab = bloom_empty_like(&template).unwrap();
    bloom_union(&mut ab, &a).unwrap();
    bloom_union(&mut ab, &b).unwrap();
    let mut ba = bloom_empty_like(&template).unwrap();
    bloom_union(&mut ba, &b).unwrap();
    bloom_union(&mut ba, &a).unwrap();
    assert_eq!(ab.as_slice(), ba.as_slice());
    bloom_union(&mut ba, &a).unwrap();
    assert_eq!(ab.as_slice(), ba.as_slice());
}

#[test]
fn merging_filters_of_other_parameters_is_refused() {
    let mut a = filter(50);
    let before = a.as_slice().to_vec();
    let other = filter(5000);
    assert!(matches!(bloom_union(&mut a, &other), Err(DepotError::Internal(_))));
    assert_eq!(a.as_slice(), before.as_slice());
    // Equal sizes, but other hash seeds.
    let seeded = filter(50);
    assert!(bloom_union(&mut a, &seeded).is_err());
    let mut acc = BloomAccumulator::empty_like(&a);
    assert!(matches!(acc.or_from(&seeded), Err(DepotError::Internal(_))));
}
