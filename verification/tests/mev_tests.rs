use rand_chacha::rand_core::SeedableRng;
use rand_chacha::ChaCha20Rng;
use router_engine::mev::MevProtection;
use router_engine::RouterError;

fn count_occurrences(out: &Vec<Vec<u8>>, tx: &[u8]) -> usize {
    out.iter().filter(|t| t.as_slice() == tx).count()
}

#[test]
fn obfuscation_length_and_exactly_one_real_tx() {
    let mev = MevProtection::new("https://relay.example".to_string());
    let tx = vec![0xde, 0xad, 0xbe, 0xef];
    let mut rng = ChaCha20Rng::seed_from_u64(7);
    let out = mev.obfuscate_tx_with(tx.clone(), &mut rng);
    assert!(out.len() >= 3 && out.len() <= 5);
    assert_eq!(count_occurrences(&out, &tx), 1);
}

#[test]
fn obfuscation_with_secure_source_keeps_the_guarantees() {
    let mev = MevProtection::new("https://relay.example".to_string());
    let tx = vec![1, 2, 3];
    for _ in 0..16 {
        let out = mev.obfuscate_tx(tx.clone());
        assert!(out.len() >= 3 && out.len() <= 5);
        assert_eq!(count_occurrences(&out, &tx), 1);
    }
}

#[test]
fn seeded_obfuscation_is_reproducible() {
    let mev = MevProtection::new("https://relay.example".to_string());
    let tx = vec![9, 9, 9];
    let mut rng_a = ChaCha20Rng::seed_from_u64(42);
    let mut rng_b = ChaCha20Rng::seed_from_u64(42);
    let out_a = mev.obfuscate_tx_with(tx.clone(), &mut rng_a);
    let out_b = mev.obfuscate_tx_with(tx.clone(), &mut rng_b);
    assert_eq!(out_a, out_b);
}

#[test]
fn empty_bundle_is_rejected() {
    let mev = MevProtection::new("https://relay.example".to_string());
    let err = mev.send_bundle(vec![]).unwrap_err();
    assert!(matches!(err, RouterError::ExecutionError(_)));
}

#[test]
fn bundle_id_is_the_content_digest() {
    let mev = MevProtection::new("https://relay.example".to_string());
    // A single empty transaction: the digest of the empty byte string.
    let id = mev.send_bundle(vec![vec![]]).unwrap();
    assert_eq!(id, "0xe3b0c44298fc1c149afbf4c8996fb92427ae41e4649b934ca495991b7852b855");
    // The well-known digest of "abc".
    let id2 = mev.send_bundle(vec![b"ab".to_vec(), b"c".to_vec()]).unwrap();
    assert_eq!(id2, "0xba7816bf8f01cfea414140de5dae2223b00361a396177a9cb410ff61f20015ad");
}
