use sha2::Digest;

use router_engine::crosschain::CrossChainSwap;
use router_engine::crosschain::SwapState;
use router_engine::RouterError;

fn sha256_hex(data: &[u8]) -> String {
    let digest = sha2::Sha256::digest(data);
    let mut s = String::new();
    for b in digest.iter() {
        s.push_str(&format!("{:02x}", b));
    }
    s
}

fn coordinator_with_bridge() -> CrossChainSwap {
    let mut cc = CrossChainSwap::new();
    cc.register_bridge(1, 2, "0xbridge".to_string());
    cc
}

#[test]
fn generated_secret_hashes_to_its_commitment() {
    let (secret, hash) = CrossChainSwap::generate_secret();
    assert_eq!(secret.len(), 32);
    assert_eq!(hash.len(), 32);
    assert_eq!(hash, sha2::Sha256::digest(&secret).to_vec());
}

#[test]
fn initiate_without_bridge_is_config_error() {
    let mut cc = CrossChainSwap::new();
    let err = cc.initiate_swap(1, 2, vec![0u8; 32], 4_600, 5).unwrap_err();
    assert!(matches!(err, RouterError::ConfigError(_)));
    let mut cc2 = coordinator_with_bridge();
    let err2 = cc2.initiate_swap(2, 1, vec![0u8; 32], 4_600, 5).unwrap_err();
    assert!(matches!(err2, RouterError::ConfigError(_)));
}

#[test]
fn scenario_wrong_secret_then_correct_claim_then_refund_fails() {
    let mut cc = coordinator_with_bridge();
    let secret = b"correct horse battery staple tok".to_vec();
    let hash = sha2::Sha256::digest(&secret).to_vec();
    // expiration = now + 3600 with now = 1_000
    let id = cc.initiate_swap(1, 2, hash.clone(), 4_600, 5).unwrap();

    let err = cc.claim_funds(id, b"wrong secret".to_vec(), 1_000).unwrap_err();
    assert!(matches!(err, RouterError::ExecutionError(_)));
    let (_, _, _, _, state) = cc.get_record(id).unwrap();
    assert_eq!(state, SwapState::Initiated);

    let receipt = cc.claim_funds(id, secret.clone(), 1_100).unwrap();
    assert_eq!(receipt, format!("0x{}", sha256_hex(&secret)));
    let (_, _, _, _, state2) = cc.get_record(id).unwrap();
    assert_eq!(state2, SwapState::Claimed);

    // Claimed is terminal: a later refund fails even after expiration.
    let err2 = cc.refund(id, 9_999).unwrap_err();
    assert!(matches!(err2, RouterError::ExecutionError(_)));
    let (_, _, _, _, state3) = cc.get_record(id).unwrap();
    assert_eq!(state3, SwapState::Claimed);
}

#[test]
fn scenario_refund_after_expiration_then_claim_fails() {
    let mut cc = coordinator_with_bridge();
    let secret = b"another perfectly secret value!!".to_vec();
    let hash = sha2::Sha256::digest(&secret).to_vec();
    let id = cc.initiate_swap(1, 2, hash, 2_000, 7).unwrap();

    // Too early: the lock has not expired.
    let early = cc.refund(id, 1_500).unwrap_err();
    assert!(matches!(early, RouterError::ExecutionError(_)));

    // Past expiration the refund succeeds.
    cc.refund(id, 2_000).unwrap();
    let (_, _, _, _, state) = cc.get_record(id).unwrap();
    assert_eq!(state, SwapState::Refunded);

    // Refunded is terminal: the correct secret can no longer claim.
    let err = cc.claim_funds(id, b"another perfectly secret value!!".to_vec(), 1_999).unwrap_err();
    assert!(matches!(err, RouterError::ExecutionError(_)));
    let (_, _, _, _, state2) = cc.get_record(id).unwrap();
    assert_eq!(state2, SwapState::Refunded);
}

#[test]
fn claim_after_expiration_fails_without_side_effect() {
    let mut cc = coordinator_with_bridge();
    let secret = b"yet another 32 byte long secret!".to_vec();
    let hash = sha2::Sha256::digest(&secret).to_vec();
    let id = cc.initiate_swap(1, 2, hash, 2_000, 7).unwrap();
    let err = cc.claim_funds(id, secret, 2_000).unwrap_err();
    assert!(matches!(err, RouterError::ExecutionError(_)));
    let (_, _, _, _, state) = cc.get_record(id).unwrap();
    assert_eq!(state, SwapState::Initiated);
}

#[test]
fn unknown_record_is_config_error() {
    let mut cc = coordinator_with_bridge();
    let err = cc.claim_funds(3, vec![1, 2, 3], 0).unwrap_err();
    assert!(matches!(err, RouterError::ConfigError(_)));
    let err2 = cc.refund(3, 0).unwrap_err();
    assert!(matches!(err2, RouterError::ConfigError(_)));
    assert!(cc.get_record(3).is_none());
}

#[test]
fn records_are_independent() {
    let mut cc = coordinator_with_bridge();
    let s1 = b"secret number one, 32 bytes long".to_vec();
    let s2 = b"secret number two, 32 bytes long".to_vec();
    let id1 = cc.initiate_swap(1, 2, sha2::Sha256::digest(&s1).to_vec(), 2_000, 5).unwrap();
    let id2 = cc.initiate_swap(1, 2, sha2::Sha256::digest(&s2).to_vec(), 9_000, 6).unwrap();
    assert_ne!(id1, id2);
    cc.claim_funds(id1, s1, 1_000).unwrap();
    let (_, _, _, _, state2) = cc.get_record(id2).unwrap();
    assert_eq!(state2, SwapState::Initiated);
    cc.refund(id2, 9_000).unwrap();
    let (_, _, _, _, state1) = cc.get_record(id1).unwrap();
    assert_eq!(state1, SwapState::Claimed);
}

#[test]
fn error_labels_name_the_class() {
    assert_eq!(RouterError::ConfigError("x".to_string()).label(), "configuration error");
    assert_eq!(
        RouterError::InsufficientLiquidity("x".to_string()).label(),
        "insufficient liquidity"
    );
    assert_eq!(RouterError::PriceImpactTooHigh("x".to_string()).label(), "price impact too high");
    assert_eq!(RouterError::ExecutionError("x".to_string()).label(), "execution error");
    assert_eq!(RouterError::ChainError("x".to_string()).label(), "chain error");
}
