use dag_ledger::consensus::{
    BFTSafetyProof, ConsensusConfig, ValidatorInfo, ValidatorTier, VirtualVotingConsensus,
};

#[test]
fn test_consensus_creation() {
    let config = ConsensusConfig::default();
    let consensus = VirtualVotingConsensus::new(config);
    assert_eq!(consensus.get_round_count(), 1);
}

#[test]
fn test_validator_management() {
    let mut consensus = VirtualVotingConsensus::new(ConsensusConfig::default());

    let validator_id = [1; 32];
    let validator_info = ValidatorInfo::new([1; 48], 100_000);

    consensus.add_validator(validator_id, validator_info);

    assert_eq!(consensus.validator_count(), 1);
    assert_eq!(consensus.total_stake(), 100_000);
}

#[test]
fn test_validator_reregistration_adjusts_total() {
    let mut consensus = VirtualVotingConsensus::new(ConsensusConfig::default());
    consensus.add_validator([1; 32], ValidatorInfo::new([1; 48], 100_000));
    consensus.add_validator([1; 32], ValidatorInfo::new([1; 48], 50_000));
    assert_eq!(consensus.validator_count(), 1);
    assert_eq!(consensus.total_stake(), 50_000);
}

#[test]
fn test_validator_removal() {
    let mut consensus = VirtualVotingConsensus::new(ConsensusConfig::default());
    consensus.add_validator([1; 32], ValidatorInfo::new([1; 48], 100_000));
    consensus.add_validator([2; 32], ValidatorInfo::new([2; 48], 50_000));
    consensus.remove_validator(&[1; 32]);
    assert_eq!(consensus.validator_count(), 1);
    assert_eq!(consensus.total_stake(), 50_000);
}

#[test]
fn test_consensus_round() {
    let mut consensus = VirtualVotingConsensus::new(ConsensusConfig::default());

    // Add validators
    for i in 0..5 {
        let validator_id = [i; 32];
        let validator_info = ValidatorInfo::new([i; 48], 100_000);
        consensus.add_validator(validator_id, validator_info);
    }

    // Process consensus round
    let vertices = vec![[1; 32], [2; 32]];
    let proofs = consensus.process_round(vertices).unwrap();

    // Should achieve finality for both vertices with 5 validators
    assert_eq!(proofs.len(), 2);
    assert_eq!(consensus.get_round_count(), 2);
}

#[test]
fn test_finality_with_five_validators() {
    let mut consensus = VirtualVotingConsensus::new(ConsensusConfig::default());
    for i in 0..5u8 {
        consensus.add_validator([i; 32], ValidatorInfo::new([i; 48], 100_000));
    }
    let proofs = consensus.process_round(vec![[1; 32], [2; 32]]).unwrap();
    assert_eq!(proofs.len(), 2);
    for p in &proofs {
        assert_eq!(p.bft_proof.supporting_vote_count, 5);
        assert_eq!(p.bft_proof.supporting_stake, 500_000);
        assert_eq!(p.bft_proof.max_byzantine_faults, 1);
        assert!(p.bft_proof.safety_satisfied);
    }
    // The proofs are retrievable afterwards
    let stored = consensus.get_finality_proof(&[1; 32]);
    assert!(stored.is_some());
    assert_eq!(stored.unwrap().vertex_hash, [1; 32]);
}

#[test]
fn test_finality_emitted_once_per_vertex() {
    let mut consensus = VirtualVotingConsensus::new(ConsensusConfig::default());
    for i in 0..5u8 {
        consensus.add_validator([i; 32], ValidatorInfo::new([i; 48], 100_000));
    }
    let first = consensus.process_round(vec![[7; 32]]).unwrap();
    assert_eq!(first.len(), 1);
    let second = consensus.process_round(vec![[7; 32]]).unwrap();
    assert_eq!(second.len(), 0);
    assert_eq!(consensus.get_round_count(), 3);
}

#[test]
fn test_empty_validator_set_gives_no_finality() {
    let mut consensus = VirtualVotingConsensus::new(ConsensusConfig::default());
    let proofs = consensus.process_round(vec![[1; 32]]).unwrap();
    assert!(proofs.is_empty());
    assert_eq!(consensus.get_round_count(), 2);
}

#[test]
fn test_rounds_strictly_increase() {
    let mut consensus = VirtualVotingConsensus::new(ConsensusConfig::default());
    let mut last = consensus.get_round_count();
    for _ in 0..4 {
        consensus.process_round(vec![]).unwrap();
        let now = consensus.get_round_count();
        assert!(now > last);
        assert_eq!(now, last + 1);
        last = now;
    }
}

#[test]
fn test_validator_tiers() {
    let bronze = ValidatorInfo::new([1; 48], 75_000);
    assert_eq!(bronze.tier, ValidatorTier::Bronze);

    let silver = ValidatorInfo::new([2; 48], 150_000);
    assert_eq!(silver.tier, ValidatorTier::Silver);

    let gold = ValidatorInfo::new([3; 48], 350_000);
    assert_eq!(gold.tier, ValidatorTier::Gold);

    let platinum = ValidatorInfo::new([4; 48], 750_000);
    assert_eq!(platinum.tier, ValidatorTier::Platinum);
}

#[test]
fn test_tier_boundaries() {
    assert_eq!(ValidatorInfo::new([0; 48], 99_999).tier, ValidatorTier::Bronze);
    assert_eq!(ValidatorInfo::new([0; 48], 100_000).tier, ValidatorTier::Silver);
    assert_eq!(ValidatorInfo::new([0; 48], 249_999).tier, ValidatorTier::Silver);
    assert_eq!(ValidatorInfo::new([0; 48], 250_000).tier, ValidatorTier::Gold);
    assert_eq!(ValidatorInfo::new([0; 48], 499_999).tier, ValidatorTier::Gold);
    assert_eq!(ValidatorInfo::new([0; 48], 500_000).tier, ValidatorTier::Platinum);
    assert_eq!(ValidatorInfo::new([0; 48], 10_000).tier, ValidatorTier::Bronze);
}

#[test]
fn test_bft_safety_proof() {
    let proof = BFTSafetyProof {
        total_validators: 10,
        max_byzantine_faults: 3,
        supporting_vote_count: 7,
        supporting_stake: 700_000,
        total_stake: 1_000_000,
        safety_satisfied: true,
    };

    // Should satisfy BFT conditions
    assert!(proof.supporting_vote_count > 2 * proof.max_byzantine_faults);
    assert!(proof.supporting_stake > proof.total_stake * 2 / 3);
}

#[test]
fn test_performance_score_clamped() {
    let mut v = ValidatorInfo::new([1; 48], 100_000);
    assert_eq!(v.performance_score, 1_000_000);
    v.update_performance(2_000_000);
    assert_eq!(v.performance_score, 1_000_000);
    v.update_performance(250_000);
    assert_eq!(v.performance_score, 250_000);
}
