use rblock::block::{Block, BlockError, GENESIS_DIFFICULTY, TRANSACTION_LIMIT_PER_BLOCK};
use rblock::merkle::get_merkel_root;
use rblock::transaction::{Sender, Transaction};

const T0: u64 = 1_700_000_000;

fn payment(from: &str, to: &str, payload: &str) -> Transaction {
    Transaction::new(
        Sender::Key(from.to_string()),
        to.to_string(),
        payload.to_string(),
        "sig".to_string(),
    )
}

fn hash_with_tail(tail: &str) -> String {
    format!("{}{}", "a".repeat(56), tail)
}

#[test]
fn genesis_block_fields() {
    let g = Block::new_genesis(T0);
    assert_eq!(g.get_height(), 0);
    assert_eq!(g.get_prev_hash(), "");
    assert_eq!(g.get_merkel_root(), "");
    assert!(g.get_transactions().is_empty());
    assert_eq!(g.get_difficulty(), 0xFFFF_FFFF);
    assert_eq!(g.get_difficulty(), GENESIS_DIFFICULTY);
    assert_eq!(g.get_nonce(), 0);
    assert_eq!(g.get_timestamp(), T0);
    assert!(g.verify_hash());
    assert!(Block::verify_difficulty(g.get_hash(), g.get_difficulty()));
    assert_eq!(g.validate(&vec![]), Ok(()));
}

#[test]
fn block_message_and_hash() {
    let g = Block::new_genesis(T0);
    assert_eq!(g.get_message(), "0170000000004294967295");
    assert_eq!(g.get_hash(), sha256::digest("0170000000004294967295"));
    assert_eq!(g.get_hash().len(), 64);
}

#[test]
fn successor_links_to_genesis() {
    let g = Block::new_genesis(T0);
    let b = Block::new(&g, &vec![], T0 + 5);
    assert_eq!(g.get_prev_hash(), "");
    assert_eq!(b.get_height(), 1);
    assert_eq!(b.get_prev_hash(), g.get_hash());
    assert_eq!(b.get_difficulty(), g.get_difficulty());
    assert_eq!(b.get_timestamp(), T0 + 5);
    assert_eq!(b.get_nonce(), 0);
    assert!(b.verify_hash());
    assert!(b.verify_merkel_root());
    let message = format!("1{}{}04294967295", T0 + 5, g.get_hash());
    assert_eq!(b.get_message(), message);
}

#[test]
fn successor_commits_to_its_transactions() {
    let g = Block::new_genesis(T0);
    let txs = vec![payment("k1", "bob", "10"), payment("k2", "carol", "20")];
    let b = Block::new(&g, &txs, T0);
    assert_eq!(b.get_transactions().len(), 2);
    assert_eq!(b.get_transactions()[1].payload, "20");
    assert_eq!(b.get_merkel_root(), get_merkel_root(&txs));
    assert!(b.verify_merkel_root());
}

#[test]
fn merkle_root_shape() {
    assert_eq!(get_merkel_root(&vec![]), "");
    let a = payment("k1", "bob", "10");
    let b = payment("k2", "carol", "20");
    let c = Transaction::reward_transaction(&"miner".to_string());
    assert_eq!(a.get_message(), "k1:bob:10:sig");
    assert_eq!(c.get_message(), "00:miner::");
    let (ha, hb, hc) = (
        sha256::digest("k1:bob:10:sig"),
        sha256::digest("k2:carol:20:sig"),
        sha256::digest("00:miner::"),
    );
    assert_eq!(get_merkel_root(&vec![a.clone()]), ha);
    let ab = sha256::digest(format!("{}{}", ha, hb));
    assert_eq!(get_merkel_root(&vec![a.clone(), b.clone()]), ab);
    let cc = sha256::digest(format!("{}{}", hc, hc));
    let abc = sha256::digest(format!("{}{}", ab, cc));
    assert_eq!(get_merkel_root(&vec![a.clone(), b.clone(), c]), abc);
    assert_ne!(get_merkel_root(&vec![b, a]), ab);
}

#[test]
fn verify_hash_is_stable_and_catches_tampering() {
    let g = Block::new_genesis(T0);
    let b = Block::new(&g, &vec![payment("k1", "bob", "10")], T0);
    assert_eq!(b.verify_hash(), b.verify_hash());
    assert!(b.verify_hash());
    let parts = |nonce: u32, difficulty: u32, root: String| {
        Block::from_parts(
            b.get_height(),
            b.get_hash(),
            b.get_timestamp(),
            b.get_prev_hash(),
            nonce,
            difficulty,
            root,
            b.get_transactions(),
        )
    };
    assert!(parts(b.get_nonce(), b.get_difficulty(), b.get_merkel_root()).verify_hash());
    assert!(!parts(b.get_nonce() + 1, b.get_difficulty(), b.get_merkel_root()).verify_hash());
    assert!(!parts(b.get_nonce(), 0x1234, b.get_merkel_root()).verify_hash());
    assert!(!parts(b.get_nonce(), b.get_difficulty(), "ff".to_string()).verify_hash());
    let tampered = parts(b.get_nonce() + 1, b.get_difficulty(), b.get_merkel_root());
    assert_eq!(tampered.validate(&vec![true]), Err(BlockError::HashMismatch));
}

#[test]
fn every_mutator_rehashes() {
    let g = Block::new_genesis(T0);
    let mut b = Block::new(&g, &vec![payment("k1", "bob", "10")], T0);
    let h0 = b.get_hash();
    b.set_difficulty(0x0FFF_FFFF);
    assert_eq!(b.get_difficulty(), 0x0FFF_FFFF);
    assert!(b.verify_hash());
    let h1 = b.get_hash();
    assert_ne!(h0, h1);
    assert_eq!(b.increment_and_hash(), Ok(()));
    assert_eq!(b.get_nonce(), 1);
    assert!(b.verify_hash());
    assert_ne!(b.get_hash(), h1);
    let h2 = b.get_hash();
    assert!(b.reward_miner(&"miner".to_string()));
    assert!(b.verify_hash());
    assert!(b.verify_merkel_root());
    assert_ne!(b.get_hash(), h2);
    assert_eq!(b.get_timestamp(), T0);
}

#[test]
fn reward_miner_adds_exactly_one_reward() {
    let g = Block::new_genesis(T0);
    let mut b = Block::new(&g, &vec![payment("k1", "bob", "10")], T0);
    assert!(b.reward_miner(&"alice".to_string()));
    let after_first = b.get_hash();
    assert!(!b.reward_miner(&"mallory".to_string()));
    assert_eq!(b.get_hash(), after_first);
    let txs = b.get_transactions();
    assert_eq!(txs.len(), 2);
    assert_eq!(txs.iter().filter(|t| t.is_reward()).count(), 1);
    assert_eq!(txs[1].recipient, "alice");
    assert!(matches!(txs[1].get_sender(), Sender::Identity));
    assert_eq!(b.get_merkel_root(), get_merkel_root(&txs));
}

#[test]
fn nonce_exhaustion_is_reported_without_change() {
    let g = Block::new_genesis(T0);
    let b = Block::from_parts(
        1,
        String::new(),
        T0,
        g.get_hash(),
        u32::MAX,
        7,
        String::new(),
        vec![],
    );
    let mut m = b.clone();
    assert_eq!(m.increment_and_hash(), Err(BlockError::ExhaustedNonce));
    assert_eq!(m.get_nonce(), u32::MAX);
    assert_eq!(m.get_hash(), "");
    assert_eq!(m.get_difficulty(), 7);
}

#[test]
fn mining_reaches_a_nibble_target() {
    let difficulty: u32 = 0x1FFF_FFFF;
    let g = Block::new_genesis(T0);
    let mut b = Block::new(&g, &vec![payment("k1", "bob", "10"), payment("k2", "eve", "3")], T0);
    b.set_difficulty(difficulty);
    let top = |h: &str| u32::from_str_radix(&h[h.len() - 8..], 16).unwrap() >> 28;
    if top(&b.get_hash()) > 1 {
        assert!(!Block::verify_difficulty(b.get_hash(), difficulty));
    }
    while !Block::verify_difficulty(b.get_hash(), difficulty) {
        b.increment_and_hash().unwrap();
    }
    assert!(top(&b.get_hash()) <= 1);
    assert!(b.verify_hash());
    assert_eq!(b.validate(&vec![true, true]), Ok(()));
}

#[test]
fn difficulty_is_compared_nibble_by_nibble() {
    assert!(Block::verify_difficulty(hash_with_tail("00000000"), 0));
    assert!(!Block::verify_difficulty(hash_with_tail("00000001"), 0));
    assert!(Block::verify_difficulty(hash_with_tail("ffffffff"), 0xFFFF_FFFF));
    assert!(!Block::verify_difficulty(hash_with_tail("0000000f"), 0x10));
    assert!(Block::verify_difficulty(hash_with_tail("1234abcd"), 0x2345_bcde));
    assert!(Block::verify_difficulty(hash_with_tail("1234ABCD"), 0x2345_BCDE));
    assert!(!Block::verify_difficulty(hash_with_tail("1234abcd"), 0x2345_bcdc));
    assert!(Block::verify_difficulty("zz00000010".to_string(), 0x10));
}

#[test]
fn difficulty_monotone_in_the_target() {
    let h = hash_with_tail("01020304");
    assert!(Block::verify_difficulty(h.clone(), 0x0102_0304));
    assert!(Block::verify_difficulty(h.clone(), 0x1112_1314));
    assert!(Block::verify_difficulty(h.clone(), 0xFFFF_FFFF));
    assert!(!Block::verify_difficulty(h, 0x0102_0303));
}

#[test]
fn malformed_hash_meets_no_target() {
    assert!(!Block::verify_difficulty("abc".to_string(), 0xFFFF_FFFF));
    assert!(!Block::verify_difficulty(hash_with_tail("0000000g"), 0xFFFF_FFFF));
    assert!(!Block::verify_difficulty(hash_with_tail("+0000000"), 0xFFFF_FFFF));
}

#[test]
fn oversized_block_fails_transaction_check() {
    let g = Block::new_genesis(T0);
    let txs: Vec<Transaction> = (0..TRANSACTION_LIMIT_PER_BLOCK + 1)
        .map(|_| Transaction::reward_transaction(&"m".to_string()))
        .collect();
    assert_eq!(txs.len(), 5001);
    let b = Block::new(&g, &txs, T0);
    assert!(!b.verify_transactions(&vec![true; 5001]));
    assert_eq!(b.validate(&vec![true; 5001]), Err(BlockError::OversizedBlock));
    let at_limit = Block::new(&g, &txs[..5000].to_vec(), T0);
    assert!(at_limit.verify_transactions(&vec![]));
}

#[test]
fn invalid_signature_fails_and_rewards_are_exempt() {
    let g = Block::new_genesis(T0);
    let txs = vec![
        Transaction::reward_transaction(&"m".to_string()),
        payment("k1", "bob", "10"),
        payment("k2", "eve", "3"),
    ];
    let b = Block::new(&g, &txs, T0);
    assert!(b.verify_transactions(&vec![false, true, true]));
    assert!(!b.verify_transactions(&vec![true, true, false]));
    assert!(!b.verify_transactions(&vec![true, true]));
    assert_eq!(b.validate(&vec![false, true, false]), Err(BlockError::InvalidSignature));
    assert_eq!(b.validate(&vec![false, true, true]), Ok(()));
}

#[test]
fn unmet_difficulty_is_reported() {
    let g = Block::new_genesis(T0);
    let mut b = Block::new(&g, &vec![], T0);
    b.set_difficulty(0);
    let tail = &b.get_hash()[56..];
    if tail != "00000000" {
        assert_eq!(b.validate(&vec![]), Err(BlockError::DifficultyNotMet));
    }
}

#[test]
fn altered_payload_keeps_hash_but_breaks_merkle_root() {
    let g = Block::new_genesis(T0);
    let txs = vec![payment("k1", "bob", "10"), payment("k2", "carol", "20")];
    let b = Block::new(&g, &txs, T0);
    let mut altered = b.get_transactions();
    altered[1].payload = "2000".to_string();
    let stored = Block::from_parts(
        b.get_height(),
        b.get_hash(),
        b.get_timestamp(),
        b.get_prev_hash(),
        b.get_nonce(),
        b.get_difficulty(),
        b.get_merkel_root(),
        altered.clone(),
    );
    assert!(stored.verify_hash());
    assert_ne!(get_merkel_root(&altered), stored.get_merkel_root());
    assert!(!stored.verify_merkel_root());
    assert_eq!(stored.validate(&vec![true, true]), Err(BlockError::MerkleMismatch));
}
