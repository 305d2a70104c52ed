//! Blocks: chained by hash, mined by nonce, and checked as a whole before a
//! chain accepts them.
use crate::difficulty::{
    has_hex_tail, hash_tail, hex_value, is_hex_digit, nibble, satisfies, satisfies_difficulty,
};
use crate::digest::{is_lower_hex_digit, sha256_digest, sha256_hex};
use crate::merkle::{get_merkel_root, merkle_root};
use crate::text::{decimal, lemma_decimal_injective, push_decimal};
use crate::transaction::{copy_transactions, Transaction};
use vstd::prelude::*;
use vstd::string::StringExecFns;

verus! {

/// The most transactions that one block may carry.
pub const TRANSACTION_LIMIT_PER_BLOCK: usize = 5000;

/// The difficulty word of a genesis block: every nibble at its maximum, so
/// that every hash meets it.
pub const GENESIS_DIFFICULTY: u32 = 0xffff_ffff;

/// Why a block is not accepted, or why it cannot be mined further.
#[derive(Debug, PartialEq, Eq, Structural)]
pub enum BlockError {
    /// The nonce is at its maximum; mining this content cannot go on.
    ExhaustedNonce,
    /// The block holds more transactions than the limit.
    OversizedBlock,
    /// A transaction that is not a reward has an invalid signature.
    InvalidSignature,
    /// The stored hash is not the digest of the block's message.
    HashMismatch,
    /// The stored Merkle root does not commit to the block's transactions.
    MerkleMismatch,
    /// The hash does not meet the block's difficulty.
    DifficultyNotMet,
}

/// The text a block's hash is the digest of: height, timestamp, previous
/// hash, nonce, difficulty and Merkle root, in that order, numbers in decimal.
pub open spec fn block_message(
    height: u64,
    timestamp: u64,
    prev_hash: Seq<char>,
    nonce: u32,
    difficulty: u32,
    merkel_root: Seq<char>,
) -> Seq<char> {
    decimal(height as nat) + decimal(timestamp as nat) + prev_hash + decimal(nonce as nat) + decimal(
        difficulty as nat,
    ) + merkel_root
}

/// What a block holds, as plain values.
pub struct BlockView {
    pub height: u64,
    pub hash: Seq<char>,
    pub timestamp: u64,
    pub prev_hash: Seq<char>,
    pub nonce: u32,
    pub difficulty: u32,
    pub merkel_root: Seq<char>,
    pub transactions: Seq<Transaction>,
}

/// Some transaction of `txs` pays a reward.
pub open spec fn has_reward(txs: Seq<Transaction>) -> bool {
    exists|i: int| 0 <= i < txs.len() && #[trigger] txs[i].is_reward_spec()
}

/// The number of reward transactions in `txs`.
pub open spec fn reward_count(txs: Seq<Transaction>) -> nat
    decreases txs.len(),
{
    if txs.len() == 0 {
        0
    } else {
        reward_count(txs.drop_last()) + if txs.last().is_reward_spec() {
            1nat
        } else {
            0nat
        }
    }
}

/// The transactions are within the limit, and each one that is not a reward
/// has a verdict in `signatures_valid`, at its own index, that accepts it.
pub open spec fn transactions_valid(txs: Seq<Transaction>, signatures_valid: Seq<bool>) -> bool {
    &&& txs.len() <= TRANSACTION_LIMIT_PER_BLOCK
    &&& forall|i: int|
        0 <= i < txs.len() ==> (#[trigger] txs[i].is_reward_spec() || (i < signatures_valid.len()
            && signatures_valid[i]))
}

/// What `reward_miner` does to a block's transactions: a list that holds a
/// reward is left alone; any other gets one reward to `address` appended.
pub open spec fn reward_added(before: Seq<Transaction>, after: Seq<Transaction>, address: Seq<char>) -> bool {
    if has_reward(before) {
        after == before
    } else {
        &&& after.len() == before.len() + 1
        &&& after.drop_last() == before
        &&& after.last().is_reward_spec()
        &&& after.last().recipient@ == address
        &&& after.last().payload@ == Seq::<char>::empty()
        &&& after.last().signature@ == Seq::<char>::empty()
    }
}

impl BlockView {
    pub open spec fn message(self) -> Seq<char> {
        block_message(
            self.height,
            self.timestamp,
            self.prev_hash,
            self.nonce,
            self.difficulty,
            self.merkel_root,
        )
    }

    /// The stored hash is the digest of the block's message.
    pub open spec fn hash_consistent(self) -> bool {
        self.hash == sha256_hex(self.message())
    }

    /// The stored Merkle root commits to the block's transactions.
    pub open spec fn merkle_consistent(self) -> bool {
        self.merkel_root == merkle_root(self.transactions)
    }

    /// The first reason, in the order the checks run, why a chain would
    /// refuse the block; `None` if there is none.
    pub open spec fn first_fault(self, signatures_valid: Seq<bool>) -> Option<BlockError> {
        if !self.hash_consistent() {
            Some(BlockError::HashMismatch)
        } else if !self.merkle_consistent() {
            Some(BlockError::MerkleMismatch)
        } else if !satisfies_difficulty(self.hash, self.difficulty) {
            Some(BlockError::DifficultyNotMet)
        } else if self.transactions.len() > TRANSACTION_LIMIT_PER_BLOCK {
            Some(BlockError::OversizedBlock)
        } else if !transactions_valid(self.transactions, signatures_valid) {
            Some(BlockError::InvalidSignature)
        } else {
            None
        }
    }
}

proof fn lemma_reward_count_positive(txs: Seq<Transaction>)
    ensures
        has_reward(txs) <==> reward_count(txs) > 0,
    decreases txs.len(),
{
    if txs.len() > 0 {
        let init = txs.drop_last();
        lemma_reward_count_positive(init);
        if has_reward(init) {
            let i = choose|i: int| 0 <= i < init.len() && #[trigger] init[i].is_reward_spec();
            assert(txs[i].is_reward_spec());
        }
        if has_reward(txs) && !txs.last().is_reward_spec() {
            let i = choose|i: int| 0 <= i < txs.len() && #[trigger] txs[i].is_reward_spec();
            assert(init[i].is_reward_spec());
        }
        if txs.last().is_reward_spec() {
            assert(txs[txs.len() - 1].is_reward_spec());
        }
    }
}

/// Rewarding a miner twice leaves exactly one reward transaction in a block
/// that held at most one: the second call finds the first one's reward.
pub proof fn lemma_reward_twice_adds_one(
    t0: Seq<Transaction>,
    t1: Seq<Transaction>,
    t2: Seq<Transaction>,
    first_address: Seq<char>,
    second_address: Seq<char>,
)
    requires
        reward_count(t0) <= 1,
        reward_added(t0, t1, first_address),
        reward_added(t1, t2, second_address),
    ensures
        reward_count(t2) == 1,
        t2 == t1,
{
    lemma_reward_count_positive(t0);
    lemma_reward_count_positive(t1);
    if !has_reward(t0) {
        assert(reward_count(t1) == reward_count(t0) + 1);
    }
}

/// Changing exactly one hashed field (nonce, difficulty or Merkle root)
/// changes the block's message, so a stored hash made before such a change
/// is no longer the digest of the message that the block now has.
pub proof fn lemma_hashed_field_change_changes_message(v: BlockView, w: BlockView)
    requires
        w == (BlockView { nonce: w.nonce, ..v }) && w.nonce != v.nonce
            || w == (BlockView { difficulty: w.difficulty, ..v }) && w.difficulty != v.difficulty
            || w == (BlockView { merkel_root: w.merkel_root, ..v }) && w.merkel_root != v.merkel_root,
    ensures
        v.message() != w.message(),
{
    let p = decimal(v.height as nat) + decimal(v.timestamp as nat) + v.prev_hash;
    if v.message() == w.message() {
        let (mv, mw) = (v.message(), w.message());
        if w.nonce != v.nonce {
            let rest = decimal(v.difficulty as nat) + v.merkel_root;
            assert(mv =~= p + (decimal(v.nonce as nat) + rest));
            assert(mw =~= p + (decimal(w.nonce as nat) + rest));
            let (a, b) = (decimal(v.nonce as nat), decimal(w.nonce as nat));
            assert(a =~= mv.subrange(p.len() as int, mv.len() - rest.len()));
            assert(b =~= mw.subrange(p.len() as int, mw.len() - rest.len()));
            lemma_decimal_injective(v.nonce as nat, w.nonce as nat);
        } else if w.difficulty != v.difficulty {
            let q = p + decimal(v.nonce as nat);
            let rest = v.merkel_root;
            assert(mv =~= q + (decimal(v.difficulty as nat) + rest));
            assert(mw =~= q + (decimal(w.difficulty as nat) + rest));
            let (a, b) = (decimal(v.difficulty as nat), decimal(w.difficulty as nat));
            assert(a =~= mv.subrange(q.len() as int, mv.len() - rest.len()));
            assert(b =~= mw.subrange(q.len() as int, mw.len() - rest.len()));
            lemma_decimal_injective(v.difficulty as nat, w.difficulty as nat);
        } else {
            let q = p + decimal(v.nonce as nat) + decimal(v.difficulty as nat);
            assert(mv =~= q + v.merkel_root);
            assert(mw =~= q + w.merkel_root);
            assert(v.merkel_root =~= mv.subrange(q.len() as int, mv.len() as int));
            assert(w.merkel_root =~= mw.subrange(q.len() as int, mw.len() as int));
        }
    }
}

/// 64 lowercase hex digits, the form of every digest.
pub open spec fn is_hex_digest(h: Seq<char>) -> bool {
    h.len() == 64 && forall|i: int| 0 <= i < 64 ==> is_lower_hex_digit(#[trigger] h[i])
}

/// Every digest meets the genesis difficulty, whose nibbles are all at
/// their maximum.
pub proof fn lemma_full_target_met(h: Seq<char>)
    requires
        is_hex_digest(h),
    ensures
        satisfies_difficulty(h, GENESIS_DIFFICULTY),
{
    assert(has_hex_tail(h)) by {
        assert forall|i: int| h.len() - 8 <= i < h.len() implies is_hex_digit(#[trigger] h[i]) by {
            assert(is_lower_hex_digit(h[i]));
        }
    }
    let v = hex_value(hash_tail(h)) as u32;
    assert forall|i: u32| i < 8 implies #[trigger] nibble(v, i) <= nibble(GENESIS_DIFFICULTY, i) by {
        assert(((v >> (4 * i)) & 0xf) <= ((0xffff_ffffu32 >> (4 * i)) & 0xf)) by (bit_vector)
            requires i < 8;
    }
}

#[derive(Clone, Debug)]
pub struct Block {
    height: u64,
    hash: String,
    timestamp: u64,
    prev_hash: String,
    nonce: u32,
    difficulty: u32,
    merkel_root: String,
    transactions: Vec<Transaction>,
}

impl View for Block {
    type V = BlockView;

    closed spec fn view(&self) -> BlockView {
        BlockView {
            height: self.height,
            hash: self.hash@,
            timestamp: self.timestamp,
            prev_hash: self.prev_hash@,
            nonce: self.nonce,
            difficulty: self.difficulty,
            merkel_root: self.merkel_root@,
            transactions: self.transactions@,
        }
    }
}

impl Block {
    /// Rederives the hash from the other fields.
    fn set_hash(&mut self)
        ensures
            final(self)@ == (BlockView { hash: final(self)@.hash, ..old(self)@ }),
            final(self)@.hash_consistent(),
            is_hex_digest(final(self)@.hash),
    {
        let message = self.get_message();
        self.hash = sha256_digest(&message);
    }

    /// The text the block's hash is the digest of.
    pub fn get_message(&self) -> (r: String)
        ensures
            r@ == self@.message(),
    {
        let mut m = String::new();
        push_decimal(&mut m, self.height);
        push_decimal(&mut m, self.timestamp);
        m.append(self.prev_hash.as_str());
        push_decimal(&mut m, self.nonce as u64);
        push_decimal(&mut m, self.difficulty as u64);
        m.append(self.merkel_root.as_str());
        proof {
            assert(m@ =~= self@.message());
        }
        m
    }

    /// The first block of a chain, made at `timestamp`: height 0, no
    /// previous hash, no transactions, and a difficulty that every hash
    /// meets.
    pub fn new_genesis(timestamp: u64) -> (r: Block)
        ensures
            r@.height == 0,
            r@.timestamp == timestamp,
            r@.prev_hash == Seq::<char>::empty(),
            r@.nonce == 0,
            r@.difficulty == GENESIS_DIFFICULTY,
            r@.merkel_root == Seq::<char>::empty(),
            r@.transactions == Seq::<Transaction>::empty(),
            r@.hash_consistent(),
            is_hex_digest(r@.hash),
            r@.merkle_consistent(),
            satisfies_difficulty(r@.hash, r@.difficulty),
    {
        let mut genesis = Block {
            height: 0,
            hash: String::new(),
            timestamp,
            prev_hash: String::new(),
            nonce: 0,
            difficulty: GENESIS_DIFFICULTY,
            merkel_root: String::new(),
            transactions: Vec::new(),
        };
        genesis.set_hash();
        proof {
            lemma_full_target_met(genesis@.hash);
        }
        genesis
    }

    /// The successor of `prev_block` carrying `transactions`, made at
    /// `timestamp`. It takes over the predecessor's difficulty; finding a
    /// nonce that meets it is left to `increment_and_hash`.
    pub fn new(prev_block: &Block, transactions: &Vec<Transaction>, timestamp: u64) -> (r: Block)
        requires
            prev_block@.height < u64::MAX,
        ensures
            r@.height == prev_block@.height + 1,
            r@.timestamp == timestamp,
            r@.prev_hash == prev_block@.hash,
            r@.nonce == 0,
            r@.difficulty == prev_block@.difficulty,
            r@.transactions == transactions@,
            r@.merkel_root == merkle_root(transactions@),
            r@.hash_consistent(),
            is_hex_digest(r@.hash),
    {
        let mut block = Block {
            height: prev_block.height + 1,
            hash: String::new(),
            timestamp,
            prev_hash: prev_block.hash.clone(),
            nonce: 0,
            difficulty: prev_block.difficulty,
            merkel_root: get_merkel_root(transactions),
            transactions: copy_transactions(transactions),
        };
        block.set_hash();
        block
    }

    /// A block with exactly the given fields, as storage hands them back.
    /// Nothing is checked: `validate` says whether it may be accepted.
    pub fn from_parts(
        height: u64,
        hash: String,
        timestamp: u64,
        prev_hash: String,
        nonce: u32,
        difficulty: u32,
        merkel_root: String,
        transactions: Vec<Transaction>,
    ) -> (r: Block)
        ensures
            r@ == (BlockView {
                height,
                hash: hash@,
                timestamp,
                prev_hash: prev_hash@,
                nonce,
                difficulty,
                merkel_root: merkel_root@,
                transactions: transactions@,
            }),
    {
        Block { height, hash, timestamp, prev_hash, nonce, difficulty, merkel_root, transactions }
    }

    /// Appends a transaction paying the reward to `miner_address`, unless
    /// the block already holds a reward; then nothing changes. Returns
    /// whether a reward was added.
    pub fn reward_miner(&mut self, miner_address: &String) -> (added: bool)
        ensures
            added == !has_reward(old(self)@.transactions),
            !added ==> final(self)@ == old(self)@,
            added ==> final(self)@.transactions.drop_last() == old(self)@.transactions,
            added ==> final(self)@.transactions.last().is_reward_spec(),
            added ==> final(self)@.transactions.last().recipient@ == miner_address@,
            added ==> final(self)@.merkel_root == merkle_root(final(self)@.transactions),
            added ==> final(self)@.hash_consistent(),
            added ==> is_hex_digest(final(self)@.hash),
            added ==> final(self)@ == (BlockView {
                transactions: final(self)@.transactions,
                merkel_root: final(self)@.merkel_root,
                hash: final(self)@.hash,
                ..old(self)@
            }),
            reward_added(old(self)@.transactions, final(self)@.transactions, miner_address@),
    {
        let mut i: usize = 0;
        while i < self.transactions.len()
            invariant
                i <= self.transactions.len(),
                forall|j: int| 0 <= j < i ==> !(#[trigger] self.transactions@[j].is_reward_spec()),
            decreases self.transactions.len() - i,
        {
            if self.transactions[i].is_reward() {
                return false;
            }
            i = i + 1;
        }
        let reward = Transaction::reward_transaction(miner_address);
        self.transactions.push(reward);
        self.merkel_root = get_merkel_root(&self.transactions);
        self.set_hash();
        proof {
            assert(final(self)@.transactions.drop_last() =~= old(self)@.transactions);
        }
        true
    }

    /// Replaces the difficulty and rederives the hash; the nonce is kept,
    /// so mining may have to go on.
    pub fn set_difficulty(&mut self, diff: u32)
        ensures
            final(self)@ == (BlockView { difficulty: diff, hash: final(self)@.hash, ..old(self)@ }),
            final(self)@.hash_consistent(),
            is_hex_digest(final(self)@.hash),
    {
        self.difficulty = diff;
        self.set_hash();
    }

    /// One mining step: the nonce goes up by one and the hash is rederived.
    /// At the largest nonce nothing changes and `ExhaustedNonce` comes back.
    pub fn increment_and_hash(&mut self) -> (r: Result<(), BlockError>)
        ensures
            old(self)@.nonce == u32::MAX <==> r == Err::<(), BlockError>(BlockError::ExhaustedNonce),
            old(self)@.nonce == u32::MAX ==> final(self)@ == old(self)@,
            old(self)@.nonce < u32::MAX ==> r is Ok && final(self)@ == (BlockView {
                nonce: (old(self)@.nonce + 1) as u32,
                hash: final(self)@.hash,
                ..old(self)@
            }) && final(self)@.hash_consistent() && is_hex_digest(final(self)@.hash),
    {
        if self.nonce == u32::MAX {
            return Err(BlockError::ExhaustedNonce);
        }
        self.nonce = self.nonce + 1;
        self.set_hash();
        Ok(())
    }

    pub fn get_hash(&self) -> (r: String)
        ensures
            r@ == self@.hash,
    {
        self.hash.clone()
    }

    pub fn get_merkel_root(&self) -> (r: String)
        ensures
            r@ == self@.merkel_root,
    {
        self.merkel_root.clone()
    }

    pub fn get_prev_hash(&self) -> (r: String)
        ensures
            r@ == self@.prev_hash,
    {
        self.prev_hash.clone()
    }

    pub fn get_transactions(&self) -> (r: Vec<Transaction>)
        ensures
            r@ == self@.transactions,
    {
        copy_transactions(&self.transactions)
    }

    pub fn get_difficulty(&self) -> (r: u32)
        ensures
            r == self@.difficulty,
    {
        self.difficulty
    }

    pub fn get_timestamp(&self) -> (r: u64)
        ensures
            r == self@.timestamp,
    {
        self.timestamp
    }

    pub fn get_height(&self) -> (r: u64)
        ensures
            r == self@.height,
    {
        self.height
    }

    pub fn get_nonce(&self) -> (r: u32)
        ensures
            r == self@.nonce,
    {
        self.nonce
    }

    /// Whether `hash` meets `difficulty`: the last eight hex digits of the
    /// hash, as a big-endian 32-bit word, must not exceed the difficulty in
    /// any of the eight nibbles. This is a per-nibble target, not a numeric
    /// comparison. A hash that does not end in eight hex digits fails.
    pub fn verify_difficulty(hash: String, difficulty: u32) -> (r: bool)
        ensures
            r == satisfies_difficulty(hash@, difficulty),
    {
        satisfies(&hash, difficulty)
    }

    /// Whether the transactions are within the limit and every one that is
    /// not a reward has a valid signature; `signatures_valid[i]` is the
    /// signature verdict on transaction `i`, and a missing verdict rejects.
    pub fn verify_transactions(&self, signatures_valid: &Vec<bool>) -> (r: bool)
        ensures
            r == transactions_valid(self@.transactions, signatures_valid@),
    {
        if self.transactions.len() > TRANSACTION_LIMIT_PER_BLOCK {
            return false;
        }
        let mut i: usize = 0;
        while i < self.transactions.len()
            invariant
                i <= self.transactions.len(),
                self.transactions.len() <= TRANSACTION_LIMIT_PER_BLOCK,
                forall|j: int|
                    0 <= j < i ==> (#[trigger] self.transactions@[j].is_reward_spec() || (j
                        < signatures_valid@.len() && signatures_valid@[j])),
            decreases self.transactions.len() - i,
        {
            if !self.transactions[i].is_reward() && !(i < signatures_valid.len()
                && signatures_valid[i]) {
                proof {
                    assert(!self@.transactions[i as int].is_reward_spec());
                }
                return false;
            }
            i = i + 1;
        }
        true
    }

    /// Whether the stored hash is the digest of the block's message; any
    /// change to a hashed field that skipped the rehash is caught here.
    pub fn verify_hash(&self) -> (r: bool)
        ensures
            r == self@.hash_consistent(),
    {
        let message = self.get_message();
        let digest = sha256_digest(&message);
        self.hash == digest
    }

    /// Whether the stored Merkle root commits to the block's transactions.
    /// The hash covers only the root, so a change to a transaction that
    /// left the root alone is caught here and not by `verify_hash`.
    pub fn verify_merkel_root(&self) -> (r: bool)
        ensures
            r == self@.merkle_consistent(),
    {
        let root = get_merkel_root(&self.transactions);
        self.merkel_root == root
    }

    /// The whole check a chain makes before it accepts the block (all but
    /// the link to the chain's tip): hash, Merkle root, difficulty, size,
    /// then signatures. The first that fails is reported.
    pub fn validate(&self, signatures_valid: &Vec<bool>) -> (r: Result<(), BlockError>)
        ensures
            r is Ok <==> self@.first_fault(signatures_valid@) is None,
            r matches Err(e) ==> self@.first_fault(signatures_valid@) == Some(e),
    {
        if !self.verify_hash() {
            return Err(BlockError::HashMismatch);
        }
        if !self.verify_merkel_root() {
            return Err(BlockError::MerkleMismatch);
        }
        if !satisfies(&self.hash, self.difficulty) {
            return Err(BlockError::DifficultyNotMet);
        }
        if self.transactions.len() > TRANSACTION_LIMIT_PER_BLOCK {
            return Err(BlockError::OversizedBlock);
        }
        if !self.verify_transactions(signatures_valid) {
            return Err(BlockError::InvalidSignature);
        }
        Ok(())
    }
}

} // verus!
