//! Transactions as the block sees them: who sent them, to whom, what they
//! carry, and their signature. Signature checking itself belongs to the
//! elliptic-curve layer; the block takes its verdicts.
use vstd::prelude::*;
use vstd::string::StringExecFns;

verus! {

/// Who signed a transaction.
#[derive(Clone, Debug)]
pub enum Sender {
    /// The identity element: no real signer; marks a miner's reward.
    Identity,
    /// An encoded public key.
    Key(String),
}

#[derive(Clone, Debug)]
pub struct Transaction {
    pub sender: Sender,
    pub recipient: String,
    pub payload: String,
    pub signature: String,
}

/// How a sender is written in a transaction's message; the identity element
/// is written as its compressed encoding, `00`.
pub open spec fn sender_text(s: Sender) -> Seq<char> {
    match s {
        Sender::Identity => seq!['0', '0'],
        Sender::Key(k) => k@,
    }
}

impl Sender {
    pub fn duplicate(&self) -> (r: Sender)
        ensures
            r == *self,
    {
        match self {
            Sender::Identity => Sender::Identity,
            Sender::Key(k) => Sender::Key(k.clone()),
        }
    }
}

impl Transaction {
    pub fn new(sender: Sender, recipient: String, payload: String, signature: String) -> (r: Transaction)
        ensures
            r == (Transaction { sender, recipient, payload, signature }),
    {
        Transaction { sender, recipient, payload, signature }
    }

    /// The unsigned transaction that pays a block's reward to `miner_address`.
    pub fn reward_transaction(miner_address: &String) -> (r: Transaction)
        ensures
            r.is_reward_spec(),
            r.recipient@ == miner_address@,
            r.payload@ == Seq::<char>::empty(),
            r.signature@ == Seq::<char>::empty(),
    {
        Transaction {
            sender: Sender::Identity,
            recipient: miner_address.clone(),
            payload: String::new(),
            signature: String::new(),
        }
    }

    pub open spec fn is_reward_spec(&self) -> bool {
        self.sender is Identity
    }

    /// Whether the sender is the identity element, which marks a reward.
    pub fn is_reward(&self) -> (r: bool)
        ensures
            r == self.is_reward_spec(),
    {
        match self.sender {
            Sender::Identity => true,
            Sender::Key(_) => false,
        }
    }

    pub fn get_sender(&self) -> (r: Sender)
        ensures
            r == self.sender,
    {
        self.sender.duplicate()
    }

    /// The text that commits to the transaction: sender, recipient,
    /// payload and signature, separated by colons.
    pub open spec fn message(&self) -> Seq<char> {
        sender_text(self.sender) + seq![':'] + self.recipient@ + seq![':'] + self.payload@ + seq![':']
            + self.signature@
    }

    pub fn get_message(&self) -> (r: String)
        ensures
            r@ == self.message(),
    {
        let mut m = String::new();
        match &self.sender {
            Sender::Identity => {
                proof { reveal_strlit("00"); }
                m.append("00");
            },
            Sender::Key(k) => m.append(k.as_str()),
        }
        proof { reveal_strlit(":"); }
        m.append(":");
        m.append(self.recipient.as_str());
        m.append(":");
        m.append(self.payload.as_str());
        m.append(":");
        m.append(self.signature.as_str());
        proof {
            assert(m@ =~= self.message());
        }
        m
    }

    pub fn duplicate(&self) -> (r: Transaction)
        ensures
            r == *self,
    {
        Transaction {
            sender: self.sender.duplicate(),
            recipient: self.recipient.clone(),
            payload: self.payload.clone(),
            signature: self.signature.clone(),
        }
    }
}

/// A copy of a list of transactions, item for item.
pub fn copy_transactions(v: &Vec<Transaction>) -> (r: Vec<Transaction>)
    ensures
        r@ == v@,
{
    let mut r: Vec<Transaction> = Vec::new();
    let mut i: usize = 0;
    while i < v.len()
        invariant
            i <= v.len(),
            r@ == v@.subrange(0, i as int),
        decreases v.len() - i,
    {
        r.push(v[i].duplicate());
        i = i + 1;
        proof {
            assert(r@ =~= v@.subrange(0, i as int));
        }
    }
    proof {
        assert(v@.subrange(0, v.len() as int) =~= v@);
    }
    r
}

} // verus!
