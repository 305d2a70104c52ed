//! The Merkle commitment over an ordered list of transactions: leaves are
//! the digests of the transactions' messages; each level hashes adjacent
//! pairs, an odd last node paired with itself, up to a single root.
use crate::digest::{sha256_digest, sha256_hex};
use crate::transaction::Transaction;
use vstd::prelude::*;
use vstd::string::StringExecFns;

verus! {

pub open spec fn string_views(v: Seq<String>) -> Seq<Seq<char>> {
    Seq::new(v.len(), |i: int| v[i]@)
}

pub open spec fn leaf_hashes(txs: Seq<Transaction>) -> Seq<Seq<char>> {
    Seq::new(txs.len(), |i: int| sha256_hex(txs[i].message()))
}

/// Node `i` of the level above `level`.
pub open spec fn parent_hash(level: Seq<Seq<char>>, i: int) -> Seq<char> {
    let left = level[2 * i];
    let right = if 2 * i + 1 < level.len() {
        level[2 * i + 1]
    } else {
        left
    };
    sha256_hex(left + right)
}

pub open spec fn next_level(level: Seq<Seq<char>>) -> Seq<Seq<char>> {
    Seq::new(((level.len() + 1) / 2) as nat, |i: int| parent_hash(level, i))
}

pub open spec fn root_of_level(level: Seq<Seq<char>>) -> Seq<char>
    decreases level.len(),
{
    if level.len() == 0 {
        Seq::empty()
    } else if level.len() == 1 {
        level[0]
    } else {
        root_of_level(next_level(level))
    }
}

/// The Merkle root of `txs`; the empty list commits to the empty string.
pub open spec fn merkle_root(txs: Seq<Transaction>) -> Seq<char> {
    root_of_level(leaf_hashes(txs))
}

fn parent_level(level: &Vec<String>) -> (r: Vec<String>)
    ensures
        r.len() == (level.len() + 1) / 2,
        string_views(r@) == next_level(string_views(level@)),
{
    let ghost lv = string_views(level@);
    let n = level.len();
    let half = n / 2 + n % 2;
    let mut r: Vec<String> = Vec::new();
    let mut j: usize = 0;
    while j < half
        invariant
            n == level.len(),
            half == (n + 1) / 2,
            lv == string_views(level@),
            j <= half,
            r.len() == j,
            forall|k: int| 0 <= k < j ==> #[trigger] r@[k]@ == parent_hash(lv, k),
        decreases half - j,
    {
        let mut pair = level[2 * j].clone();
        if 2 * j + 1 < n {
            pair.append(level[2 * j + 1].as_str());
        } else {
            pair.append(level[2 * j].as_str());
        }
        let h = sha256_digest(&pair);
        r.push(h);
        j = j + 1;
    }
    proof {
        assert(string_views(r@) =~= next_level(lv));
    }
    r
}

/// The Merkle root of `transactions`, as lowercase hex; empty for an empty
/// list.
pub fn get_merkel_root(transactions: &Vec<Transaction>) -> (r: String)
    ensures
        r@ == merkle_root(transactions@),
{
    let mut level: Vec<String> = Vec::new();
    let mut i: usize = 0;
    while i < transactions.len()
        invariant
            i <= transactions.len(),
            level.len() == i,
            string_views(level@) =~= leaf_hashes(transactions@).subrange(0, i as int),
        decreases transactions.len() - i,
    {
        let msg = transactions[i].get_message();
        let h = sha256_digest(&msg);
        let ghost before = level@;
        level.push(h);
        proof {
            assert(level@ == before.push(h));
            assert(string_views(level@) =~= leaf_hashes(transactions@).subrange(0, i as int + 1));
        }
        i = i + 1;
    }
    proof {
        assert(leaf_hashes(transactions@).subrange(0, i as int) =~= leaf_hashes(transactions@));
    }
    if level.len() == 0 {
        return String::new();
    }
    while level.len() > 1
        invariant
            level.len() >= 1,
            root_of_level(string_views(level@)) == merkle_root(transactions@),
        decreases level.len(),
    {
        level = parent_level(&level);
    }
    level[0].clone()
}

} // verus!
