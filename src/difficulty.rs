//! The nibble-wise proof-of-work target: each of the eight 4-bit nibbles of
//! the hash's last four bytes must not exceed the matching nibble of the
//! 32-bit difficulty word.
use vstd::prelude::*;

verus! {

pub open spec fn is_hex_digit(c: char) -> bool {
    ('0' <= c && c <= '9') || ('a' <= c && c <= 'f') || ('A' <= c && c <= 'F')
}

pub open spec fn hex_digit_value(c: char) -> nat {
    if '0' <= c && c <= '9' {
        (c as u32 - '0' as u32) as nat
    } else if 'a' <= c && c <= 'f' {
        (c as u32 - 'a' as u32 + 10) as nat
    } else {
        (c as u32 - 'A' as u32 + 10) as nat
    }
}

/// The big-endian value of a string of hex digits.
pub open spec fn hex_value(s: Seq<char>) -> nat
    decreases s.len(),
{
    if s.len() == 0 {
        0
    } else {
        hex_value(s.drop_last()) * 16 + hex_digit_value(s.last())
    }
}

pub open spec fn pow16(k: nat) -> nat
    decreases k,
{
    if k == 0 {
        1
    } else {
        16 * pow16((k - 1) as nat)
    }
}

/// Nibble `i` (0 is the least significant) of `x`.
pub open spec fn nibble(x: u32, i: u32) -> u32 {
    (x >> (4 * i)) & 0xf
}

/// Every nibble of `v` is at most the matching nibble of `difficulty`.
pub open spec fn meets_target(v: u32, difficulty: u32) -> bool {
    forall|i: u32| i < 8 ==> #[trigger] nibble(v, i) <= nibble(difficulty, i)
}

/// The last eight characters of a hash.
pub open spec fn hash_tail(h: Seq<char>) -> Seq<char> {
    h.subrange(h.len() - 8, h.len() as int)
}

/// The hash ends in eight hex digits.
pub open spec fn has_hex_tail(h: Seq<char>) -> bool {
    h.len() >= 8 && forall|i: int| h.len() - 8 <= i < h.len() ==> is_hex_digit(#[trigger] h[i])
}

/// The hash ends in eight hex digits whose value meets the difficulty word.
pub open spec fn satisfies_difficulty(h: Seq<char>, difficulty: u32) -> bool {
    has_hex_tail(h) && meets_target(hex_value(hash_tail(h)) as u32, difficulty)
}

proof fn lemma_pow16_bound(k: nat)
    requires
        k <= 8,
    ensures
        pow16(k) <= 4294967296,
    decreases 8 - k,
{
    if k < 8 {
        lemma_pow16_bound(k + 1);
        assert(pow16(k + 1) == 16 * pow16(k));
    } else {
        reveal_with_fuel(pow16, 9);
    }
}

/// Whether a hash that ends in eight hex digits, read as a big-endian 32-bit
/// word, meets `difficulty` nibble by nibble. A hash without such a tail
/// meets no target.
pub fn satisfies(hash: &String, difficulty: u32) -> (r: bool)
    ensures
        r == satisfies_difficulty(hash@, difficulty),
{
    let len = hash.as_str().unicode_len();
    if len < 8 {
        return false;
    }
    let ghost tail = hash_tail(hash@);
    let mut value: u64 = 0;
    let mut k: usize = 0;
    while k < 8
        invariant
            len == hash@.len(),
            len >= 8,
            k <= 8,
            tail == hash_tail(hash@),
            value == hex_value(tail.subrange(0, k as int)),
            value < pow16(k as nat),
            forall|i: int| len - 8 <= i < len - 8 + k ==> is_hex_digit(#[trigger] hash@[i]),
        decreases 8 - k,
    {
        let c = hash.as_str().get_char(len - 8 + k);
        let d: u64 = if '0' <= c && c <= '9' {
            (c as u32 - '0' as u32) as u64
        } else if 'a' <= c && c <= 'f' {
            (c as u32 - 'a' as u32 + 10) as u64
        } else if 'A' <= c && c <= 'F' {
            (c as u32 - 'A' as u32 + 10) as u64
        } else {
            proof {
                assert(hash@[len - 8 + k] == c);
            }
            return false;
        };
        proof {
            lemma_pow16_bound(k as nat + 1);
            let p = tail.subrange(0, k as int + 1);
            assert(p.drop_last() =~= tail.subrange(0, k as int));
            assert(p.last() == c);
            assert(pow16(k as nat + 1) == 16 * pow16(k as nat));
        }
        value = value * 16 + d;
        k = k + 1;
    }
    proof {
        assert(tail.subrange(0, 8) =~= tail);
        lemma_pow16_bound(8);
    }
    let word: u32 = value as u32;
    let mut i: u32 = 0;
    while i < 8
        invariant
            i <= 8,
            tail == hash_tail(hash@),
            hex_value(tail) < 4294967296,
            word == hex_value(tail),
            has_hex_tail(hash@),
            forall|j: u32| j < i ==> #[trigger] nibble(word, j) <= nibble(difficulty, j),
        decreases 8 - i,
    {
        let hash_bits: u32 = (word >> (4 * i)) & 0xf;
        let difficulty_bits: u32 = (difficulty >> (4 * i)) & 0xf;
        if hash_bits > difficulty_bits {
            proof {
                assert(nibble(word, i) > nibble(difficulty, i));
            }
            return false;
        }
        i = i + 1;
    }
    true
}

/// The target only widens as the difficulty word grows nibble by nibble: a
/// hash that meets `d` meets every `d2` whose nibbles are each at least
/// those of `d`.
pub proof fn lemma_difficulty_monotone(h: Seq<char>, d: u32, d2: u32)
    requires
        satisfies_difficulty(h, d),
        forall|i: u32| i < 8 ==> #[trigger] nibble(d, i) <= nibble(d2, i),
    ensures
        satisfies_difficulty(h, d2),
{
    assert forall|i: u32| i < 8 implies #[trigger] nibble(hex_value(hash_tail(h)) as u32, i) <= nibble(d2, i) by {
        assert(nibble(d, i) <= nibble(d2, i));
    }
}

} // verus!
