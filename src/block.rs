use vstd::prelude::*;
use crate::encoding::{be_bytes, be_value, difficulty_bytes_as_u128, u128_bytes, u32_bytes, u64_bytes};
use crate::hashable::{sha256_of, Hashable};
use crate::transaction::{transaction_bytes, Transaction};

verus! {

/// A block of the chain: its header fields and its transactions.
pub struct Block {
    pub index: u32,
    pub timestamp: u128,
    pub hash: crate::Hash,
    pub prev_block_hash: crate::Hash,
    pub nonce: u64,
    pub transactions: Vec<Transaction>,
    pub difficulty: u128,
}

/// Why mining stopped without a block.
#[derive(Debug, PartialEq, Eq)]
pub enum MiningErr {
    /// No nonce gives a digest under the difficulty.
    NonceSpaceExhausted,
}

/// The encodings of `s`, one after another.
pub open spec fn transactions_bytes(s: Seq<Transaction>) -> Seq<u8>
    decreases s.len(),
{
    if s.len() == 0 {
        Seq::empty()
    } else {
        transactions_bytes(s.drop_last()) + transaction_bytes(s.last())
    }
}

/// The encoding of `b` with `nonce` in place of its own.
pub open spec fn block_bytes_with_nonce(b: Block, nonce: u64) -> Seq<u8> {
    be_bytes(b.index as nat, 4) + be_bytes(b.timestamp as nat, 16) + b.prev_block_hash@ + be_bytes(
        nonce as nat,
        8,
    ) + transactions_bytes(b.transactions@) + be_bytes(b.difficulty as nat, 16)
}

/// The canonical encoding of `b`; its `hash` field is left out.
pub open spec fn block_bytes(b: Block) -> Seq<u8> {
    block_bytes_with_nonce(b, b.nonce)
}

/// The digest of `b` as its fields stand.
pub open spec fn block_hash(b: Block) -> Seq<u8> {
    sha256_of(block_bytes(b))
}

/// `difficulty` is above the score that the first sixteen bytes of `h` spell.
pub open spec fn meets_difficulty(h: Seq<u8>, difficulty: u128) -> bool {
    difficulty as nat > be_value(h.subrange(0, 16))
}

/// The digest of `b` with `nonce` meets its difficulty.
pub open spec fn nonce_works(b: Block, nonce: u64) -> bool {
    meets_difficulty(sha256_of(block_bytes_with_nonce(b, nonce)), b.difficulty)
}

/// `a` and `b` agree but for `nonce` and `hash`.
pub open spec fn same_content(a: Block, b: Block) -> bool {
    &&& a.index == b.index
    &&& a.timestamp == b.timestamp
    &&& a.prev_block_hash@ == b.prev_block_hash@
    &&& a.transactions@ == b.transactions@
    &&& a.difficulty == b.difficulty
}

/// True iff `difficulty` is above the first sixteen bytes of `hash`, read big-endian.
pub fn check_difficulty(hash: &crate::Hash, difficulty: u128) -> (r: bool)
    requires
        hash@.len() >= 16,
    ensures
        r == meets_difficulty(hash@, difficulty),
{
    difficulty > difficulty_bytes_as_u128(hash)
}

/// Thirty-two zero bytes.
pub open spec fn zero_bytes() -> Seq<u8> {
    Seq::new(32, |i: int| 0u8)
}

/// Thirty-two zero bytes: the previous hash of a genesis block.
pub fn zero_hash() -> (r: crate::Hash)
    ensures
        r@ == zero_bytes(),
{
    let mut hash: Vec<u8> = Vec::new();
    let mut i: usize = 0;
    while i < 32
        invariant
            i <= 32,
            hash@ == Seq::new(i as nat, |j: int| 0u8),
        decreases 32 - i,
    {
        hash.push(0u8);
        i = i + 1;
        assert(hash@ =~= Seq::new(i as nat, |j: int| 0u8));
    }
    hash
}

impl Block {
    /// An unmined block: nonce zero, and a hash of 32 zero bytes.
    pub fn new(
        index: u32,
        timestamp: u128,
        prev_block_hash: crate::Hash,
        transactions: Vec<Transaction>,
        difficulty: u128,
    ) -> (r: Block)
        ensures
            r.index == index,
            r.timestamp == timestamp,
            r.hash@ == zero_bytes(),
            r.prev_block_hash@ == prev_block_hash@,
            r.nonce == 0,
            r.transactions@ == transactions@,
            r.difficulty == difficulty,
    {
        let hash = zero_hash();
        Block { index, timestamp, hash, prev_block_hash, nonce: 0, transactions, difficulty }
    }

    /// Tries nonces from zero upwards and keeps the first whose digest meets the
    /// difficulty, storing that digest in `hash`.
    pub fn mine(&mut self) -> (r: Result<(), MiningErr>)
        ensures
            same_content(*final(self), *old(self)),
            match r {
                Ok(()) => {
                    &&& final(self).hash@ == block_hash(*final(self))
                    &&& meets_difficulty(final(self).hash@, final(self).difficulty)
                    &&& forall|n: u64| n < final(self).nonce ==> !nonce_works(*old(self), n)
                },
                Err(_) => {
                    &&& final(self).hash@ == old(self).hash@
                    &&& forall|n: u64| !nonce_works(*old(self), n)
                },
            },
    {
        let mut attempt: u64 = 0;
        loop
            invariant
                same_content(*self, *old(self)),
                self.hash@ == old(self).hash@,
                forall|n: u64| n < attempt ==> !nonce_works(*old(self), n),
            decreases u64::MAX - attempt,
        {
            self.nonce = attempt;
            let hash = self.hash();
            assert(block_bytes(*self) == block_bytes_with_nonce(*old(self), attempt));
            if check_difficulty(&hash, self.difficulty) {
                self.hash = hash;
                assert(block_bytes(*self) == block_bytes_with_nonce(*old(self), attempt));
                return Ok(());
            }
            if attempt == u64::MAX {
                assert(forall|n: u64| !nonce_works(*old(self), n));
                return Err(MiningErr::NonceSpaceExhausted);
            }
            attempt = attempt + 1;
        }
    }

    /// The block's stored hash, as lower-case hexadecimal.
    pub fn hash_hex(&self) -> (r: String)
        ensures
            r@ == crate::hex_text::hex_chars(self.hash@),
    {
        crate::hex_text::to_hex(&self.hash)
    }
}

impl Hashable for Block {
    open spec fn encoding(&self) -> Seq<u8> {
        block_bytes(*self)
    }

    fn bytes(&self) -> (r: Vec<u8>) {
        let mut r = u32_bytes(self.index);
        let mut t = u128_bytes(self.timestamp);
        r.append(&mut t);
        let mut p = crate::digest_set::copy_bytes(&self.prev_block_hash);
        r.append(&mut p);
        let mut n = u64_bytes(self.nonce);
        r.append(&mut n);
        let mut i: usize = 0;
        let ghost head = r@;
        while i < self.transactions.len()
            invariant
                i <= self.transactions@.len(),
                r@ == head + transactions_bytes(self.transactions@.subrange(0, i as int)),
            decreases self.transactions@.len() - i,
        {
            let mut b = self.transactions[i].bytes();
            r.append(&mut b);
            i = i + 1;
            assert(self.transactions@.subrange(0, i as int).drop_last() =~= self.transactions@.subrange(0, i - 1));
        }
        assert(self.transactions@.subrange(0, self.transactions@.len() as int) =~= self.transactions@);
        let mut d = u128_bytes(self.difficulty);
        r.append(&mut d);
        r
    }
}

} // verus!
