use vstd::prelude::*;
use crate::block::{block_hash, check_difficulty, meets_difficulty, zero_bytes, zero_hash, Block};
use crate::digest_set::{bytes_equal, DigestSet};
use crate::hashable::Hashable;
use crate::transaction::{hash_set, saturate, value_sum, Transaction};

verus! {

/// Why a block was refused.
#[derive(Debug, PartialEq, Eq, Structural)]
pub enum BlockValidationErr {
    MismatchedIndex,
    InvalidHash,
    AchronologicalTimestamp,
    MismatchedPreviousHash,
    InvalidGenesisBlockFormat,
    InvalidInput,
    InsufficientInputValue,
    InvalidCoinbaseTransaction,
}

/// The fee that `t` pays: what its inputs hold beyond its outputs.
pub open spec fn fee_of(t: Transaction) -> nat {
    (saturate(value_sum(t.inputs@)) - saturate(value_sum(t.outputs@))) as nat
}

/// Checks the non-coinbase transactions `txs` in order against `utxo`, giving the
/// digests they spend, the digests they create, and their total fee (saturating at
/// `u64::MAX`), or the first error met.
pub open spec fn scan_transactions(utxo: Set<Seq<u8>>, txs: Seq<Transaction>) -> Result<
    (Set<Seq<u8>>, Set<Seq<u8>>, nat),
    BlockValidationErr,
>
    decreases txs.len(),
{
    if txs.len() == 0 {
        Ok((Set::empty(), Set::empty(), 0))
    } else {
        match scan_transactions(utxo, txs.drop_last()) {
            Err(e) => Err(e),
            Ok((spent, created, fee)) => {
                let t = txs.last();
                let ins = hash_set(t.inputs@);
                if !ins.subset_of(utxo) || !ins.disjoint(spent) {
                    Err(BlockValidationErr::InvalidInput)
                } else if saturate(value_sum(t.outputs@)) > saturate(value_sum(t.inputs@)) {
                    Err(BlockValidationErr::InsufficientInputValue)
                } else {
                    Ok(
                        (
                            spent.union(ins),
                            created.union(hash_set(t.outputs@)),
                            saturate(fee + fee_of(t)),
                        ),
                    )
                }
            },
        }
    }
}

/// The unspent set after a block's transactions `txs`, or the first error met.
pub open spec fn apply_transactions(utxo: Set<Seq<u8>>, txs: Seq<Transaction>) -> Result<
    Set<Seq<u8>>,
    BlockValidationErr,
> {
    if txs.len() == 0 {
        Ok(utxo)
    } else if txs[0].inputs@.len() != 0 {
        Err(BlockValidationErr::InvalidCoinbaseTransaction)
    } else {
        match scan_transactions(utxo, txs.drop_first()) {
            Err(e) => Err(e),
            Ok((spent, created, fee)) => {
                if saturate(value_sum(txs[0].outputs@)) < fee {
                    Err(BlockValidationErr::InvalidCoinbaseTransaction)
                } else {
                    Ok(utxo.difference(spent).union(created.union(hash_set(txs[0].outputs@))))
                }
            },
        }
    }
}

/// The unspent set after `b` is appended to `blocks` with unspent set `utxo`, or
/// the first check that `b` fails.
pub open spec fn validate(blocks: Seq<Block>, utxo: Set<Seq<u8>>, b: Block) -> Result<
    Set<Seq<u8>>,
    BlockValidationErr,
> {
    if b.index as int != blocks.len() {
        Err(BlockValidationErr::MismatchedIndex)
    } else if !meets_difficulty(block_hash(b), b.difficulty) {
        Err(BlockValidationErr::InvalidHash)
    } else if b.index != 0 && b.timestamp <= blocks.last().timestamp {
        Err(BlockValidationErr::AchronologicalTimestamp)
    } else if b.index != 0 && b.prev_block_hash@ != blocks.last().hash@ {
        Err(BlockValidationErr::MismatchedPreviousHash)
    } else if b.index == 0 && b.prev_block_hash@ != zero_bytes() {
        Err(BlockValidationErr::InvalidGenesisBlockFormat)
    } else {
        apply_transactions(utxo, b.transactions@)
    }
}

/// Each block stands at the position its index names.
pub open spec fn indices_match(blocks: Seq<Block>) -> bool {
    forall|i: int| 0 <= i < blocks.len() ==> blocks[i].index == i
}

/// Once a prefix of `s` fails, all of `s` fails the same way.
proof fn lemma_scan_error_persists(utxo: Set<Seq<u8>>, s: Seq<Transaction>, m: int)
    requires
        0 <= m <= s.len(),
        scan_transactions(utxo, s.subrange(0, m)) is Err,
    ensures
        scan_transactions(utxo, s) == scan_transactions(utxo, s.subrange(0, m)),
    decreases s.len() - m,
{
    if m < s.len() {
        assert(s.subrange(0, m + 1).drop_last() =~= s.subrange(0, m));
        lemma_scan_error_persists(utxo, s, m + 1);
    } else {
        assert(s.subrange(0, m) =~= s);
    }
}

/// The digests that a passing run of transactions spends include the inputs of
/// each of them.
proof fn lemma_scan_spends_inputs(utxo: Set<Seq<u8>>, s: Seq<Transaction>, i: int)
    requires
        0 <= i < s.len(),
        scan_transactions(utxo, s) is Ok,
    ensures
        hash_set(s[i].inputs@).subset_of(scan_transactions(utxo, s)->Ok_0.0),
    decreases s.len(),
{
    if i < s.len() - 1 {
        lemma_scan_spends_inputs(utxo, s.drop_last(), i);
    }
}

/// No run of transactions is refused for a block's header.
proof fn lemma_scan_never_header_error(utxo: Set<Seq<u8>>, s: Seq<Transaction>)
    ensures
        scan_transactions(utxo, s) != Err::<(Set<Seq<u8>>, Set<Seq<u8>>, nat), BlockValidationErr>(
            BlockValidationErr::InvalidGenesisBlockFormat,
        ),
    decreases s.len(),
{
    if s.len() > 0 {
        lemma_scan_never_header_error(utxo, s.drop_last());
    }
}

/// Appending a block that validation accepts keeps every block at the position
/// that its index names.
pub proof fn lemma_accepted_chain_indices(blocks: Seq<Block>, utxo: Set<Seq<u8>>, b: Block)
    requires
        indices_match(blocks),
        validate(blocks, utxo, b) is Ok,
    ensures
        indices_match(blocks.push(b)),
{
    assert forall|i: int| 0 <= i < blocks.push(b).len() implies blocks.push(b)[i].index == i by {
        if i < blocks.len() {
            assert(blocks.push(b)[i] == blocks[i]);
        }
    }
}

/// On an empty chain, a block with index zero and a valid proof of work is refused
/// with `InvalidGenesisBlockFormat` exactly when its previous hash is not 32 zero
/// bytes; with 32 zero bytes only its transactions decide.
pub proof fn lemma_genesis_previous_hash(utxo: Set<Seq<u8>>, b: Block)
    requires
        b.index == 0,
        meets_difficulty(block_hash(b), b.difficulty),
    ensures
        (validate(Seq::empty(), utxo, b) == Err::<Set<Seq<u8>>, BlockValidationErr>(
            BlockValidationErr::InvalidGenesisBlockFormat,
        )) <==> b.prev_block_hash@ != zero_bytes(),
        b.prev_block_hash@ == zero_bytes() ==> validate(Seq::empty(), utxo, b) == apply_transactions(
            utxo,
            b.transactions@,
        ),
{
    if b.transactions@.len() > 0 {
        lemma_scan_never_header_error(utxo, b.transactions@.drop_first());
    }
}

/// When two transactions after the coinbase spend the same digest, the block's
/// transactions are refused; once those before the second have passed, with
/// `InvalidInput`.
pub proof fn lemma_double_spend_refused(
    utxo: Set<Seq<u8>>,
    txs: Seq<Transaction>,
    j: int,
    k: int,
    h: Seq<u8>,
)
    requires
        1 <= j < k < txs.len(),
        hash_set(txs[j].inputs@).contains(h),
        hash_set(txs[k].inputs@).contains(h),
    ensures
        apply_transactions(utxo, txs) is Err,
        txs[0].inputs@.len() == 0 && scan_transactions(utxo, txs.subrange(1, k)) is Ok
            ==> apply_transactions(utxo, txs) == Err::<Set<Seq<u8>>, BlockValidationErr>(
            BlockValidationErr::InvalidInput,
        ),
{
    if txs[0].inputs@.len() == 0 {
        let rest = txs.drop_first();
        assert(rest.subrange(0, k - 1) =~= txs.subrange(1, k));
        let pre = rest.subrange(0, k - 1);
        let cur = rest.subrange(0, k);
        assert(cur.drop_last() =~= pre);
        if scan_transactions(utxo, pre) is Ok {
            assert(pre[j - 1] == txs[j]);
            lemma_scan_spends_inputs(utxo, pre, j - 1);
            let spent = scan_transactions(utxo, pre)->Ok_0.0;
            assert(spent.contains(h));
            assert(cur.last() == txs[k]);
            assert(!hash_set(cur.last().inputs@).disjoint(spent));
            lemma_scan_error_persists(utxo, rest, k);
        } else {
            lemma_scan_error_persists(utxo, rest, k - 1);
        }
    }
}

/// A transaction after the coinbase that spends a digest outside the unspent set
/// is refused with `InvalidInput`, once those before it have passed.
pub proof fn lemma_unknown_input_refused(
    utxo: Set<Seq<u8>>,
    txs: Seq<Transaction>,
    k: int,
    h: Seq<u8>,
)
    requires
        1 <= k < txs.len(),
        txs[0].inputs@.len() == 0,
        scan_transactions(utxo, txs.subrange(1, k)) is Ok,
        hash_set(txs[k].inputs@).contains(h),
        !utxo.contains(h),
    ensures
        apply_transactions(utxo, txs) == Err::<Set<Seq<u8>>, BlockValidationErr>(
            BlockValidationErr::InvalidInput,
        ),
{
    let rest = txs.drop_first();
    assert(rest.subrange(0, k - 1) =~= txs.subrange(1, k));
    assert(rest.subrange(0, k).drop_last() =~= rest.subrange(0, k - 1));
    assert(rest.subrange(0, k).last() == txs[k]);
    lemma_scan_error_persists(utxo, rest, k);
}

/// A transaction after the coinbase whose inputs are unspent and not yet spent in
/// the block, but whose outputs are worth more than its inputs, is refused with
/// `InsufficientInputValue`, once those before it have passed.
pub proof fn lemma_overspend_refused(utxo: Set<Seq<u8>>, txs: Seq<Transaction>, k: int)
    requires
        1 <= k < txs.len(),
        txs[0].inputs@.len() == 0,
        scan_transactions(utxo, txs.subrange(1, k)) is Ok,
        hash_set(txs[k].inputs@).subset_of(utxo),
        hash_set(txs[k].inputs@).disjoint(scan_transactions(utxo, txs.subrange(1, k))->Ok_0.0),
        saturate(value_sum(txs[k].outputs@)) > saturate(value_sum(txs[k].inputs@)),
    ensures
        apply_transactions(utxo, txs) == Err::<Set<Seq<u8>>, BlockValidationErr>(
            BlockValidationErr::InsufficientInputValue,
        ),
{
    let rest = txs.drop_first();
    assert(rest.subrange(0, k - 1) =~= txs.subrange(1, k));
    assert(rest.subrange(0, k).drop_last() =~= rest.subrange(0, k - 1));
    assert(rest.subrange(0, k).last() == txs[k]);
    lemma_scan_error_persists(utxo, rest, k);
}

/// A block whose coinbase mints less than the fees of the transactions after it
/// is refused with `InvalidCoinbaseTransaction`.
pub proof fn lemma_coinbase_below_fees_refused(utxo: Set<Seq<u8>>, txs: Seq<Transaction>)
    requires
        txs.len() >= 1,
        txs[0].inputs@.len() == 0,
        scan_transactions(utxo, txs.drop_first()) is Ok,
        saturate(value_sum(txs[0].outputs@)) < scan_transactions(utxo, txs.drop_first())->Ok_0.2,
    ensures
        apply_transactions(utxo, txs) == Err::<Set<Seq<u8>>, BlockValidationErr>(
            BlockValidationErr::InvalidCoinbaseTransaction,
        ),
{
}

/// A block whose index is not the chain's length is refused with
/// `MismatchedIndex`, whatever else it holds.
pub proof fn lemma_wrong_index_refused(blocks: Seq<Block>, utxo: Set<Seq<u8>>, b: Block)
    requires
        b.index as int != blocks.len(),
    ensures
        validate(blocks, utxo, b) == Err::<Set<Seq<u8>>, BlockValidationErr>(
            BlockValidationErr::MismatchedIndex,
        ),
{
}

/// An append-only chain of blocks and the set of digests of unspent outputs.
pub struct Blockchain {
    pub blocks: Vec<Block>,
    unspent_outputs: DigestSet,
}

impl Blockchain {
    /// The blocks appended so far, oldest first.
    pub closed spec fn chain(&self) -> Seq<Block> {
        self.blocks@
    }

    /// The digests of the unspent outputs.
    pub closed spec fn unspent(&self) -> Set<Seq<u8>> {
        self.unspent_outputs@
    }

    /// The unspent set holds each digest once.
    pub closed spec fn wf(&self) -> bool {
        self.unspent_outputs.wf()
    }

    /// An empty chain with no unspent outputs.
    pub fn new() -> (r: Blockchain)
        ensures
            r.wf(),
            r.chain().len() == 0,
            indices_match(r.chain()),
            r.unspent() == Set::<Seq<u8>>::empty(),
    {
        Blockchain { blocks: Vec::new(), unspent_outputs: DigestSet::new() }
    }

    /// The digests of the unspent outputs.
    pub fn unspent_outputs(&self) -> (r: &DigestSet)
        ensures
            r@ == self.unspent(),
    {
        &self.unspent_outputs
    }

    /// Checks `block` against the chain and, only if every check passes, appends it
    /// and updates the unspent set; on failure nothing changes.
    pub fn update_with_block(&mut self, block: Block) -> (r: Result<(), BlockValidationErr>)
        requires
            old(self).wf(),
        ensures
            final(self).wf(),
            indices_match(old(self).chain()) ==> indices_match(final(self).chain()),
            match validate(old(self).chain(), old(self).unspent(), block) {
                Ok(u) => {
                    &&& r is Ok
                    &&& final(self).chain() == old(self).chain().push(block)
                    &&& final(self).unspent() == u
                },
                Err(e) => {
                    &&& r == Err::<(), BlockValidationErr>(e)
                    &&& final(self).chain() == old(self).chain()
                    &&& final(self).unspent() == old(self).unspent()
                },
            },
    {
        let i = self.blocks.len();
        if block.index as usize != i {
            return Err(BlockValidationErr::MismatchedIndex);
        }
        let h = block.hash();
        if !check_difficulty(&h, block.difficulty) {
            return Err(BlockValidationErr::InvalidHash);
        }
        if i != 0 {
            let prev = &self.blocks[i - 1];
            if block.timestamp <= prev.timestamp {
                return Err(BlockValidationErr::AchronologicalTimestamp);
            }
            if !bytes_equal(&block.prev_block_hash, &prev.hash) {
                return Err(BlockValidationErr::MismatchedPreviousHash);
            }
        } else {
            let zeros = zero_hash();
            if !bytes_equal(&block.prev_block_hash, &zeros) {
                return Err(BlockValidationErr::InvalidGenesisBlockFormat);
            }
        }
        let n = block.transactions.len();
        if n > 0 {
            let coinbase = &block.transactions[0];
            if !coinbase.is_coinbase() {
                return Err(BlockValidationErr::InvalidCoinbaseTransaction);
            }
            let ghost utxo = self.unspent();
            let ghost rest = block.transactions@.drop_first();
            let mut spent = DigestSet::new();
            let mut created = DigestSet::new();
            let mut total_fee: u64 = 0;
            let mut k: usize = 1;
            while k < n
                invariant
                    1 <= k <= n,
                    n == block.transactions@.len(),
                    rest == block.transactions@.drop_first(),
                    utxo == self.unspent(),
                    utxo == old(self).unspent(),
                    self.chain() == old(self).chain(),
                    block.transactions@[0].inputs@.len() == 0,
                    validate(old(self).chain(), utxo, block) == apply_transactions(
                        utxo,
                        block.transactions@,
                    ),
                    self.wf(),
                    spent.wf(),
                    created.wf(),
                    scan_transactions(utxo, rest.subrange(0, k - 1)) == Ok::<
                        (Set<Seq<u8>>, Set<Seq<u8>>, nat),
                        BlockValidationErr,
                    >((spent@, created@, total_fee as nat)),
                decreases n - k,
            {
                let t = &block.transactions[k];
                let ghost pre = rest.subrange(0, k - 1);
                let ghost cur = rest.subrange(0, k as int);
                proof {
                    assert(cur.drop_last() =~= pre);
                    assert(cur.last() == *t);
                }
                let ins = t.input_hashes();
                if !ins.is_subset(&self.unspent_outputs) || !ins.is_disjoint(&spent) {
                    proof {
                        assert(scan_transactions(utxo, cur) == Err::<
                            (Set<Seq<u8>>, Set<Seq<u8>>, nat),
                            BlockValidationErr,
                        >(BlockValidationErr::InvalidInput));
                        lemma_scan_error_persists(utxo, rest, k as int);
                    }
                    return Err(BlockValidationErr::InvalidInput);
                }
                let input_value = t.input_value();
                let output_value = t.output_value();
                if output_value > input_value {
                    proof {
                        assert(scan_transactions(utxo, cur) == Err::<
                            (Set<Seq<u8>>, Set<Seq<u8>>, nat),
                            BlockValidationErr,
                        >(BlockValidationErr::InsufficientInputValue));
                        lemma_scan_error_persists(utxo, rest, k as int);
                    }
                    return Err(BlockValidationErr::InsufficientInputValue);
                }
                let fee = input_value - output_value;
                total_fee = total_fee.saturating_add(fee);
                spent.extend(&ins);
                let outs = t.output_hashes();
                created.extend(&outs);
                k = k + 1;
            }
            assert(rest.subrange(0, n - 1) =~= rest);
            if coinbase.output_value() < total_fee {
                return Err(BlockValidationErr::InvalidCoinbaseTransaction);
            }
            let minted = coinbase.output_hashes();
            created.extend(&minted);
            self.unspent_outputs.remove_all(&spent);
            self.unspent_outputs.extend(&created);
            proof {
                assert(self.unspent() =~= utxo.difference(spent@).union(created@));
            }
        }
        proof {
            if indices_match(old(self).chain()) {
                lemma_accepted_chain_indices(old(self).chain(), old(self).unspent(), block);
            }
        }
        self.blocks.push(block);
        Ok(())
    }
}

} // verus!
