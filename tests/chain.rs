use blockchainlib::block::{check_difficulty, Block, MiningErr};
use blockchainlib::blockchain::{BlockValidationErr, Blockchain};
use blockchainlib::hashable::Hashable;
use blockchainlib::transaction::{Output, Transaction};

const EASY: u128 = 0x0fff_ffff_ffff_ffff_ffff_ffff_ffff_ffff;

fn out(addr: &str, value: u64) -> Output {
    Output { to_addr: addr.to_owned(), value }
}

fn tx(inputs: Vec<Output>, outputs: Vec<Output>) -> Transaction {
    Transaction { inputs, outputs }
}

fn mined(index: u32, timestamp: u128, prev: Vec<u8>, txs: Vec<Transaction>) -> Block {
    let mut b = Block::new(index, timestamp, prev, txs, EASY);
    assert_eq!(b.mine(), Ok(()));
    b
}

/// A chain holding the genesis block that pays Alice 50 and Bob 7.
fn genesis_chain() -> (Blockchain, Vec<u8>) {
    let genesis = mined(0, 1000, vec![0; 32], vec![tx(vec![], vec![out("Alice", 50), out("Bob", 7)])]);
    let hash = genesis.hash.clone();
    let mut chain = Blockchain::new();
    assert_eq!(chain.update_with_block(genesis), Ok(()));
    (chain, hash)
}

#[test]
fn genesis_scenario_leaves_alice_and_bob_unspent() {
    let (chain, _) = genesis_chain();
    let utxo = chain.unspent_outputs();
    assert_eq!(utxo.len(), 2);
    assert!(utxo.contains(&out("Alice", 50).hash()));
    assert!(utxo.contains(&out("Bob", 7).hash()));
    assert_eq!(chain.blocks.len(), 1);
    assert_eq!(chain.blocks[0].index, 0);
}

#[test]
fn second_block_burns_alice_and_pays_chris() {
    let (mut chain, last) = genesis_chain();
    let alice = chain.blocks[0].transactions[0].outputs[0].clone();
    let block = mined(1, 2000, last, vec![
        tx(vec![], vec![out("Chris", 536)]),
        tx(vec![alice], vec![]),
    ]);
    assert_eq!(chain.update_with_block(block), Ok(()));
    let utxo = chain.unspent_outputs();
    assert_eq!(utxo.len(), 2);
    assert!(utxo.contains(&out("Bob", 7).hash()));
    assert!(utxo.contains(&out("Chris", 536).hash()));
    assert!(!utxo.contains(&out("Alice", 50).hash()));
    assert_eq!(chain.blocks.len(), 2);
    assert_eq!(chain.blocks[1].index, 1);
}

#[test]
fn wrong_index_is_refused() {
    let mut chain = Blockchain::new();
    let block = mined(1, 1000, vec![0; 32], vec![]);
    assert_eq!(chain.update_with_block(block), Err(BlockValidationErr::MismatchedIndex));
    assert_eq!(chain.blocks.len(), 0);

    let (mut chain, last) = genesis_chain();
    let block = mined(0, 2000, last, vec![]);
    assert_eq!(chain.update_with_block(block), Err(BlockValidationErr::MismatchedIndex));
    assert_eq!(chain.blocks.len(), 1);
}

#[test]
fn genesis_needs_zero_previous_hash() {
    let mut chain = Blockchain::new();
    let mut prev = vec![0u8; 32];
    prev[31] = 1;
    let block = mined(0, 1000, prev, vec![]);
    assert_eq!(chain.update_with_block(block), Err(BlockValidationErr::InvalidGenesisBlockFormat));
    assert_eq!(chain.blocks.len(), 0);

    let block = mined(0, 1000, vec![0; 32], vec![]);
    assert_eq!(chain.update_with_block(block), Ok(()));
}

#[test]
fn empty_transaction_list_is_accepted() {
    let (mut chain, last) = genesis_chain();
    let block = mined(1, 2000, last, vec![]);
    assert_eq!(chain.update_with_block(block), Ok(()));
    assert_eq!(chain.unspent_outputs().len(), 2);
}

#[test]
fn unmined_block_has_invalid_hash() {
    let mut chain = Blockchain::new();
    let block = Block::new(0, 1000, vec![0; 32], vec![], 0);
    assert_eq!(chain.update_with_block(block), Err(BlockValidationErr::InvalidHash));
}

#[test]
fn timestamp_must_increase() {
    let (mut chain, last) = genesis_chain();
    let block = mined(1, 1000, last, vec![]);
    assert_eq!(chain.update_with_block(block), Err(BlockValidationErr::AchronologicalTimestamp));
}

#[test]
fn previous_hash_must_match() {
    let (mut chain, _) = genesis_chain();
    let block = mined(1, 2000, vec![7; 32], vec![]);
    assert_eq!(chain.update_with_block(block), Err(BlockValidationErr::MismatchedPreviousHash));
}

#[test]
fn first_transaction_must_be_coinbase() {
    let (mut chain, last) = genesis_chain();
    let block = mined(1, 2000, last, vec![tx(vec![out("Bob", 7)], vec![])]);
    assert_eq!(chain.update_with_block(block), Err(BlockValidationErr::InvalidCoinbaseTransaction));
}

#[test]
fn double_spend_in_one_block_is_refused() {
    let (mut chain, last) = genesis_chain();
    let block = mined(1, 2000, last, vec![
        tx(vec![], vec![]),
        tx(vec![out("Alice", 50)], vec![out("Dave", 50)]),
        tx(vec![out("Alice", 50)], vec![out("Eve", 50)]),
    ]);
    assert_eq!(chain.update_with_block(block), Err(BlockValidationErr::InvalidInput));
    let utxo = chain.unspent_outputs();
    assert_eq!(utxo.len(), 2);
    assert!(utxo.contains(&out("Alice", 50).hash()));
    assert!(!utxo.contains(&out("Dave", 50).hash()));
    assert_eq!(chain.blocks.len(), 1);
}

#[test]
fn unknown_input_is_refused() {
    let (mut chain, last) = genesis_chain();
    let block = mined(1, 2000, last, vec![
        tx(vec![], vec![]),
        tx(vec![out("Mallory", 9)], vec![]),
    ]);
    assert_eq!(chain.update_with_block(block), Err(BlockValidationErr::InvalidInput));
}

#[test]
fn overspend_is_refused() {
    let (mut chain, last) = genesis_chain();
    let block = mined(1, 2000, last, vec![
        tx(vec![], vec![]),
        tx(vec![out("Bob", 7)], vec![out("Carol", 8)]),
    ]);
    assert_eq!(chain.update_with_block(block), Err(BlockValidationErr::InsufficientInputValue));
}

#[test]
fn coinbase_below_fees_is_refused() {
    let (mut chain, last) = genesis_chain();
    let block = mined(1, 2000, last, vec![
        tx(vec![], vec![out("Chris", 2)]),
        tx(vec![out("Bob", 7)], vec![out("Carol", 4)]),
    ]);
    assert_eq!(chain.update_with_block(block), Err(BlockValidationErr::InvalidCoinbaseTransaction));
    assert_eq!(chain.unspent_outputs().len(), 2);
}

#[test]
fn coinbase_equal_to_fees_is_accepted() {
    let (mut chain, last) = genesis_chain();
    let block = mined(1, 2000, last, vec![
        tx(vec![], vec![out("Chris", 3)]),
        tx(vec![out("Bob", 7)], vec![out("Carol", 4)]),
    ]);
    assert_eq!(chain.update_with_block(block), Ok(()));
    let utxo = chain.unspent_outputs();
    assert_eq!(utxo.len(), 3);
    assert!(utxo.contains(&out("Alice", 50).hash()));
    assert!(utxo.contains(&out("Carol", 4).hash()));
    assert!(utxo.contains(&out("Chris", 3).hash()));
    assert!(!utxo.contains(&out("Bob", 7).hash()));
}

#[test]
fn mined_block_meets_its_difficulty() {
    let mut b = Block::new(3, 42, vec![0; 32], vec![tx(vec![], vec![out("Zed", 1)])], EASY);
    assert_eq!(b.mine(), Ok(()));
    assert_eq!(b.hash, b.hash());
    assert_eq!(b.hash.len(), 32);
    assert!(check_difficulty(&b.hash, b.difficulty));
    assert_eq!(b.index, 3);
    assert_eq!(b.timestamp, 42);
}

#[test]
fn easiest_difficulty_takes_nonce_zero() {
    let mut b = Block::new(0, 1, vec![0; 32], vec![], u128::MAX);
    assert_eq!(b.mine(), Ok(()));
    assert_eq!(b.nonce, 0);
    assert_eq!(b.hash, b.hash());
}

#[test]
fn mining_error_names_exhaustion() {
    assert_eq!(MiningErr::NonceSpaceExhausted, MiningErr::NonceSpaceExhausted);
}
