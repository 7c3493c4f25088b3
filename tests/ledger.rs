use blockchainlib::hashable::Hashable;
use blockchainlib::transaction::{Output, Transaction};

fn out(addr: &str, value: u64) -> Output {
    Output { to_addr: addr.to_owned(), value }
}

#[test]
fn values_sum_and_saturate() {
    let t = Transaction { inputs: vec![out("a", 3), out("b", 4)], outputs: vec![out("c", 5)] };
    assert_eq!(t.input_value(), 7);
    assert_eq!(t.output_value(), 5);
    let big = Transaction { inputs: vec![out("a", u64::MAX), out("b", 1)], outputs: vec![] };
    assert_eq!(big.input_value(), u64::MAX);
    assert_eq!(big.output_value(), 0);
}

#[test]
fn coinbase_has_no_inputs() {
    assert!(Transaction { inputs: vec![], outputs: vec![out("a", 1)] }.is_coinbase());
    assert!(!Transaction { inputs: vec![out("a", 1)], outputs: vec![] }.is_coinbase());
}

#[test]
fn equal_outputs_share_one_digest() {
    let t = Transaction { inputs: vec![out("a", 1), out("a", 1), out("b", 1)], outputs: vec![] };
    let ins = t.input_hashes();
    assert_eq!(ins.len(), 2);
    assert!(ins.contains(&out("a", 1).hash()));
    assert!(ins.contains(&out("b", 1).hash()));
    assert!(!ins.contains(&out("a", 2).hash()));
    assert!(t.output_hashes().is_empty());
}

#[test]
fn output_digest_differs_from_its_bytes() {
    let o = out("Alice", 50);
    assert_eq!(o.hash().len(), 32);
    assert_ne!(o.hash(), o.bytes());
}
