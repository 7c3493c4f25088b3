use vstd::prelude::*;
use vstd::utf8::encode_utf8;
use crate::digest_set::DigestSet;
use crate::encoding::{be_bytes, u64_bytes};
use crate::hashable::{sha256_of, Hashable};

verus! {

/// A value sent to a recipient.
#[derive(Clone)]
pub struct Output {
    pub to_addr: crate::Address,
    pub value: u64,
}

/// Moves value from spent outputs to new ones; a coinbase has no inputs.
pub struct Transaction {
    pub inputs: Vec<Output>,
    pub outputs: Vec<Output>,
}

/// The address's UTF-8 bytes, then the value in eight big-endian bytes.
pub open spec fn output_bytes(o: Output) -> Seq<u8> {
    encode_utf8(o.to_addr@) + be_bytes(o.value as nat, 8)
}

/// The encodings of `s`, one after another.
pub open spec fn outputs_bytes(s: Seq<Output>) -> Seq<u8>
    decreases s.len(),
{
    if s.len() == 0 {
        Seq::empty()
    } else {
        outputs_bytes(s.drop_last()) + output_bytes(s.last())
    }
}

/// The inputs' encodings, then the outputs'.
pub open spec fn transaction_bytes(t: Transaction) -> Seq<u8> {
    outputs_bytes(t.inputs@) + outputs_bytes(t.outputs@)
}

/// The digest that names an output in the unspent set.
pub open spec fn output_hash(o: Output) -> Seq<u8> {
    sha256_of(output_bytes(o))
}

/// The digests of the outputs in `s`.
pub open spec fn hash_set(s: Seq<Output>) -> Set<Seq<u8>> {
    Set::new(|h: Seq<u8>| exists|i: int| 0 <= i < s.len() && output_hash(s[i]) == h)
}

/// The exact sum of the values in `s`.
pub open spec fn value_sum(s: Seq<Output>) -> nat
    decreases s.len(),
{
    if s.len() == 0 {
        0
    } else {
        value_sum(s.drop_last()) + s.last().value as nat
    }
}

/// `n`, or `u64::MAX` where `n` is larger.
pub open spec fn saturate(n: nat) -> nat {
    if n > u64::MAX {
        u64::MAX as nat
    } else {
        n
    }
}

impl Hashable for Output {
    open spec fn encoding(&self) -> Seq<u8> {
        output_bytes(*self)
    }

    fn bytes(&self) -> (r: Vec<u8>) {
        let mut r = vstd::slice::slice_to_vec(self.to_addr.as_str().as_bytes());
        let mut v = u64_bytes(self.value);
        r.append(&mut v);
        r
    }
}

/// The encodings of `s`, one after another.
fn concat_outputs(s: &Vec<Output>) -> (r: Vec<u8>)
    ensures
        r@ == outputs_bytes(s@),
{
    let mut r: Vec<u8> = Vec::new();
    let mut i: usize = 0;
    while i < s.len()
        invariant
            i <= s@.len(),
            r@ == outputs_bytes(s@.subrange(0, i as int)),
        decreases s@.len() - i,
    {
        let mut b = s[i].bytes();
        r.append(&mut b);
        i = i + 1;
        assert(s@.subrange(0, i as int).drop_last() =~= s@.subrange(0, i - 1));
    }
    assert(s@.subrange(0, s@.len() as int) =~= s@);
    r
}

/// The sum of the values in `s`, saturating at `u64::MAX`.
fn saturating_sum(s: &Vec<Output>) -> (r: u64)
    ensures
        r as nat == saturate(value_sum(s@)),
{
    let mut acc: u64 = 0;
    let mut i: usize = 0;
    while i < s.len()
        invariant
            i <= s@.len(),
            acc as nat == saturate(value_sum(s@.subrange(0, i as int))),
        decreases s@.len() - i,
    {
        acc = acc.saturating_add(s[i].value);
        i = i + 1;
        assert(s@.subrange(0, i as int).drop_last() =~= s@.subrange(0, i - 1));
    }
    assert(s@.subrange(0, s@.len() as int) =~= s@);
    acc
}

/// The digests of the outputs in `s`.
fn hashes_of(s: &Vec<Output>) -> (r: DigestSet)
    ensures
        r.wf(),
        r@ == hash_set(s@),
{
    let mut r = DigestSet::new();
    let mut i: usize = 0;
    while i < s.len()
        invariant
            i <= s@.len(),
            r.wf(),
            r@ == hash_set(s@.subrange(0, i as int)),
        decreases s@.len() - i,
    {
        let h = s[i].hash();
        r.insert(h);
        i = i + 1;
        assert(r@ =~= hash_set(s@.subrange(0, i as int))) by {
            let p = s@.subrange(0, i as int);
            assert(p[i - 1] == s@[i - 1]);
            let q = s@.subrange(0, i - 1);
            assert forall|x: Seq<u8>| hash_set(q).contains(x) implies hash_set(p).contains(x) by {
                let k = choose|k: int| 0 <= k < q.len() && output_hash(#[trigger] q[k]) == x;
                assert(p[k] == q[k]);
            }
            assert forall|x: Seq<u8>| hash_set(p).contains(x) && x != output_hash(s@[i - 1]) implies hash_set(q).contains(x) by {
                let k = choose|k: int| 0 <= k < p.len() && output_hash(#[trigger] p[k]) == x;
                assert(p[k] == q[k]);
            }
        }
    }
    assert(s@.subrange(0, s@.len() as int) =~= s@);
    r
}

impl Transaction {
    /// The sum of the inputs' values, saturating at `u64::MAX`.
    pub fn input_value(&self) -> (r: u64)
        ensures
            r as nat == saturate(value_sum(self.inputs@)),
    {
        saturating_sum(&self.inputs)
    }

    /// The sum of the outputs' values, saturating at `u64::MAX`.
    pub fn output_value(&self) -> (r: u64)
        ensures
            r as nat == saturate(value_sum(self.outputs@)),
    {
        saturating_sum(&self.outputs)
    }

    /// The digests of the inputs.
    pub fn input_hashes(&self) -> (r: DigestSet)
        ensures
            r.wf(),
            r@ == hash_set(self.inputs@),
    {
        hashes_of(&self.inputs)
    }

    /// The digests of the outputs.
    pub fn output_hashes(&self) -> (r: DigestSet)
        ensures
            r.wf(),
            r@ == hash_set(self.outputs@),
    {
        hashes_of(&self.outputs)
    }

    /// True iff the transaction has no inputs.
    pub fn is_coinbase(&self) -> (r: bool)
        ensures
            r == (self.inputs@.len() == 0),
    {
        self.inputs.len() == 0
    }
}

impl Hashable for Transaction {
    open spec fn encoding(&self) -> Seq<u8> {
        transaction_bytes(*self)
    }

    fn bytes(&self) -> (r: Vec<u8>) {
        let mut r = concat_outputs(&self.inputs);
        let mut o = concat_outputs(&self.outputs);
        r.append(&mut o);
        r
    }
}

} // verus!
