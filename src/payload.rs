use rand::Rng;
use vstd::prelude::*;

verus! {

/// The `n` low bytes of `x`, least significant first.
pub open spec fn le_bytes(x: nat, n: nat) -> Seq<u8>
    decreases n,
{
    if n == 0 {
        Seq::empty()
    } else {
        seq![(x % 256) as u8] + le_bytes(x / 256, (n - 1) as nat)
    }
}

/// The sixteen bytes of `x`, least significant first.
pub fn u128_le_bytes(x: u128) -> (r: Vec<u8>)
    ensures
        r@ == le_bytes(x as nat, 16),
{
    let mut out: Vec<u8> = Vec::new();
    let mut v: u128 = x;
    let mut i: usize = 0;
    while i < 16
        invariant
            i <= 16,
            out@ + le_bytes(v as nat, (16 - i) as nat) == le_bytes(x as nat, 16),
        decreases 16 - i,
    {
        let b = (v % 256) as u8;
        let ghost rest = le_bytes((v / 256) as nat, (16 - i - 1) as nat);
        assert(le_bytes(v as nat, (16 - i) as nat) == seq![b] + rest);
        assert(out@.push(b) + rest =~= out@ + (seq![b] + rest));
        out.push(b);
        v = v / 256;
        i = i + 1;
    }
    assert(le_bytes(v as nat, 0) =~= Seq::<u8>::empty());
    assert(out@ + Seq::<u8>::empty() =~= out@);
    out
}

/// Relies on rand's thread_rng and Rng::gen: any value of the type.
#[verifier::external_body]
fn random_u128() -> (r: u128) {
    rand::thread_rng().gen::<u128>()
}

/// Source of random digests, standing in for a real mempool in benchmarks.
pub struct Mempool;

impl Mempool {
    /// A digest of two random 128-bit numbers, least significant byte first.
    pub fn get_payload(&self) -> (r: Vec<u8>)
        ensures
            r@.len() == 32,
            exists|a: u128, b: u128| r@ == le_bytes(a as nat, 16) + le_bytes(b as nat, 16),
    {
        let a = random_u128();
        let b = random_u128();
        digest_from(a, b)
    }
}

/// The digest made of the bytes of `a`, then those of `b`, each least
/// significant first.
pub fn digest_from(a: u128, b: u128) -> (r: Vec<u8>)
    ensures
        r@ == le_bytes(a as nat, 16) + le_bytes(b as nat, 16),
        r@.len() == 32,
{
    let mut out = u128_le_bytes(a);
    let mut second = u128_le_bytes(b);
    out.append(&mut second);
    proof {
        lemma_le_bytes_len(a as nat, 16);
        lemma_le_bytes_len(b as nat, 16);
    }
    out
}

proof fn lemma_le_bytes_len(x: nat, n: nat)
    ensures
        le_bytes(x, n).len() == n,
    decreases n,
{
    if n > 0 {
        lemma_le_bytes_len(x / 256, (n - 1) as nat);
    }
}

} // verus!
