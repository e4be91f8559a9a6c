use vstd::prelude::*;

verus! {

/// Identifier of an asset or a contract on the host ledger: a (domain, sequence) pair.
#[derive(Clone, Copy, Debug, PartialEq, Eq, Structural)]
pub struct AlkaneId {
    pub block: u128,
    pub tx: u128,
}

/// `256^n`.
pub open spec fn pow256(n: nat) -> nat
    decreases n,
{
    if n == 0 {
        1
    } else {
        256 * pow256((n - 1) as nat)
    }
}

/// The number that `bytes` spell out, least significant byte first.
pub open spec fn le_value(bytes: Seq<u8>) -> nat
    decreases bytes.len(),
{
    if bytes.len() == 0 {
        0
    } else {
        bytes[0] as nat + 256 * le_value(bytes.drop_first())
    }
}

/// The identifier that the first 32 bytes of `bytes` encode: two 16-byte
/// little-endian integers, `block` first.
pub open spec fn id_of_bytes(bytes: Seq<u8>) -> AlkaneId {
    AlkaneId {
        block: le_value(bytes.subrange(0, 16)) as u128,
        tx: le_value(bytes.subrange(16, 32)) as u128,
    }
}

/// `bytes` is a 32-byte encoding of `id`.
pub open spec fn encodes_id(bytes: Seq<u8>, id: AlkaneId) -> bool {
    &&& bytes.len() == 32
    &&& le_value(bytes.subrange(0, 16)) == id.block
    &&& le_value(bytes.subrange(16, 32)) == id.tx
}

pub proof fn lemma_le_value_bound(bytes: Seq<u8>)
    ensures
        le_value(bytes) < pow256(bytes.len()),
    decreases bytes.len(),
{
    if bytes.len() > 0 {
        lemma_le_value_bound(bytes.drop_first());
        assert(pow256(bytes.len()) == 256 * pow256((bytes.len() - 1) as nat));
    }
}

pub proof fn lemma_le_value_push(bytes: Seq<u8>, b: u8)
    ensures
        le_value(bytes.push(b)) == le_value(bytes) + pow256(bytes.len()) * b,
    decreases bytes.len(),
{
    if bytes.len() == 0 {
        assert(bytes.push(b).drop_first() =~= Seq::<u8>::empty());
        assert(le_value(Seq::<u8>::empty()) == 0);
        assert(pow256(0) == 1);
    } else {
        assert(bytes.push(b).drop_first() =~= bytes.drop_first().push(b));
        lemma_le_value_push(bytes.drop_first(), b);
        assert(pow256(bytes.len()) == 256 * pow256((bytes.len() - 1) as nat));
        assert(256 * (pow256((bytes.len() - 1) as nat) * b) == pow256(bytes.len()) * b)
            by (nonlinear_arith)
            requires
                pow256(bytes.len()) == 256 * pow256((bytes.len() - 1) as nat),
        ;
    }
}

/// The sixteen little-endian bytes of `value`.
fn push_u128_le(out: &mut Vec<u8>, value: u128)
    ensures
        final(out)@.len() == old(out)@.len() + 16,
        final(out)@.subrange(0, old(out)@.len() as int) == old(out)@,
        le_value(final(out)@.subrange(old(out)@.len() as int, old(out)@.len() + 16int)) == value,
{
    let ghost start = out@.len();
    let mut v: u128 = value;
    let mut k: usize = 0;
    proof {
        assert(out@.subrange(start as int, start as int) =~= Seq::<u8>::empty());
        assert(le_value(Seq::<u8>::empty()) == 0);
        assert(pow256(0) == 1);
        lemma_pow256_16();
    }
    while k < 16
        invariant
            k <= 16,
            out@.len() == start + k,
            out@.subrange(0, start as int) == old(out)@,
            le_value(out@.subrange(start as int, start + k)) + pow256(k as nat) * v == value,
            v < pow256((16 - k) as nat),
        decreases 16 - k,
    {
        let ghost prev = out@;
        let b: u8 = (v % 256) as u8;
        out.push(b);
        proof {
            let written = prev.subrange(start as int, start + k);
            assert(out@.subrange(start as int, start + k + 1) =~= written.push(b));
            assert(out@.subrange(0, start as int) =~= prev.subrange(0, start as int));
            lemma_le_value_push(written, b);
            assert(written.len() == k);
            let p = pow256(k as nat);
            assert(pow256((k + 1) as nat) == 256 * p);
            assert(pow256((16 - k) as nat) == 256 * pow256((16 - k - 1) as nat));
            assert(v == 256 * (v / 256) + v % 256);
            assert(p * v == p * (v % 256) + 256 * p * (v / 256)) by (nonlinear_arith)
                requires
                    v == 256 * (v / 256) + v % 256,
            ;
            assert(v / 256 < pow256((16 - k - 1) as nat)) by (nonlinear_arith)
                requires
                    v < 256 * pow256((16 - k - 1) as nat),
                    v == 256 * (v / 256) + v % 256,
                    v % 256 >= 0,
            ;
        }
        v = v / 256;
        k = k + 1;
    }
    proof {
        assert(pow256(0) == 1);
        assert(v == 0);
    }
}

/// Reads the little-endian integer in `bytes[start..start + 16]`.
fn read_u128_le(bytes: &Vec<u8>, start: usize) -> (r: u128)
    requires
        start + 16 <= bytes@.len(),
    ensures
        r == le_value(bytes@.subrange(start as int, start + 16)),
{
    let n = bytes.len();
    let mut acc: u128 = 0;
    let mut i: usize = 16;
    proof {
        assert(bytes@.subrange(start + 16, start + 16) =~= Seq::<u8>::empty());
        lemma_pow256_16();
    }
    while i > 0
        invariant
            i <= 16,
            start + 16 <= n,
            n == bytes@.len(),
            acc == le_value(bytes@.subrange(start + i, start + 16)),
            pow256(16) == 0x1_0000_0000_0000_0000_0000_0000_0000_0000,
        decreases i,
    {
        let ghost tail = bytes@.subrange(start + i, start + 16);
        let ghost longer = bytes@.subrange(start + i - 1, start + 16);
        proof {
            assert(longer.drop_first() =~= tail);
            lemma_le_value_bound(tail);
            lemma_pow256_mono((16 - i) as nat, 15);
            assert(pow256(16) == 256 * pow256(15));
        }
        let b: u8 = bytes[start + (i - 1)];
        acc = acc * 256 + b as u128;
        i = i - 1;
    }
    proof {
        assert(bytes@.subrange(start + 0, start + 16) =~= bytes@.subrange(start as int, start + 16));
    }
    acc
}

proof fn lemma_pow256_16()
    ensures
        pow256(16) == 0x1_0000_0000_0000_0000_0000_0000_0000_0000,
{
    reveal_with_fuel(pow256, 17);
}

proof fn lemma_pow256_mono(a: nat, b: nat)
    requires
        a <= b,
    ensures
        pow256(a) <= pow256(b),
    decreases b,
{
    if a < b {
        lemma_pow256_mono(a, (b - 1) as nat);
    }
}

impl AlkaneId {
    pub fn new(block: u128, tx: u128) -> (r: AlkaneId)
        ensures
            r == (AlkaneId { block, tx }),
    {
        AlkaneId { block, tx }
    }

    /// The 32-byte form of the identifier: `block` then `tx`, each as 16
    /// little-endian bytes.
    pub fn to_bytes(&self) -> (r: Vec<u8>)
        ensures
            encodes_id(r@, *self),
    {
        let mut out: Vec<u8> = Vec::new();
        push_u128_le(&mut out, self.block);
        let ghost first = out@;
        push_u128_le(&mut out, self.tx);
        proof {
            assert(out@.subrange(0, 16) =~= first.subrange(0, 16));
        }
        out
    }

    /// Reads an identifier from the first 32 bytes of `bytes`; `None` when there
    /// are fewer than 32.
    pub fn from_bytes(bytes: &Vec<u8>) -> (r: Option<AlkaneId>)
        ensures
            bytes@.len() < 32 ==> r.is_none(),
            bytes@.len() >= 32 ==> r == Some(id_of_bytes(bytes@)),
    {
        if bytes.len() < 32 {
            return None;
        }
        let block = read_u128_le(bytes, 0);
        let tx = read_u128_le(bytes, 16);
        Some(AlkaneId { block, tx })
    }
}

/// Reading back the encoding of an identifier gives the identifier.
pub proof fn lemma_id_bytes_round_trip(bytes: Seq<u8>, id: AlkaneId)
    requires
        encodes_id(bytes, id),
    ensures
        id_of_bytes(bytes) == id,
{
}

} // verus!
