use sha2::Digest;
use vstd::prelude::*;

verus! {

/// Metadata of a block that takes part in consensus and validation.
#[derive(Clone, Copy, Debug)]
pub struct BlockHeader {
    pub prev_hash: [u8; 32],
    pub merkle_root: [u8; 32],
    pub timestamp: u64,
    pub nonce: u64,
    pub difficulty: u32,
    pub height: u64,
}

/// A header together with the ordered records of the body.
#[derive(Clone, Debug)]
pub struct Block {
    pub header: BlockHeader,
    pub body: Vec<Vec<u8>>,
}

impl View for Block {
    type V = (BlockHeader, Seq<Seq<u8>>);

    open spec fn view(&self) -> (BlockHeader, Seq<Seq<u8>>) {
        (self.header, self.body.deep_view())
    }
}

/// The `n` low-order bytes of `v`, least significant first.
pub open spec fn le_bytes(v: nat, n: nat) -> Seq<u8>
    decreases n,
{
    if n == 0 {
        Seq::empty()
    } else {
        seq![(v % 256) as u8] + le_bytes(v / 256, (n - 1) as nat)
    }
}

/// The canonical byte encoding of a header: the two digests as they are,
/// then timestamp, nonce, difficulty and height in little-endian order.
pub open spec fn header_bytes(h: BlockHeader) -> Seq<u8> {
    h.prev_hash@ + h.merkle_root@ + le_bytes(h.timestamp as nat, 8) + le_bytes(h.nonce as nat, 8)
        + le_bytes(h.difficulty as nat, 4) + le_bytes(h.height as nat, 8)
}

/// The SHA-256 digest of a byte sequence.
pub uninterp spec fn sha256_of(data: Seq<u8>) -> Seq<u8>;

/// The identity of a block: the digest of its encoded header.
pub open spec fn block_hash(h: BlockHeader) -> Seq<u8> {
    sha256_of(header_bytes(h))
}

/// `256` raised to the power `n`.
pub open spec fn pow256(n: nat) -> nat
    decreases n,
{
    if n == 0 {
        1
    } else {
        256 * pow256((n - 1) as nat)
    }
}

proof fn lemma_le_bytes_len(v: nat, n: nat)
    ensures
        le_bytes(v, n).len() == n,
    decreases n,
{
    if n > 0 {
        lemma_le_bytes_len(v / 256, (n - 1) as nat);
    }
}

/// Values below `256^n` have distinct `n`-byte encodings.
proof fn lemma_le_bytes_injective(a: nat, b: nat, n: nat)
    requires
        a < pow256(n),
        b < pow256(n),
        le_bytes(a, n) == le_bytes(b, n),
    ensures
        a == b,
    decreases n,
{
    if n > 0 {
        let m = (n - 1) as nat;
        lemma_le_bytes_len(a / 256, m);
        lemma_le_bytes_len(b / 256, m);
        assert(le_bytes(a, n) == seq![(a % 256) as u8] + le_bytes(a / 256, m));
        assert(le_bytes(b, n) == seq![(b % 256) as u8] + le_bytes(b / 256, m));
        assert(le_bytes(a, n)[0] == (a % 256) as u8);
        assert(le_bytes(b, n)[0] == (b % 256) as u8);
        assert(le_bytes(a, n).subrange(1, n as int) =~= le_bytes(a / 256, m));
        assert(le_bytes(b, n).subrange(1, n as int) =~= le_bytes(b / 256, m));
        let p = pow256(m);
        assert(a / 256 < p) by (nonlinear_arith)
            requires
                a < 256 * p,
        ;
        assert(b / 256 < p) by (nonlinear_arith)
            requires
                b < 256 * p,
        ;
        lemma_le_bytes_injective(a / 256, b / 256, m);
        assert(((a % 256) as u8) == ((b % 256) as u8));
        assert(a % 256 == b % 256);
        assert(a == 256 * (a / 256) + a % 256);
        assert(b == 256 * (b / 256) + b % 256);
    } else {
        assert(pow256(0) == 1);
    }
}

/// Headers that differ in any field have different encodings, so two
/// blocks share an identity only where their headers are equal or SHA-256
/// collides.
pub proof fn lemma_header_bytes_injective(a: BlockHeader, b: BlockHeader)
    requires
        header_bytes(a) == header_bytes(b),
    ensures
        a == b,
{
    reveal_with_fuel(pow256, 9);
    assert(pow256(8) == 0x1_0000_0000_0000_0000);
    assert(pow256(4) == 0x1_0000_0000);
    lemma_le_bytes_len(a.timestamp as nat, 8);
    lemma_le_bytes_len(a.nonce as nat, 8);
    lemma_le_bytes_len(a.difficulty as nat, 4);
    lemma_le_bytes_len(a.height as nat, 8);
    lemma_le_bytes_len(b.timestamp as nat, 8);
    lemma_le_bytes_len(b.nonce as nat, 8);
    lemma_le_bytes_len(b.difficulty as nat, 4);
    lemma_le_bytes_len(b.height as nat, 8);
    let x = header_bytes(a);
    let y = header_bytes(b);
    assert(x.subrange(0, 32) =~= a.prev_hash@);
    assert(y.subrange(0, 32) =~= b.prev_hash@);
    assert(x.subrange(32, 64) =~= a.merkle_root@);
    assert(y.subrange(32, 64) =~= b.merkle_root@);
    assert(x.subrange(64, 72) =~= le_bytes(a.timestamp as nat, 8));
    assert(y.subrange(64, 72) =~= le_bytes(b.timestamp as nat, 8));
    assert(x.subrange(72, 80) =~= le_bytes(a.nonce as nat, 8));
    assert(y.subrange(72, 80) =~= le_bytes(b.nonce as nat, 8));
    assert(x.subrange(80, 84) =~= le_bytes(a.difficulty as nat, 4));
    assert(y.subrange(80, 84) =~= le_bytes(b.difficulty as nat, 4));
    assert(x.subrange(84, 92) =~= le_bytes(a.height as nat, 8));
    assert(y.subrange(84, 92) =~= le_bytes(b.height as nat, 8));
    lemma_le_bytes_injective(a.timestamp as nat, b.timestamp as nat, 8);
    lemma_le_bytes_injective(a.nonce as nat, b.nonce as nat, 8);
    lemma_le_bytes_injective(a.difficulty as nat, b.difficulty as nat, 4);
    lemma_le_bytes_injective(a.height as nat, b.height as nat, 8);
    assert(a.prev_hash =~= b.prev_hash);
    assert(a.merkle_root =~= b.merkle_root);
}

/// A block's identity depends on its header alone: equal headers give equal
/// hashes, whatever the bodies hold.
pub proof fn lemma_hash_deterministic(a: Block, b: Block)
    requires
        a.header == b.header,
    ensures
        block_hash(a.header) == block_hash(b.header),
{
}

/// Relies on bincode::serialize (fixed-width little-endian integers, arrays
/// written element by element without a length): the header's fields in
/// declaration order. It cannot fail on integers and byte arrays.
#[verifier::external_body]
fn encode_header(h: &BlockHeader) -> (r: Vec<u8>)
    ensures
        r@ == header_bytes(*h),
{
    let fields = (h.prev_hash, h.merkle_root, h.timestamp, h.nonce, h.difficulty, h.height);
    bincode::serialize(&fields).expect("serialize block header")
}

/// Relies on sha2::Sha256::digest: the SHA-256 digest of the input, which
/// depends on the input bytes alone.
#[verifier::external_body]
fn sha256(data: &Vec<u8>) -> (r: [u8; 32])
    ensures
        r@ == sha256_of(data@),
{
    sha2::Sha256::digest(data.as_slice()).into()
}

/// Whether two digests hold the same bytes.
pub fn same_digest(a: &[u8; 32], b: &[u8; 32]) -> (r: bool)
    ensures
        r == (a@ == b@),
{
    let mut i: usize = 0;
    while i < 32
        invariant
            i <= 32,
            forall|j: int| 0 <= j < i ==> a@[j] == b@[j],
        decreases 32 - i,
    {
        if a[i] != b[i] {
            return false;
        }
        i = i + 1;
    }
    assert(a@ =~= b@);
    true
}

/// Whether two byte records are equal.
fn same_record(a: &Vec<u8>, b: &Vec<u8>) -> (r: bool)
    ensures
        r == (a@ == b@),
{
    if a.len() != b.len() {
        return false;
    }
    let mut i: usize = 0;
    while i < a.len()
        invariant
            a@.len() == b@.len(),
            i <= a@.len(),
            forall|j: int| 0 <= j < i ==> a@[j] == b@[j],
        decreases a@.len() - i,
    {
        if a[i] != b[i] {
            return false;
        }
        i = i + 1;
    }
    assert(a@ =~= b@);
    true
}

/// Whether two headers agree field by field.
pub fn same_header(a: &BlockHeader, b: &BlockHeader) -> (r: bool)
    ensures
        r == (*a == *b),
{
    let prev = same_digest(&a.prev_hash, &b.prev_hash);
    let merkle = same_digest(&a.merkle_root, &b.merkle_root);
    if prev && merkle {
        assert(a.prev_hash =~= b.prev_hash);
        assert(a.merkle_root =~= b.merkle_root);
    }
    prev && merkle && a.timestamp == b.timestamp && a.nonce == b.nonce && a.difficulty
        == b.difficulty && a.height == b.height
}

impl Block {
    /// Whether two blocks have equal headers and equal bodies, record by record.
    pub fn same_content(&self, other: &Block) -> (r: bool)
        ensures
            r == (self@ == other@),
    {
        if !same_header(&self.header, &other.header) {
            return false;
        }
        if self.body.len() != other.body.len() {
            assert(self.body.deep_view().len() != other.body.deep_view().len());
            return false;
        }
        let mut i: usize = 0;
        while i < self.body.len()
            invariant
                self.body@.len() == other.body@.len(),
                i <= self.body@.len(),
                forall|j: int| 0 <= j < i ==> self.body@[j]@ == other.body@[j]@,
            decreases self.body@.len() - i,
        {
            if !same_record(&self.body[i], &other.body[i]) {
                assert(self.body.deep_view()[i as int] =~= self.body@[i as int]@);
                assert(other.body.deep_view()[i as int] =~= other.body@[i as int]@);
                return false;
            }
            i = i + 1;
        }
        assert(self.body.deep_view() =~= other.body.deep_view());
        true
    }

    /// A copy of the block with equal header and body.
    pub fn duplicate(&self) -> (r: Block)
        ensures
            r@ == self@,
    {
        let mut body: Vec<Vec<u8>> = Vec::new();
        let mut i: usize = 0;
        while i < self.body.len()
            invariant
                i <= self.body@.len(),
                body@.len() == i,
                forall|j: int| 0 <= j < i ==> body@[j]@ == self.body@[j]@,
            decreases self.body@.len() - i,
        {
            let rec = self.body[i].clone();
            assert(rec@ =~= self.body@[i as int]@);
            body.push(rec);
            i = i + 1;
        }
        assert(body.deep_view() =~= self.body.deep_view());
        Block { header: self.header, body }
    }

    /// The block's identity: SHA-256 over the canonical encoding of the header.
    pub fn hash(&self) -> (r: [u8; 32])
        ensures
            r@ == block_hash(self.header),
    {
        let bytes = encode_header(&self.header);
        sha256(&bytes)
    }
}

} // verus!
