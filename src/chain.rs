use crate::block::{block_hash, same_digest, Block, BlockHeader};
use crate::storage::{Storage, StorageError};
use vstd::prelude::*;

verus! {

/// Why a block was not applied to the chain.
#[derive(Clone, Copy, Debug, PartialEq, Eq, Structural)]
pub enum ChainError {
    /// The block does not extend the current head.
    Validation,
    /// The store refused the block.
    Storage(StorageError),
}

/// Bit `i` of a digest, counting from the most significant bit of its first byte.
pub open spec fn digest_bit(h: Seq<u8>, i: int) -> u8 {
    (h[i / 8] >> ((7 - i % 8) as u8)) & 1u8
}

/// The proof-of-work target: a difficulty of `d` asks for `d` leading zero
/// bits in the block's hash.
pub open spec fn meets_difficulty(h: Seq<u8>, d: u32) -> bool {
    &&& d <= 8 * h.len()
    &&& forall|i: int| 0 <= i < d ==> digest_bit(h, i) == 0
}

/// Whether the digest has at least `difficulty` leading zero bits.
pub fn check_difficulty(hash: &[u8; 32], difficulty: u32) -> (r: bool)
    ensures
        r == meets_difficulty(hash@, difficulty),
{
    if difficulty > 256 {
        return false;
    }
    let mut i: u32 = 0;
    while i < difficulty
        invariant
            difficulty <= 256,
            i <= difficulty,
            hash@.len() == 32,
            forall|j: int| 0 <= j < i ==> digest_bit(hash@, j) == 0,
        decreases difficulty - i,
    {
        let byte = hash[(i / 8) as usize];
        let shift = (7 - i % 8) as u8;
        if (byte >> shift) & 1u8 != 0 {
            assert(digest_bit(hash@, i as int) != 0);
            return false;
        }
        i = i + 1;
    }
    true
}

/// The block stored under `k` has height `n`, and following parent links
/// from it reaches a stored block of height 0.
pub open spec fn linked(
    store: Map<Seq<u8>, (BlockHeader, Seq<Seq<u8>>)>,
    k: Seq<u8>,
    n: nat,
) -> bool
    decreases n,
{
    &&& store.contains_key(k)
    &&& store[k].0.height == n
    &&& (n > 0 ==> linked(store, store[k].0.prev_hash@, (n - 1) as nat))
}

/// A chain that is linked in a store stays linked in any store that keeps
/// the first one's records.
proof fn lemma_linked_grows(
    store: Map<Seq<u8>, (BlockHeader, Seq<Seq<u8>>)>,
    bigger: Map<Seq<u8>, (BlockHeader, Seq<Seq<u8>>)>,
    k: Seq<u8>,
    n: nat,
)
    requires
        linked(store, k, n),
        store.submap_of(bigger),
    ensures
        linked(bigger, k, n),
    decreases n,
{
    assert(bigger.contains_key(k) && bigger[k] == store[k]);
    if n > 0 {
        lemma_linked_grows(store, bigger, store[k].0.prev_hash@, (n - 1) as nat);
    }
}

/// The head of the chain and the store that holds its blocks.
pub struct ChainState {
    head: Option<([u8; 32], u64)>,
    head_timestamp: u64,
    storage: Storage,
}

impl ChainState {
    /// The current head: hash and height of the tip, `None` before genesis.
    pub closed spec fn spec_head(&self) -> Option<([u8; 32], u64)> {
        self.head
    }

    /// The timestamp of the head block.
    pub closed spec fn spec_head_timestamp(&self) -> u64 {
        self.head_timestamp
    }

    /// The blocks in the store, by hash.
    pub closed spec fn spec_store(&self) -> Map<Seq<u8>, (BlockHeader, Seq<Seq<u8>>)> {
        self.storage@
    }

    /// The head's block is stored under the head's hash, has the head's height
    /// and timestamp, and is reachable from a genesis block by parent links.
    pub closed spec fn wf(&self) -> bool {
        &&& self.storage.wf()
        &&& match self.head {
            None => true,
            Some((h, n)) => {
                &&& linked(self.storage@, h@, n as nat)
                &&& self.storage@[h@].0.timestamp == self.head_timestamp
            },
        }
    }

    /// Whether a block with header `b` may extend the chain: before genesis
    /// only a block of height 0; after it, a child of the head one higher and
    /// later than the head. Either way the hash must meet the block's
    /// difficulty.
    pub open spec fn accepts(&self, b: BlockHeader) -> bool {
        &&& meets_difficulty(block_hash(b), b.difficulty)
        &&& match self.spec_head() {
            None => b.height == 0,
            Some((h, n)) => {
                &&& b.prev_hash@ == h@
                &&& b.height == n + 1
                &&& b.timestamp > self.spec_head_timestamp()
            },
        }
    }

    /// A chain with no blocks yet, over `storage`.
    pub fn new(storage: Storage) -> (r: ChainState)
        requires
            storage.wf(),
        ensures
            r.wf(),
            r.spec_head() is None,
            r.spec_store() == storage@,
    {
        ChainState { head: None, head_timestamp: 0, storage }
    }

    /// Whether `block` may extend the chain now.
    pub fn validate_block(&self, block: &Block) -> (r: bool)
        ensures
            r == self.accepts(block.header),
    {
        let hash = block.hash();
        if !check_difficulty(&hash, block.header.difficulty) {
            return false;
        }
        match self.head {
            None => block.header.height == 0,
            Some((h, n)) => {
                same_digest(&block.header.prev_hash, &h) && n < u64::MAX
                    && block.header.height == n + 1 && block.header.timestamp
                    > self.head_timestamp
            },
        }
    }

    /// Validates `block`, stores it under its hash and makes it the head. A
    /// block that is not accepted, or that the store refuses, leaves the chain
    /// as it was.
    pub fn insert_block(&mut self, block: Block) -> (r: Result<(), ChainError>)
        requires
            old(self).wf(),
        ensures
            final(self).wf(),
            r == Err::<(), ChainError>(ChainError::Validation) <==> !old(self).accepts(block.header),
            r is Ok <==> old(self).accepts(block.header) && (!old(self).spec_store().contains_key(
                block_hash(block.header),
            ) || old(self).spec_store()[block_hash(block.header)] == block@),
            r is Err ==> final(self).spec_head() == old(self).spec_head()
                && final(self).spec_head_timestamp() == old(self).spec_head_timestamp()
                && final(self).spec_store() == old(self).spec_store(),
            r is Ok ==> Self::extended(*old(self), block@, *final(self)),
    {
        if !self.validate_block(&block) {
            return Err(ChainError::Validation);
        }
        let hash = block.hash();
        let height = block.header.height;
        let timestamp = block.header.timestamp;
        let ghost old_store = self.storage@;
        let ghost b = block@;
        match self.storage.put_block(&hash, block) {
            Ok(()) => {
                proof {
                    assert(old_store.submap_of(self.storage@));
                    if let Some((h, n)) = self.head {
                        lemma_linked_grows(old_store, self.storage@, h@, n as nat);
                    }
                    if height > 0 {
                        assert(b.0.prev_hash@ == self.head.unwrap().0@);
                    }
                }
                self.head = Some((hash, height));
                self.head_timestamp = timestamp;
                Ok(())
            },
            Err(e) => Err(ChainError::Storage(e)),
        }
    }

    /// `after` is `before` with block `b` stored under its hash and made the head.
    pub open spec fn extended(
        before: ChainState,
        b: (BlockHeader, Seq<Seq<u8>>),
        after: ChainState,
    ) -> bool {
        &&& after.spec_head() matches Some((h, n)) && h@ == block_hash(b.0) && n == b.0.height
        &&& after.spec_head_timestamp() == b.0.timestamp
        &&& after.spec_store() == before.spec_store().insert(block_hash(b.0), b)
    }

    /// The current head.
    pub fn get_head(&self) -> (r: Option<([u8; 32], u64)>)
        ensures
            r == self.spec_head(),
    {
        self.head
    }

    /// The stored block with hash `hash`, or `None` where there is none.
    pub fn get_block(&self, hash: &[u8; 32]) -> (r: Result<Option<Block>, ChainError>)
        requires
            self.wf(),
        ensures
            match r {
                Ok(Some(b)) => self.spec_store().contains_key(hash@) && b@ == self.spec_store()[hash@],
                Ok(None) => !self.spec_store().contains_key(hash@),
                Err(_) => false,
            },
    {
        match self.storage.get_block(hash) {
            Ok(found) => Ok(found),
            Err(e) => Err(ChainError::Storage(e)),
        }
    }

    /// The store behind the chain.
    pub fn storage(&self) -> (r: &Storage)
        ensures
            r@ == self.spec_store(),
    {
        &self.storage
    }
}

/// Before genesis, no block of non-zero height is accepted.
pub proof fn lemma_genesis_gate(s: ChainState, b: BlockHeader)
    requires
        s.spec_head() is None,
        b.height != 0,
    ensures
        !s.accepts(b),
{
}

/// Once there is a head, a block whose parent is not the head, or whose
/// height is not one above the head's, is not accepted.
pub proof fn lemma_chain_linkage(s: ChainState, b: BlockHeader)
    requires
        s.spec_head() is Some,
        b.prev_hash@ != s.spec_head().unwrap().0@ || b.height != s.spec_head().unwrap().1 + 1,
    ensures
        !s.accepts(b),
{
}

/// After a block has been inserted, looking up its hash finds that block.
pub proof fn lemma_lookup_after_insert(
    before: ChainState,
    b: (BlockHeader, Seq<Seq<u8>>),
    after: ChainState,
)
    requires
        ChainState::extended(before, b, after),
    ensures
        after.spec_store().contains_key(block_hash(b.0)),
        after.spec_store()[block_hash(b.0)] == b,
{
}

} // verus!
