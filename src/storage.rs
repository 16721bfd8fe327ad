use crate::block::{same_digest, Block, BlockHeader};
use vstd::prelude::*;

verus! {

/// Why the store refused a write.
#[derive(Clone, Copy, Debug, PartialEq, Eq, Structural)]
pub enum StorageError {
    /// A different block is already stored under the same hash.
    Conflict,
}

/// A content-addressed block store: each record is kept under the hash it was
/// put with, and a record once written is never replaced.
pub struct Storage {
    keys: Vec<[u8; 32]>,
    blocks: Vec<Block>,
    contents: Ghost<Map<Seq<u8>, (BlockHeader, Seq<Seq<u8>>)>>,
}

impl View for Storage {
    type V = Map<Seq<u8>, (BlockHeader, Seq<Seq<u8>>)>;

    closed spec fn view(&self) -> Map<Seq<u8>, (BlockHeader, Seq<Seq<u8>>)> {
        self.contents@
    }
}

impl Storage {
    /// The records agree with the map that the store stands for, one record
    /// per key.
    pub closed spec fn wf(&self) -> bool {
        &&& self.keys@.len() == self.blocks@.len()
        &&& forall|i: int|
            0 <= i < self.keys@.len() ==> #[trigger] self.contents@.contains_key(self.keys@[i]@)
                && self.contents@[self.keys@[i]@] == self.blocks@[i]@
        &&& forall|k: Seq<u8>|
            #[trigger] self.contents@.contains_key(k) ==> exists|i: int|
                0 <= i < self.keys@.len() && #[trigger] self.keys@[i]@ == k
    }

    /// An empty store.
    pub fn new() -> (r: Storage)
        ensures
            r.wf(),
            r@ == Map::<Seq<u8>, (BlockHeader, Seq<Seq<u8>>)>::empty(),
    {
        Storage { keys: Vec::new(), blocks: Vec::new(), contents: Ghost(Map::empty()) }
    }

    /// The position of the record kept under `hash`, if there is one.
    fn find(&self, hash: &[u8; 32]) -> (r: Option<usize>)
        requires
            self.wf(),
        ensures
            match r {
                Some(i) => i < self.keys@.len() && self.keys@[i as int]@ == hash@,
                None => !self@.contains_key(hash@),
            },
    {
        let mut i: usize = 0;
        while i < self.keys.len()
            invariant
                self.wf(),
                i <= self.keys@.len(),
                forall|j: int| 0 <= j < i ==> self.keys@[j]@ != hash@,
            decreases self.keys@.len() - i,
        {
            if same_digest(&self.keys[i], hash) {
                return Some(i);
            }
            i = i + 1;
        }
        None
    }

    /// Stores `block` under `hash`. Storing a block equal to the one already
    /// kept under that hash changes nothing and succeeds; a different block
    /// under a hash in use is refused with `Conflict`.
    pub fn put_block(&mut self, hash: &[u8; 32], block: Block) -> (r: Result<(), StorageError>)
        requires
            old(self).wf(),
        ensures
            final(self).wf(),
            r is Ok <==> (!old(self)@.contains_key(hash@) || old(self)@[hash@] == block@),
            r is Ok ==> final(self)@ == old(self)@.insert(hash@, block@),
            r is Err ==> r == Err::<(), StorageError>(StorageError::Conflict) && final(self)@
                == old(self)@,
    {
        match self.find(hash) {
            Some(i) => {
                assert(self.contents@.contains_key(self.keys@[i as int]@));
                if self.blocks[i].same_content(&block) {
                    assert(self@.insert(hash@, block@) =~= self@);
                    Ok(())
                } else {
                    Err(StorageError::Conflict)
                }
            },
            None => {
                let ghost k = hash@;
                let ghost v = block@;
                self.keys.push(*hash);
                self.blocks.push(block);
                self.contents = Ghost(self.contents@.insert(k, v));
                assert forall|k2: Seq<u8>| #[trigger]
                    self.contents@.contains_key(k2) implies exists|i: int|
                    0 <= i < self.keys@.len() && #[trigger] self.keys@[i]@ == k2 by {
                    if k2 == k {
                        assert(self.keys@[self.keys@.len() - 1]@ == k2);
                    } else {
                        assert(old(self).contents@.contains_key(k2));
                        let j = choose|j: int|
                            0 <= j < old(self).keys@.len() && #[trigger] old(self).keys@[j]@ == k2;
                        assert(self.keys@[j]@ == k2);
                    }
                }
                Ok(())
            },
        }
    }

    /// The block kept under `hash`, or `None` where the store has none.
    pub fn get_block(&self, hash: &[u8; 32]) -> (r: Result<Option<Block>, StorageError>)
        requires
            self.wf(),
        ensures
            match r {
                Ok(Some(b)) => self@.contains_key(hash@) && b@ == self@[hash@],
                Ok(None) => !self@.contains_key(hash@),
                Err(_) => false,
            },
    {
        match self.find(hash) {
            Some(i) => {
                assert(self.contents@.contains_key(self.keys@[i as int]@));
                Ok(Some(self.blocks[i].duplicate()))
            },
            None => Ok(None),
        }
    }
}

} // verus!
