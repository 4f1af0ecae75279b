use crate::block::{
    Block, MINING_DIFFICULTY_PREFIX, block_digest, default_difficulty, is_mined_block, is_sealed,
    meets_difficulty, now_timestamp, has_solution, solves,
};
use vstd::prelude::*;
use vstd::string::*;

verus! {

/// The `previous_hash` and `data` of a genesis block.
pub open spec fn genesis_text() -> Seq<char> {
    seq!['g', 'e', 'n', 'e', 's', 'i', 's']
}

/// `block` may follow `previous` in a chain whose hashes must start with `difficulty`.
pub open spec fn is_valid_successor(block: Block, previous: Block, difficulty: Seq<char>) -> bool {
    &&& block.id as int == previous.id as int + 1
    &&& meets_difficulty(block.hash@, difficulty)
    &&& block.previous_hash@ == previous.hash@
    &&& block.hash@ == block_digest(
        block.id,
        block.previous_hash@,
        block.timestamp,
        block.data@,
        block.nonce,
    )
}

/// Every block after the first is a valid successor of the one before it.
pub open spec fn is_valid_chain(blocks: Seq<Block>, difficulty: Seq<char>) -> bool {
    forall|i: int|
        1 <= i < blocks.len() ==> #[trigger] is_valid_successor(blocks[i], blocks[i - 1], difficulty)
}

/// The blocks after offering `block` to a chain that holds `blocks`: it is
/// appended when it is a valid successor of the last block, else nothing changes.
pub open spec fn append_if_valid(blocks: Seq<Block>, block: Block, difficulty: Seq<char>) -> Seq<
    Block,
> {
    if blocks.len() > 0 && is_valid_successor(block, blocks.last(), difficulty) {
        blocks.push(block)
    } else {
        blocks
    }
}

/// The blocks after offering each of `candidates` in turn to a chain that holds `blocks`.
pub open spec fn append_all(blocks: Seq<Block>, candidates: Seq<Block>, difficulty: Seq<char>) -> Seq<
    Block,
>
    decreases candidates.len(),
{
    if candidates.len() == 0 {
        blocks
    } else {
        append_if_valid(
            append_all(blocks, candidates.drop_last(), difficulty),
            candidates.last(),
            difficulty,
        )
    }
}

/// `b` is a genesis block mined against `difficulty`.
pub open spec fn is_genesis(b: Block, difficulty: Seq<char>) -> bool {
    &&& b.id == 0
    &&& b.previous_hash@ == genesis_text()
    &&& b.data@ == genesis_text()
    &&& is_sealed(b, difficulty)
}

/// Relies on `uuid::Uuid::new_v4` and the `Display` of `Uuid`: a random
/// identifier in its 36-character hyphenated form.
#[verifier::external_body]
fn fresh_identifier() -> (r: String)
    ensures
        r@.len() == 36,
{
    uuid::Uuid::new_v4().to_string()
}

/// An ordered sequence of blocks that starts with a genesis block.
pub struct Blockchain {
    pub id: String,
    pub blocks: Vec<Block>,
    /// The prefix that every block's hash must start with.
    pub difficulty: String,
}

impl Blockchain {
    /// An empty chain with a fresh identifier, mined against `MINING_DIFFICULTY_PREFIX`.
    pub fn new() -> (r: Blockchain)
        ensures
            r.blocks@.len() == 0,
            r.difficulty@ == default_difficulty(),
            r.id@.len() == 36,
    {
        proof {
            reveal_strlit("000000");
        }
        Blockchain::with_difficulty(String::from_str(MINING_DIFFICULTY_PREFIX))
    }

    /// An empty chain with a fresh identifier whose hashes must start with `difficulty`.
    pub fn with_difficulty(difficulty: String) -> (r: Blockchain)
        ensures
            r.blocks@.len() == 0,
            r.difficulty@ == difficulty@,
            r.id@.len() == 36,
    {
        Blockchain { id: fresh_identifier(), blocks: Vec::new(), difficulty }
    }

    /// Mines a genesis block at the current time and appends it, if the chain is empty.
    /// Returns whether a block was appended.
    pub fn create_genesis(&mut self) -> (r: bool)
        ensures
            r ==> old(self).blocks@.len() == 0 && final(self).blocks@.len() == 1 && is_genesis(
                final(self).blocks@[0],
                old(self).difficulty@,
            ),
            r ==> exists|t: i64|
                is_mined_block(
                    Some(final(self).blocks@[0]),
                    0,
                    genesis_text(),
                    t,
                    genesis_text(),
                    old(self).difficulty@,
                ),
            r ==> final(self).id == old(self).id && final(self).difficulty == old(self).difficulty,
            !r ==> *final(self) == *old(self),
            old(self).blocks@.len() > 0 ==> !r,
            old(self).blocks@.len() == 0 && !r ==> exists|t: i64|
                !has_solution(0, genesis_text(), t, genesis_text(), old(self).difficulty@),
    {
        let timestamp = now_timestamp();
        self.create_genesis_at(timestamp)
    }

    /// Mines a genesis block stamped `timestamp` and appends it, if the chain is empty.
    /// Returns whether a block was appended.
    pub fn create_genesis_at(&mut self, timestamp: i64) -> (r: bool)
        ensures
            r <==> old(self).blocks@.len() == 0 && has_solution(
                0,
                genesis_text(),
                timestamp,
                genesis_text(),
                old(self).difficulty@,
            ),
            r ==> final(self).blocks@.len() == 1 && is_genesis(
                final(self).blocks@[0],
                old(self).difficulty@,
            ) && is_mined_block(
                Some(final(self).blocks@[0]),
                0,
                genesis_text(),
                timestamp,
                genesis_text(),
                old(self).difficulty@,
            ),
            r ==> final(self).id == old(self).id && final(self).difficulty == old(self).difficulty,
            !r ==> *final(self) == *old(self),
    {
        if self.blocks.len() > 0 {
            return false;
        }
        proof {
            reveal_strlit("genesis");
        }
        let mined = Block::mined(
            0,
            String::from_str("genesis"),
            timestamp,
            String::from_str("genesis"),
            self.difficulty.as_str(),
        );
        assert("genesis"@ =~= genesis_text());
        match mined {
            Some(b) => {
                assert(solves(0, genesis_text(), timestamp, genesis_text(), b.nonce, self.difficulty@));
                self.blocks.push(b);
                true
            },
            None => false,
        }
    }

    /// Whether `block` may follow `previous_block` in this chain.
    pub fn is_block_valid(&self, block: &Block, previous_block: &Block) -> (r: bool)
        ensures
            r == is_valid_successor(*block, *previous_block, self.difficulty@),
    {
        previous_block.id < u64::MAX && block.id == previous_block.id + 1 && crate::block::has_prefix(
            block.hash.as_str(),
            self.difficulty.as_str(),
        ) && block.previous_hash == previous_block.hash && Block::hash(
            block.id,
            block.previous_hash.clone(),
            block.timestamp,
            block.data.clone(),
            block.nonce,
        ) == block.hash
    }

    /// Whether every block after the first is valid against the one before it.
    pub fn is_chain_valid(&self) -> (r: bool)
        ensures
            r == is_valid_chain(self.blocks@, self.difficulty@),
    {
        let mut i: usize = 1;
        while i < self.blocks.len()
            invariant
                1 <= i,
                forall|j: int|
                    1 <= j < i && j < self.blocks@.len() ==> #[trigger] is_valid_successor(
                        self.blocks@[j],
                        self.blocks@[j - 1],
                        self.difficulty@,
                    ),
            decreases self.blocks@.len() - i,
        {
            if !self.is_block_valid(&self.blocks[i], &self.blocks[i - 1]) {
                return false;
            }
            i += 1;
        }
        true
    }

    /// Appends `block` if it is a valid successor of the last block.
    /// Returns whether it was appended.
    pub fn try_add_block(&mut self, block: Block) -> (r: bool)
        requires
            old(self).blocks@.len() > 0,
        ensures
            r == is_valid_successor(block, old(self).blocks@.last(), old(self).difficulty@),
            final(self).blocks@ == append_if_valid(old(self).blocks@, block, old(self).difficulty@),
            r ==> final(self).blocks@ == old(self).blocks@.push(block),
            final(self).blocks@.len() == old(self).blocks@.len() + if r {
                1int
            } else {
                0int
            },
            r ==> final(self).id == old(self).id && final(self).difficulty == old(self).difficulty,
            !r ==> *final(self) == *old(self),
            is_valid_chain(old(self).blocks@, old(self).difficulty@) ==> is_valid_chain(
                final(self).blocks@,
                final(self).difficulty@,
            ),
    {
        let last = self.blocks.len() - 1;
        let valid = self.is_block_valid(&block, &self.blocks[last]);
        if valid {
            proof {
                if is_valid_chain(self.blocks@, self.difficulty@) {
                    lemma_valid_append(self.blocks@, block, self.difficulty@);
                }
            }
            self.blocks.push(block);
        }
        valid
    }
}

/// Appending a valid successor of the last block to a valid chain gives a valid chain.
pub proof fn lemma_valid_append(blocks: Seq<Block>, block: Block, difficulty: Seq<char>)
    requires
        is_valid_chain(blocks, difficulty),
        blocks.len() > 0,
        is_valid_successor(block, blocks.last(), difficulty),
    ensures
        is_valid_chain(blocks.push(block), difficulty),
{
    let s = blocks.push(block);
    assert forall|i: int| 1 <= i < s.len() implies #[trigger] is_valid_successor(
        s[i],
        s[i - 1],
        difficulty,
    ) by {
        if i < blocks.len() {
            assert(is_valid_successor(blocks[i], blocks[i - 1], difficulty));
        }
    }
}

/// A block mined with the next index on top of `previous`'s hash is a valid
/// successor of `previous`.
pub proof fn lemma_mined_successor_is_valid(previous: Block, block: Block, difficulty: Seq<char>)
    requires
        block.id as int == previous.id as int + 1,
        block.previous_hash@ == previous.hash@,
        is_sealed(block, difficulty),
    ensures
        is_valid_successor(block, previous, difficulty),
{
}

/// A block whose `previous_hash` is not the hash of `previous` is never a
/// valid successor of it, whatever its proof of work.
pub proof fn lemma_broken_link_rejected(previous: Block, block: Block, difficulty: Seq<char>)
    requires
        block.previous_hash@ != previous.hash@,
    ensures
        !is_valid_successor(block, previous, difficulty),
{
}

/// A chain built from a first block by appending, one at a time, blocks that
/// are each a valid successor of the block before is a valid chain.
pub proof fn lemma_appends_compose(first: Block, rest: Seq<Block>, difficulty: Seq<char>)
    requires
        rest.len() > 0 ==> is_valid_successor(rest[0], first, difficulty),
        forall|i: int|
            1 <= i < rest.len() ==> #[trigger] is_valid_successor(rest[i], rest[i - 1], difficulty),
    ensures
        is_valid_chain(seq![first] + rest, difficulty),
    decreases rest.len(),
{
    if rest.len() == 0 {
        assert(seq![first] + rest =~= seq![first]);
    } else {
        let front = rest.drop_last();
        assert forall|i: int| 1 <= i < front.len() implies #[trigger] is_valid_successor(
            front[i],
            front[i - 1],
            difficulty,
        ) by {
            assert(is_valid_successor(rest[i], rest[i - 1], difficulty));
        }
        lemma_appends_compose(first, front, difficulty);
        let last = rest.len() - 1;
        if last > 0 {
            assert(is_valid_successor(rest[last], rest[last - 1], difficulty));
        }
        assert((seq![first] + front).last() == (if last == 0 {
            first
        } else {
            rest[last - 1]
        }));
        lemma_valid_append(seq![first] + front, rest[last], difficulty);
        assert((seq![first] + front).push(rest[last]) =~= seq![first] + rest);
    }
}

/// Replacing the stored hash of any block of a valid chain of two or more
/// blocks by a different one makes the chain invalid.
pub proof fn lemma_corrupted_hash_invalidates(
    blocks: Seq<Block>,
    i: int,
    corrupted: Block,
    difficulty: Seq<char>,
)
    requires
        is_valid_chain(blocks, difficulty),
        blocks.len() >= 2,
        0 <= i < blocks.len(),
        corrupted.id == blocks[i].id,
        corrupted.previous_hash@ == blocks[i].previous_hash@,
        corrupted.timestamp == blocks[i].timestamp,
        corrupted.data@ == blocks[i].data@,
        corrupted.nonce == blocks[i].nonce,
        corrupted.hash@ != blocks[i].hash@,
    ensures
        !is_valid_chain(blocks.update(i, corrupted), difficulty),
{
    let s = blocks.update(i, corrupted);
    let j: int = if i == 0 {
        1
    } else {
        i
    };
    assert(is_valid_successor(blocks[j], blocks[j - 1], difficulty));
    assert(!is_valid_successor(s[j], s[j - 1], difficulty));
}

/// Offering any blocks in turn to a valid chain leaves it valid.
pub proof fn lemma_append_all_keeps_chain_valid(
    blocks: Seq<Block>,
    candidates: Seq<Block>,
    difficulty: Seq<char>,
)
    requires
        is_valid_chain(blocks, difficulty),
    ensures
        is_valid_chain(append_all(blocks, candidates, difficulty), difficulty),
    decreases candidates.len(),
{
    if candidates.len() > 0 {
        lemma_append_all_keeps_chain_valid(blocks, candidates.drop_last(), difficulty);
        let before = append_all(blocks, candidates.drop_last(), difficulty);
        if before.len() > 0 && is_valid_successor(candidates.last(), before.last(), difficulty) {
            lemma_valid_append(before, candidates.last(), difficulty);
        }
    }
}

/// A chain that starts from a genesis block and is then offered any blocks in
/// turn, each appended only when valid, is a valid chain.
pub proof fn lemma_chain_from_genesis_is_valid(
    genesis: Block,
    candidates: Seq<Block>,
    difficulty: Seq<char>,
)
    ensures
        is_valid_chain(append_all(seq![genesis], candidates, difficulty), difficulty),
{
    lemma_append_all_keeps_chain_valid(seq![genesis], candidates, difficulty);
}

} // verus!
