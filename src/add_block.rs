use crate::block::{
    Block, block_digest, has_solution, is_lower_hex_digit, is_mined_block, solves,
};
use crate::blockchain::{Blockchain, is_valid_successor};
use vstd::prelude::*;

verus! {

/// A request to mine a block on top of a chain and append it.
pub struct AddBlockCommand {
    pub blockchain_id: String,
    pub previous_hash: String,
    /// Opaque transaction payloads carried with the request.
    pub transactions: Vec<String>,
    pub data: String,
}

impl AddBlockCommand {
    /// Mines block number 1 at the current time with this command's
    /// `previous_hash` and `data`, against the chain's difficulty, and offers it
    /// to the chain. Returns whether the chain took it.
    pub fn execute(&self, blockchain: &mut Blockchain) -> (r: bool)
        requires
            old(blockchain).blocks@.len() > 0,
        ensures
            r ==> exists|b: Block, t: i64|
                #[trigger] is_mined_block(
                    Some(b),
                    1,
                    self.previous_hash@,
                    t,
                    self.data@,
                    old(blockchain).difficulty@,
                ) && is_valid_successor(b, old(blockchain).blocks@.last(), old(blockchain).difficulty@)
                    && final(blockchain).blocks@ == old(blockchain).blocks@.push(b),
            r ==> final(blockchain).id == old(blockchain).id && final(blockchain).difficulty
                == old(blockchain).difficulty,
            !r ==> *final(blockchain) == *old(blockchain),
            !r ==> old(blockchain).blocks@.last().id != 0 || self.previous_hash@ != old(
                blockchain,
            ).blocks@.last().hash@ || exists|t: i64|
                !has_solution(1, self.previous_hash@, t, self.data@, old(blockchain).difficulty@),
    {
        let timestamp = crate::block::now_timestamp();
        self.execute_at(blockchain, timestamp)
    }

    /// Mines block number 1 stamped `timestamp` with this command's
    /// `previous_hash` and `data`, against the chain's difficulty, and offers it
    /// to the chain. Returns whether the chain took it.
    pub fn execute_at(&self, blockchain: &mut Blockchain, timestamp: i64) -> (r: bool)
        requires
            old(blockchain).blocks@.len() > 0,
        ensures
            r <==> exists|b: Block|
                #[trigger] is_mined_block(
                    Some(b),
                    1,
                    self.previous_hash@,
                    timestamp,
                    self.data@,
                    old(blockchain).difficulty@,
                ) && is_valid_successor(b, old(blockchain).blocks@.last(), old(blockchain).difficulty@),
            r ==> exists|b: Block|
                #[trigger] is_mined_block(
                    Some(b),
                    1,
                    self.previous_hash@,
                    timestamp,
                    self.data@,
                    old(blockchain).difficulty@,
                ) && final(blockchain).blocks@ == old(blockchain).blocks@.push(b),
            r ==> final(blockchain).id == old(blockchain).id && final(blockchain).difficulty
                == old(blockchain).difficulty,
            !r ==> *final(blockchain) == *old(blockchain),
            !r ==> old(blockchain).blocks@.last().id != 0 || self.previous_hash@ != old(
                blockchain,
            ).blocks@.last().hash@ || !has_solution(
                1,
                self.previous_hash@,
                timestamp,
                self.data@,
                old(blockchain).difficulty@,
            ),
    {
        let ghost d = blockchain.difficulty@;
        let ghost tail = blockchain.blocks@.last();
        let mined = Block::mined(
            1,
            self.previous_hash.clone(),
            timestamp,
            self.data.clone(),
            blockchain.difficulty.as_str(),
        );
        match mined {
            Some(block) => {
                let ghost m = block;
                proof {
                    assert forall|b: Block|
                        #[trigger] is_mined_block(
                            Some(b),
                            1,
                            self.previous_hash@,
                            timestamp,
                            self.data@,
                            d,
                        ) implies b.nonce == m.nonce by {
                        assert(solves(1, self.previous_hash@, timestamp, self.data@, b.nonce, d));
                        assert(solves(1, self.previous_hash@, timestamp, self.data@, m.nonce, d));
                    }
                }
                let r = blockchain.try_add_block(block);
                proof {
                    assert(is_mined_block(
                        Some(m),
                        1,
                        self.previous_hash@,
                        timestamp,
                        self.data@,
                        d,
                    ));
                }
                r
            },
            None => {
                proof {
                    assert forall|b: Block|
                        #[trigger] is_mined_block(
                            Some(b),
                            1,
                            self.previous_hash@,
                            timestamp,
                            self.data@,
                            d,
                        ) implies false by {
                        assert(solves(1, self.previous_hash@, timestamp, self.data@, b.nonce, d));
                    }
                }
                false
            },
        }
    }

    /// The hash of a block with index 0, timestamp 0 and nonce 0 that carries
    /// this command's `previous_hash` and `data`.
    pub fn generate_block_hash(&self) -> (r: String)
        ensures
            r@ == block_digest(0, self.previous_hash@, 0, self.data@, 0),
            r@.len() == 64,
            forall|i: int| 0 <= i < r@.len() ==> is_lower_hex_digit(#[trigger] r@[i]),
    {
        Block::hash(0, self.previous_hash.clone(), 0, self.data.clone(), 0)
    }
}

} // verus!
