use blockchain::add_block::AddBlockCommand;
use blockchain::block::Block;
use blockchain::blockchain::Blockchain;

const GENESIS_HASH: &str = "0a837e56f311d5f4eb6eb08a2d7678796e80a9d00221c13f10341a515324b32e";

fn command(previous_hash: &str, data: &str) -> AddBlockCommand {
    AddBlockCommand {
        blockchain_id: "test".to_string(),
        previous_hash: previous_hash.to_string(),
        transactions: vec![],
        data: data.to_string(),
    }
}

#[test]
fn test_add_block_command_generate_block_hash() {
    let command = AddBlockCommand {
        blockchain_id: "test".to_string(),
        previous_hash: "previous".to_string(),
        transactions: vec![],
        data: "Block #1".to_string(),
    };

    let block_hash = command.generate_block_hash();

    assert_eq!(block_hash, "7322b39a67439447ef0468d43124e92dde9859133b147df08aa438541bd0a999");
}

#[test]
fn test_add_block_command_execute() {
    let mut blockchain = Blockchain::with_difficulty("0".to_string());
    blockchain.create_genesis();
    let command = AddBlockCommand {
        blockchain_id: blockchain.id.clone(),
        previous_hash: blockchain.blocks.last().unwrap().hash.clone(),
        transactions: vec![],
        data: "Block #1".to_string(),
    };

    command.execute(&mut blockchain);

    assert_eq!(blockchain.blocks.len(), 2);
    assert_eq!(blockchain.blocks[1].data, "Block #1");
}

#[test]
fn generate_block_hash_hashes_zeroed_fields() {
    let block_hash = command("previous", "Block #1").generate_block_hash();
    assert_eq!(block_hash, "7322b39a67439447ef0468d43124e92dde9859133b147df08aa438541bd0a999");
    assert_eq!(block_hash, Block::hash(0, "previous".to_string(), 0, "Block #1".to_string(), 0));
}

#[test]
fn execute_at_appends_block_one() {
    let mut blockchain = Blockchain::with_difficulty("0".to_string());
    assert!(blockchain.create_genesis_at(1700000000));
    assert!(command(GENESIS_HASH, "Block #1").execute_at(&mut blockchain, 1700000001));
    assert_eq!(blockchain.blocks.len(), 2);
    let block = &blockchain.blocks[1];
    assert_eq!(block.id, 1);
    assert_eq!(block.nonce, 6);
    assert_eq!(block.hash, "0bdd7247c0152ee0f4888a13f16c79d3a04d414630a50d3c8b8d4b3071ed72f3");
    assert!(blockchain.is_chain_valid());
}

#[test]
fn execute_rejects_stale_previous_hash() {
    let mut blockchain = Blockchain::with_difficulty("0".to_string());
    assert!(blockchain.create_genesis_at(1700000000));
    assert!(!command("stale", "Block #1").execute(&mut blockchain));
    assert_eq!(blockchain.blocks.len(), 1);
    assert!(command(GENESIS_HASH, "Block #1").execute(&mut blockchain));
    assert_eq!(blockchain.blocks.len(), 2);
    assert!(!command(GENESIS_HASH, "Block #1").execute(&mut blockchain));
    assert_eq!(blockchain.blocks.len(), 2);
}
