pub mod address;
pub mod block;
pub mod chain;
pub mod coinbase;
pub mod ids;
pub mod transaction;
pub mod utxo;
pub mod value;
