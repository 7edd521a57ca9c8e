//! The blockchain's data: transactions, blocks and the chain itself.

pub mod block;
pub mod blockchain;
pub mod mempool;
pub mod transaction;
pub mod utxos;

pub use block::{Block, BlockHeader, BlockView};
pub use blockchain::Blockchain;
pub use transaction::{InputView, Transaction, TransactionInput, TransactionOutput, TxView};
pub use utxos::{UtxoEntry, UtxoSet};
