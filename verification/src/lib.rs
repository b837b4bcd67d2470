//! Indexing and query engine of a blockchain explorer: a resumable block
//! scanner, the secondary-index store it fills, the reader that serves
//! history queries from it, and the contract verifier and call decoder.

pub mod abi;
pub mod contract;
pub mod db;
pub mod durable;
pub mod explorer;
pub mod keys;
pub mod reader;
pub mod render;
pub mod scanner;
pub mod text;
pub mod types;
