pub mod bytecode;
pub mod cli;
pub mod contract;
pub mod errors;
pub mod instructions;
pub mod interpreter;
pub mod memory;
pub mod stack;
pub mod utils;
pub mod word;

pub use bytecode::Bytecode;
pub use contract::Contract;
pub use errors::EvmError;
pub use interpreter::Interpreter;
pub use memory::Memory;
pub use stack::Stack;
pub use word::Word;
