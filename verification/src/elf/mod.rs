pub mod dwarf;
pub mod types;
pub mod parser;
pub mod tree;

pub use parser::{ElfContext, ElfParser, ElfSymbolRaw, ElfVariable};
