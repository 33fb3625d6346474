//! Line-ending conversion: a byte-stream rewriter that collapses the three
//! line-break spellings (`\n`, `\r\n`, lone `\r`) to one chosen target
//! spelling, together with a glob-based selection pipeline that resolves
//! include and exclude patterns into a deduplicated set of file paths.

pub mod engine;
pub mod eol;
pub mod escape;
pub mod laws;
pub mod select;
pub mod transform;
