use vstd::prelude::*;

pub mod text;
pub mod util;
pub mod parser;
pub mod stamp;
pub mod domain;
pub mod storage;
pub mod search;
pub mod error;
pub mod types;
pub mod note;
pub mod sync;
pub mod git;
pub mod vault;
pub mod mcp;
pub mod schema;
pub mod watch;

verus! {

} // verus!
