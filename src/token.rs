//! Tokens: references to spans of source text.
use crate::resource_table::{PathId, StrId, TokenId};
use vstd::prelude::*;

verus! {

/// One occurrence of a piece of source text: its identity, interned text,
/// owning file, and 1-based line and column with its length in characters.
#[derive(Clone, Copy, Debug, PartialEq, Eq, Structural)]
pub struct Token {
    pub id: TokenId,
    pub text: StrId,
    pub file_path: PathId,
    pub line: usize,
    pub column: usize,
    pub length: usize,
}

} // verus!
