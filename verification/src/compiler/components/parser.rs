//! The syntax-tree builder. It consumes the token sequence the tokenizer
//! produced; in its current state it walks the tokens and builds no tree.

use crate::language_features::{SyntaxTree, Token, TokenType};
use vstd::prelude::*;

verus! {

/// Consumes a token sequence and will eventually build a syntax tree.
pub struct Parser {
    tree: SyntaxTree,
    ptr: usize,
}

impl Parser {
    /// The tree as it currently stands.
    pub closed spec fn spec_tree(&self) -> SyntaxTree {
        self.tree
    }

    /// The position of the walk through the token sequence.
    pub closed spec fn spec_ptr(&self) -> int {
        self.ptr as int
    }

    pub fn ini() -> (p: Parser)
        ensures
            p.spec_tree().nodes@.len() == 0,
            p.spec_ptr() == 0,
    {
        Parser { tree: SyntaxTree { nodes: Vec::new() }, ptr: 0 }
    }

    /// Walks the token sequence to its end. No tree construction is performed
    /// yet, so the tree is returned exactly as it stood.
    pub fn parse(&mut self, tokens: &Vec<Token>) -> (t: &SyntaxTree)
        ensures
            final(self).spec_tree() == old(self).spec_tree(),
            final(self).spec_ptr() == if old(self).spec_ptr() >= tokens@.len() {
                old(self).spec_ptr()
            } else {
                tokens@.len() as int
            },
            *t == final(self).spec_tree(),
    {
        while self.ptr < tokens.len()
            invariant
                self.tree == old(self).tree,
                old(self).ptr <= self.ptr,
                self.ptr as int <= tokens@.len() || self.ptr == old(self).ptr,
            decreases tokens@.len() - self.ptr,
        {
            match tokens[self.ptr].token_type {
                TokenType::COLON => {
                },
                _ => {
                },
            }
            self.ptr = self.ptr + 1;
        }
        &self.tree
    }
}

} // verus!
