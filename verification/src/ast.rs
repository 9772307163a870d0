//! A token stream kept together with its logical lines.

use vstd::prelude::*;
use crate::lexer::{Token, TokenView, tokens_view};
use crate::lines::{lines_view, split_lines};
use crate::parser::organize_tokenlist;

verus! {

/// The tokens of one source file and the logical lines they form.
#[derive(Debug)]
pub struct AstTree {
    tokenlist: Vec<Token>,
    organized_tokenlist: Vec<Vec<Token>>,
}

impl AstTree {
    #[verifier::type_invariant]
    spec fn organized(self) -> bool {
        lines_view(self.organized_tokenlist@) == split_lines(tokens_view(self.tokenlist@))
    }

    /// The tokens, as given.
    pub closed spec fn tokens(&self) -> Seq<TokenView> {
        tokens_view(self.tokenlist@)
    }

    /// The logical lines of the tokens.
    pub closed spec fn lines(&self) -> Seq<Seq<TokenView>> {
        lines_view(self.organized_tokenlist@)
    }

    pub fn new(tokenlist: Vec<Token>) -> (r: Self)
        ensures
            r.tokens() == tokens_view(tokenlist@),
            r.lines() == split_lines(tokens_view(tokenlist@)),
    {
        let organized_tokenlist = organize_tokenlist(tokenlist.as_slice());
        Self { tokenlist, organized_tokenlist }
    }

    /// The tokens, as given.
    pub fn tokenlist(&self) -> (r: &Vec<Token>)
        ensures
            tokens_view(r@) == self.tokens(),
    {
        &self.tokenlist
    }

    /// The logical lines of the tokens.
    pub fn organized_tokenlist(&self) -> (r: &Vec<Vec<Token>>)
        ensures
            lines_view(r@) == self.lines(),
            self.lines() == split_lines(self.tokens()),
    {
        proof {
            use_type_invariant(self);
        }
        &self.organized_tokenlist
    }
}

} // verus!
