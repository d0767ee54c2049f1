//! The entries of a block.

use vstd::prelude::*;
use crate::span::{Span, Spanned};

verus! {

/// One declaration of the program, as far as its location is concerned: the
/// source text it was parsed from and the range of that text. An item is
/// always written in the source, so it always has a location.
#[derive(Clone, Copy, Debug)]
pub struct Item<'src> {
    pub text: &'src str,
    pub span: Span,
}

impl<'src> Item<'src> {
    pub fn new(text: &'src str, span: Span) -> (item: Item<'src>)
        ensures
            item.text == text,
            item.span == span,
    {
        Item { text, span }
    }
}

impl<'src> Spanned for Item<'src> {
    open spec fn span_of(&self) -> Span {
        self.span
    }

    fn span(&self) -> (s: Span) {
        self.span
    }
}

} // verus!
