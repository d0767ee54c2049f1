//! Identifiers, blocks, and the modifiers that the source may leave out.

use vstd::prelude::*;
use vstd::string::StringSliceAdditionalSpecFns;
use crate::item::Item;
use crate::span::{is_enclosing, MaybeSpanned, Span, Spanned};

verus! {

/// An identifier, such as `i_am_a_variable`: a borrowed slice of the source
/// text together with the range of exactly that slice.
#[derive(Debug)]
pub struct Ident<'src> {
    inner: &'src str,
    span: Span,
}

impl<'src> Ident<'src> {
    /// The borrowed characters of the identifier.
    pub closed spec fn inner_of(&self) -> &'src str {
        self.inner
    }

    /// `span` bounds `inner` exactly: it spans as many bytes as `inner` holds.
    pub open spec fn fits(inner: &str, span: Span) -> bool {
        span.wf() && span.len_of() == inner.spec_bytes().len()
    }

    /// Holds of every identifier: the stored range bounds the stored slice.
    #[verifier::type_invariant]
    pub open spec fn wf(&self) -> bool {
        Self::fits(self.inner_of(), self.span_of())
    }

    /// Pairs a slice of the source with its range. The two must agree; that
    /// is the caller's part, and `accepts` tests it.
    pub fn new(inner: &'src str, span: Span) -> (ident: Ident<'src>)
        requires
            Self::fits(inner, span),
        ensures
            ident.inner_of() == inner,
            ident.span_of() == span,
            ident.wf(),
    {
        Ident { inner, span }
    }

    /// Whether `new` may be given this slice and this range.
    pub fn accepts(inner: &str, span: &Span) -> (b: bool)
        ensures
            b == Self::fits(inner, *span),
    {
        span.start <= span.end && span.end - span.start == inner.as_bytes().len()
    }

    pub fn inner(&self) -> (s: &'src str)
        ensures
            s == self.inner_of(),
    {
        self.inner
    }
}

impl<'src> Spanned for Ident<'src> {
    closed spec fn span_of(&self) -> Span {
        self.span
    }

    /// The stored range, as it was given. Its length in bytes is that of the
    /// borrowed slice.
    fn span(&self) -> (s: Span)
        ensures
            s.wf(),
            s.len_of() == self.inner_of().spec_bytes().len(),
    {
        proof {
            use_type_invariant(self);
        }
        self.span
    }
}

/// The starts of the items' ranges never decrease from one item to a later
/// one, and each range is well-formed.
pub open spec fn in_program_order(items: Seq<Item>) -> bool {
    &&& forall|i: int| 0 <= i < items.len() ==> (#[trigger] items[i]).span.wf()
    &&& forall|i: int, j: int|
        0 <= i <= j < items.len() ==> (#[trigger] items[i]).span.start <= (
        #[trigger] items[j]).span.start
}

/// No item of `items` ends after the last one does.
pub open spec fn last_ends_last(items: Seq<Item>) -> bool {
    forall|i: int|
        0 <= i < items.len() ==> (#[trigger] items[i]).span.end <= items[items.len() - 1].span.end
}

/// A block of code: its items in program order.
///
/// The block stores no range for itself. With items, its range runs from the
/// start of the first item to the end of the last. Without items there is
/// nothing to derive from, and the block answers with the range it was given
/// for that case when it was built.
#[derive(Debug)]
pub struct Block<'src> {
    items: Vec<Item<'src>>,
    empty_span: Span,
}

impl<'src> Block<'src> {
    /// The items of the block, in the order in which they were given.
    pub closed spec fn items_of(&self) -> Seq<Item<'src>> {
        self.items@
    }

    /// The range that the block reports while it holds no item.
    pub closed spec fn empty_span_of(&self) -> Span {
        self.empty_span
    }

    /// What `new` asks of its arguments.
    pub open spec fn valid_parts(items: Seq<Item>, empty_span: Span) -> bool {
        in_program_order(items) && empty_span.wf()
    }

    /// Holds of every block.
    #[verifier::type_invariant]
    pub open spec fn wf(&self) -> bool {
        Self::valid_parts(self.items_of(), self.empty_span_of())
    }

    /// Builds a block from its items, which are kept as they are and in their
    /// order, and from `empty_span`, the range that the block reports if
    /// `items` is empty (the range of the tokens that delimit the block, where
    /// the caller has them). `empty_span` plays no part once there is an item.
    pub fn new(items: Vec<Item<'src>>, empty_span: Span) -> (block: Block<'src>)
        requires
            Self::valid_parts(items@, empty_span),
        ensures
            block.items_of() == items@,
            block.empty_span_of() == empty_span,
            block.wf(),
    {
        Block { items, empty_span }
    }

    /// Whether `new` may be given these items and this range.
    pub fn accepts(items: &Vec<Item<'src>>, empty_span: &Span) -> (b: bool)
        ensures
            b == Self::valid_parts(items@, *empty_span),
    {
        if empty_span.start > empty_span.end {
            return false;
        }
        let mut i: usize = 0;
        while i < items.len()
            invariant
                i <= items@.len(),
                empty_span.wf(),
                in_program_order(items@.take(i as int)),
            decreases items@.len() - i,
        {
            let ghost seen = items@.take(i as int);
            let ghost next = items@.take(i + 1);
            let span: Span = items[i].span;
            if span.start > span.end {
                assert(!items@[i as int].span.wf());
                return false;
            }
            if i > 0 && items[i - 1].span.start > span.start {
                assert(items@[i - 1].span.start > items@[i as int].span.start);
                return false;
            }
            assert forall|a: int, b: int| 0 <= a <= b < next.len() implies (#[trigger] next[a]).span.start
                <= (#[trigger] next[b]).span.start by {
                if b < i {
                    assert(seen[a].span.start <= seen[b].span.start);
                } else if a < i {
                    assert(seen[a].span.start <= seen[i - 1].span.start);
                }
            }
            assert forall|a: int| 0 <= a < next.len() implies (#[trigger] next[a]).span.wf() by {
                if a < i {
                    assert(seen[a].span.wf());
                }
            }
            i += 1;
        }
        assert(items@.take(i as int) =~= items@);
        true
    }

    pub fn items(&self) -> (items: &Vec<Item<'src>>)
        ensures
            items@ == self.items_of(),
    {
        &self.items
    }
}

impl<'src> Spanned for Block<'src> {
    open spec fn span_of(&self) -> Span {
        let items = self.items_of();
        if items.len() == 0 {
            self.empty_span_of()
        } else {
            Span { start: items[0].span.start, end: items[items.len() - 1].span.end }
        }
    }

    /// The derived range of the block: the start of its first item and the
    /// end of its last, or the range given for the empty block.
    fn span(&self) -> (s: Span)
        ensures
            s.wf(),
            self.items_of().len() > 0 ==> s.start == self.items_of().first().span.start && s.end
                == self.items_of().last().span.end,
            self.items_of().len() == 0 ==> s == self.empty_span_of(),
    {
        proof {
            use_type_invariant(self);
        }
        let n: usize = self.items.len();
        if n == 0 {
            self.empty_span
        } else {
            Span { start: self.items[0].span.start, end: self.items[n - 1].span.end }
        }
    }
}

/// Every item of a block with items starts no earlier than the block does,
/// and, where no item ends after the last one, lies within the block's range.
pub proof fn lemma_block_span_bounds_items(block: Block, i: int)
    requires
        block.wf(),
        0 <= i < block.items_of().len(),
    ensures
        block.span_of().start <= block.items_of()[i].span.start,
        last_ends_last(block.items_of()) ==> block.span_of().contains(block.items_of()[i].span),
{
}

/// Where each item ends no later than the item after it, no item ends after
/// the last one.
pub proof fn lemma_ends_in_order(items: Seq<Item>)
    requires
        forall|i: int|
            0 <= i < items.len() - 1 ==> (#[trigger] items[i]).span.end <= items[i + 1].span.end,
    ensures
        last_ends_last(items),
    decreases items.len(),
{
    if items.len() > 1 {
        let rest = items.subrange(1, items.len() as int);
        assert forall|i: int| 0 <= i < rest.len() - 1 implies (#[trigger] rest[i]).span.end
            <= rest[i + 1].span.end by {
            assert(items[i + 1].span.end <= items[i + 2].span.end);
        }
        lemma_ends_in_order(rest);
        assert forall|i: int| 0 <= i < items.len() implies (#[trigger] items[i]).span.end
            <= items[items.len() - 1].span.end by {
            if i == 0 {
                assert(items[0].span.end <= items[1].span.end);
                assert(rest[0].span.end <= rest[rest.len() - 1].span.end);
            } else {
                assert(rest[i - 1].span.end <= rest[rest.len() - 1].span.end);
            }
        }
    }
}

/// Where no item ends after the last one, the range of a block with items is
/// the enclosing range of its items' ranges: going by the first and the last
/// item alone gives what a scan of all of them would.
pub proof fn lemma_block_span_is_enclosing(block: Block)
    requires
        block.wf(),
        block.items_of().len() > 0,
        last_ends_last(block.items_of()),
    ensures
        is_enclosing(block.span_of(), block.items_of().map(|i: int, item: Item| Some(item.span))),
{
    let items = block.items_of();
    let fields = items.map(|i: int, item: Item| Some(item.span));
    let s = block.span_of();
    assert(fields[0].unwrap().start == s.start);
    assert(fields[items.len() - 1].unwrap().end == s.end);
    assert forall|i: int| 0 <= i < fields.len() && fields[i] is Some implies s.contains(
        #[trigger] fields[i].unwrap(),
    ) by {
        lemma_block_span_bounds_items(block, i);
    }
}

/// An item's visibility.
#[derive(Clone, Copy, Debug, PartialEq, Eq, Structural)]
pub enum Visibility {
    /// Public visibility, with the range of the keyword that says so.
    Pub(Span),
    /// Local visibility, the default: nothing was written.
    Local,
}

/// A variable's mutability.
#[derive(Clone, Copy, Debug, PartialEq, Eq, Structural)]
pub enum Mutability {
    /// Mutable, with the range of the keyword that says so.
    Mut(Span),
    /// Immutable, the default: nothing was written.
    Immut,
}

impl MaybeSpanned for Visibility {
    open spec fn maybe_span_of(&self) -> Option<Span> {
        match self {
            Visibility::Pub(span) => Some(*span),
            Visibility::Local => None,
        }
    }

    fn maybe_span(&self) -> (s: Option<Span>) {
        match self {
            Visibility::Pub(span) => Some(*span),
            Visibility::Local => None,
        }
    }
}

impl MaybeSpanned for Mutability {
    open spec fn maybe_span_of(&self) -> Option<Span> {
        match self {
            Mutability::Mut(span) => Some(*span),
            Mutability::Immut => None,
        }
    }

    fn maybe_span(&self) -> (s: Option<Span>) {
        match self {
            Mutability::Mut(span) => Some(*span),
            Mutability::Immut => None,
        }
    }
}

impl Default for Visibility {
    fn default() -> (v: Visibility)
        ensures
            v == Visibility::Local,
    {
        Visibility::Local
    }
}

impl Default for Mutability {
    fn default() -> (m: Mutability)
        ensures
            m == Mutability::Immut,
    {
        Mutability::Immut
    }
}

} // verus!
