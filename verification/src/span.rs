//! Byte ranges of the source text, the two ways a node can answer for its
//! location, and the rule by which a composite derives its own range from the
//! ranges of its fields.

use vstd::prelude::*;

verus! {

/// The half-open byte range `[start, end)` of one source buffer.
#[derive(Clone, Copy, Debug, PartialEq, Eq, Structural)]
pub struct Span {
    pub start: usize,
    pub end: usize,
}

impl Span {
    /// A range does not end before it starts.
    pub open spec fn wf(self) -> bool {
        self.start <= self.end
    }

    /// Number of bytes in the range.
    pub open spec fn len_of(self) -> int {
        self.end - self.start
    }

    /// `inner` lies within `self`: it starts no earlier and ends no later.
    pub open spec fn contains(self, inner: Span) -> bool {
        self.start <= inner.start && inner.end <= self.end
    }

    /// The smallest range that contains both `self` and `other`.
    pub open spec fn cover_of(self, other: Span) -> Span {
        Span {
            start: if self.start <= other.start { self.start } else { other.start },
            end: if self.end >= other.end { self.end } else { other.end },
        }
    }

    pub fn new(start: usize, end: usize) -> (s: Span)
        requires
            start <= end,
        ensures
            s.start == start,
            s.end == end,
            s.wf(),
    {
        Span { start, end }
    }

    pub fn len(&self) -> (n: usize)
        requires
            self.wf(),
        ensures
            n == self.len_of(),
    {
        self.end - self.start
    }

    pub fn encloses(&self, inner: &Span) -> (b: bool)
        ensures
            b == self.contains(*inner),
    {
        self.start <= inner.start && inner.end <= self.end
    }

    pub fn cover(&self, other: &Span) -> (s: Span)
        ensures
            s == self.cover_of(*other),
    {
        let start: usize = if self.start <= other.start { self.start } else { other.start };
        let end: usize = if self.end >= other.end { self.end } else { other.end };
        Span { start, end }
    }
}

/// A node that is always written in the source, and so always has a location.
pub trait Spanned {
    /// The location of the node.
    spec fn span_of(&self) -> Span;

    fn span(&self) -> (s: Span)
        ensures
            s == self.span_of(),
    ;
}

/// A node that may be left out of the source. Its location is `None` exactly
/// when it was not written.
pub trait MaybeSpanned {
    /// The location of the node, if it was written.
    spec fn maybe_span_of(&self) -> Option<Span>;

    fn maybe_span(&self) -> (s: Option<Span>)
        ensures
            s == self.maybe_span_of(),
    ;
}

/// Asking a node for its location again gives the same answer: every answer
/// of `span` is the node's location, and the node alone determines that.
pub proof fn lemma_span_repeats<T: Spanned>(node: T, first: Span, second: Span)
    requires
        first == node.span_of(),
        second == node.span_of(),
    ensures
        first == second,
{
}

/// Asking a node that may be left out for its location again gives the same
/// answer, `None` or the same range.
pub proof fn lemma_maybe_span_repeats<T: MaybeSpanned>(
    node: T,
    first: Option<Span>,
    second: Option<Span>,
)
    requires
        first == node.maybe_span_of(),
        second == node.maybe_span_of(),
    ensures
        first == second,
{
}

/// `s` is the enclosing range of `fields`: it contains every field that has a
/// location, and it starts where one of them starts and ends where one of
/// them ends, so that no smaller range contains them all.
pub open spec fn is_enclosing(s: Span, fields: Seq<Option<Span>>) -> bool {
    &&& forall|i: int|
        0 <= i < fields.len() && fields[i] is Some ==> s.contains(#[trigger] fields[i].unwrap())
    &&& exists|i: int|
        0 <= i < fields.len() && fields[i] is Some && (#[trigger] fields[i].unwrap()).start
            == s.start
    &&& exists|j: int|
        0 <= j < fields.len() && fields[j] is Some && (#[trigger] fields[j].unwrap()).end == s.end
}

/// No field of `fields` has a location.
pub open spec fn all_absent(fields: Seq<Option<Span>>) -> bool {
    forall|i: int| 0 <= i < fields.len() ==> #[trigger] fields[i] is None
}

/// The location of a composite from the locations of its fields, in any
/// order: the smallest range that contains every field that has one. Fields
/// without a location are skipped. With no located field there is nothing to
/// derive, and the result is `None`.
pub fn enclosing_span(fields: &[Option<Span>]) -> (r: Option<Span>)
    ensures
        r is None <==> all_absent(fields@),
        r matches Some(s) ==> is_enclosing(s, fields@),
{
    let mut acc: Option<Span> = None;
    let ghost mut lo: int = 0;
    let ghost mut hi: int = 0;
    let mut i: usize = 0;
    while i < fields.len()
        invariant
            i <= fields@.len(),
            acc is None <==> forall|k: int| 0 <= k < i ==> #[trigger] fields@[k] is None,
            acc matches Some(s) ==> {
                &&& forall|k: int|
                    0 <= k < i && fields@[k] is Some ==> s.contains(#[trigger] fields@[k].unwrap())
                &&& 0 <= lo < i && fields@[lo] is Some && fields@[lo].unwrap().start == s.start
                &&& 0 <= hi < i && fields@[hi] is Some && fields@[hi].unwrap().end == s.end
            },
        decreases fields@.len() - i,
    {
        match fields[i] {
            Some(f) => {
                assert(fields@[i as int].unwrap() == f);
                match acc {
                    None => {
                        acc = Some(f);
                        proof {
                            lo = i as int;
                            hi = i as int;
                        }
                    },
                    Some(s) => {
                        acc = Some(s.cover(&f));
                        proof {
                            if f.start < s.start {
                                lo = i as int;
                            }
                            if f.end > s.end {
                                hi = i as int;
                            }
                        }
                    },
                }
            },
            None => {},
        }
        i += 1;
    }
    acc
}

/// The enclosing range is the smallest: any range that contains every located
/// field contains it too.
pub proof fn lemma_enclosing_is_smallest(s: Span, fields: Seq<Option<Span>>, other: Span)
    requires
        is_enclosing(s, fields),
        forall|i: int|
            0 <= i < fields.len() && fields[i] is Some ==> other.contains(
                #[trigger] fields[i].unwrap(),
            ),
    ensures
        other.contains(s),
{
}

/// The enclosing range of well-formed fields is well-formed.
pub proof fn lemma_enclosing_wf(s: Span, fields: Seq<Option<Span>>)
    requires
        is_enclosing(s, fields),
        forall|i: int| 0 <= i < fields.len() && fields[i] is Some ==> (#[trigger] fields[i].unwrap()).wf(),
    ensures
        s.wf(),
{
}

/// There is at most one enclosing range.
pub proof fn lemma_enclosing_unique(a: Span, b: Span, fields: Seq<Option<Span>>)
    requires
        is_enclosing(a, fields),
        is_enclosing(b, fields),
    ensures
        a == b,
{
}

} // verus!
