//! The error model the renderer consumes, and the chain walker.

use vstd::prelude::*;

verus! {

/// An error value as the renderer consumes it: its own display text, and
/// optionally a single direct cause of the same shape.
///
/// Cause links are owned, so a chain is a finite simple path by construction:
/// a cyclic cause graph cannot be built, and the walk below always terminates.
pub struct ErrorNode {
    /// The error's own display text.
    pub text: String,
    /// The direct cause, if any.
    pub cause: Option<Box<ErrorNode>>,
}

/// The causal chain of `e`: the display texts of its predecessors obtained by
/// repeatedly following direct-cause links, most immediate cause first, root
/// cause last, excluding `e` itself.
pub open spec fn chain_view(e: ErrorNode) -> Seq<Seq<char>>
    decreases e,
{
    match e.cause {
        Option::None => Seq::<Seq<char>>::empty(),
        Option::Some(c) => seq![c.text@] + chain_view(*c),
    }
}

/// Walks the cause links from `start` and materializes the causal chain: the
/// display texts of the predecessors in causal order, excluding `start`
/// itself. An error with no cause yields the empty chain; that is a normal
/// terminal condition, not a failure.
pub fn walk(start: &ErrorNode) -> (chain: Vec<String>)
    ensures
        chain@.len() == chain_view(*start).len(),
        forall|i: int| 0 <= i < chain@.len() ==> chain@[i]@ == chain_view(*start)[i],
    decreases *start,
{
    match &start.cause {
        Option::None => Vec::new(),
        Option::Some(c) => {
            let mut chain: Vec<String> = Vec::new();
            chain.push((**c).text.clone());
            let mut rest = walk(&**c);
            chain.append(&mut rest);
            chain
        },
    }
}

impl ErrorNode {
    /// A leaf error: display text only, no cause.
    pub fn new(text: &str) -> (e: ErrorNode)
        ensures
            e.text@ == text@,
            e.cause is None,
            chain_view(e) == Seq::<Seq<char>>::empty(),
    {
        ErrorNode { text: text.to_owned(), cause: Option::None }
    }

    /// An error whose direct cause is `cause`.
    pub fn wrap(text: &str, cause: ErrorNode) -> (e: ErrorNode)
        ensures
            e.text@ == text@,
            e.cause is Some,
            chain_view(e) == seq![cause.text@] + chain_view(cause),
    {
        let e = ErrorNode { text: text.to_owned(), cause: Option::Some(Box::new(cause)) };
        e
    }
}

} // verus!
