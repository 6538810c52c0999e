//! Bounded substrings between two resolved anchor chains.
use vstd::prelude::*;

use crate::chain::{AnchorChain, ChainView, chain_from, resolve_spec, valid_tokens};
use crate::scanner::ScanError;

verus! {

/// A byte range `[begin, end)` of a document.
#[derive(Debug, Clone, Copy, PartialEq, Eq, Structural)]
pub struct Span {
    pub begin: usize,
    pub end: usize,
}

impl Span {
    /// The bytes of `document` that the span covers.
    pub fn slice<'a>(&self, document: &'a [u8]) -> (r: &'a [u8])
        requires
            self.begin <= self.end <= document@.len(),
        ensures
            r@ == document@.subrange(self.begin as int, self.end as int),
    {
        vstd::slice::slice_subrange(document, self.begin, self.end)
    }
}

/// The range that extraction gives: `start` resolved from `origin` to the
/// begin boundary, then `end` resolved from that begin to the end boundary.
pub open spec fn extract_spec(doc: Seq<u8>, start: ChainView, end: ChainView, origin: int) -> Result<
    (int, int),
    ScanError,
> {
    if origin > doc.len() {
        Err(ScanError::InvalidInput)
    } else {
        match resolve_spec(doc, start.tokens, start.policy, origin) {
            Err(e) => Err(e),
            Ok(b) => match resolve_spec(doc, end.tokens, end.policy, b) {
                Err(e) => Err(e),
                Ok(e) => if b > e {
                    Err(ScanError::InvalidRange)
                } else {
                    Ok((b, e))
                },
            },
        }
    }
}

/// A span result as `extract_span` returns it.
pub open spec fn as_span(x: Result<(int, int), ScanError>) -> Result<Span, ScanError> {
    match x {
        Ok((b, e)) => Ok(Span { begin: b as usize, end: e as usize }),
        Err(e) => Err(e),
    }
}

/// Extraction depends on its inputs alone: equal documents, chains and origins
/// give equal results.
pub proof fn lemma_extract_deterministic(
    doc1: Seq<u8>,
    doc2: Seq<u8>,
    start1: ChainView,
    start2: ChainView,
    end1: ChainView,
    end2: ChainView,
    origin1: int,
    origin2: int,
)
    requires
        doc1 == doc2,
        start1 == start2,
        end1 == end2,
        origin1 == origin2,
    ensures
        extract_spec(doc1, start1, end1, origin1) == extract_spec(doc2, start2, end2, origin2),
{
}

/// When the start chain resolves but the end chain has no match after it,
/// extraction reports `NotFound` and yields no substring.
pub proof fn lemma_missing_end_anchor(doc: Seq<u8>, start: ChainView, end: ChainView, origin: int)
    requires
        origin <= doc.len(),
        resolve_spec(doc, start.tokens, start.policy, origin) is Ok,
        valid_tokens(end.tokens),
        chain_from(doc, end.tokens, 0, resolve_spec(doc, start.tokens, start.policy, origin)->Ok_0)
            is None,
    ensures
        extract_spec(doc, start, end, origin) == Err::<(int, int), ScanError>(ScanError::NotFound),
{
}

/// The offsets of the substring between `start_chain`, resolved from `origin`,
/// and `end_chain`, resolved from where the start chain landed.
///
/// Fails with `InvalidInput` when `origin` lies past the end of the document
/// or a chain is empty or holds an empty token, with `NotFound` when either
/// chain fails to resolve, and with `InvalidRange` when the begin boundary
/// lies after the end boundary.
pub fn extract_span(
    document: &[u8],
    start_chain: &AnchorChain,
    end_chain: &AnchorChain,
    origin: usize,
) -> (r: Result<Span, ScanError>)
    ensures
        r == as_span(extract_spec(document@, start_chain@, end_chain@, origin as int)),
        extract_spec(document@, start_chain@, end_chain@, origin as int) matches Ok((b, e)) ==> origin
            <= b <= e <= document@.len(),
{
    if origin > document.len() {
        return Err(ScanError::InvalidInput);
    }
    let begin = match start_chain.resolve(document, origin) {
        Err(e) => {
            return Err(e);
        },
        Ok(b) => b,
    };
    let end = match end_chain.resolve(document, begin) {
        Err(e) => {
            return Err(e);
        },
        Ok(e) => e,
    };
    if begin > end {
        return Err(ScanError::InvalidRange);
    }
    Ok(Span { begin, end })
}

/// The bytes between `start_chain`, resolved from `origin`, and `end_chain`,
/// resolved from where the start chain landed, as a view into `document`.
///
/// Fails as `extract_span` does.
pub fn extract<'a>(
    document: &'a [u8],
    start_chain: &AnchorChain,
    end_chain: &AnchorChain,
    origin: usize,
) -> (r: Result<&'a [u8], ScanError>)
    ensures
        match extract_spec(document@, start_chain@, end_chain@, origin as int) {
            Ok((b, e)) => r matches Ok(sub) && sub@ == document@.subrange(b, e),
            Err(e) => r == Err::<&[u8], ScanError>(e),
        },
{
    proof {
        assert(document.len() == document@.len());
    }
    match extract_span(document, start_chain, end_chain, origin) {
        Err(e) => Err(e),
        Ok(sp) => Ok(sp.slice(document)),
    }
}

} // verus!
