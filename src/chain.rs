//! Ordered runs of landmark tokens resolved to a single boundary offset.
use vstd::prelude::*;

use crate::scanner::{ScanError, first_match, find, find_spec, lemma_first_match_bounds};

verus! {

/// Where a resolved boundary sits relative to the final token's match.
#[derive(Debug, Clone, Copy, PartialEq, Eq, Structural)]
pub enum InclusionPolicy {
    /// The first byte of the match.
    Start,
    /// The first byte after the match.
    End,
}

/// An ordered sequence of literal tokens plus the policy applied to the last match.
#[derive(Debug)]
pub struct AnchorChain {
    pub tokens: Vec<Vec<u8>>,
    pub policy: InclusionPolicy,
}

/// The mathematical value of an `AnchorChain`.
pub ghost struct ChainView {
    pub tokens: Seq<Seq<u8>>,
    pub policy: InclusionPolicy,
}

impl View for AnchorChain {
    type V = ChainView;

    open spec fn view(&self) -> ChainView {
        ChainView {
            tokens: Seq::new(self.tokens@.len(), |i: int| self.tokens@[i]@),
            policy: self.policy,
        }
    }
}

/// A chain holds at least one token, and every token is non-empty.
pub open spec fn valid_tokens(tokens: Seq<Seq<u8>>) -> bool {
    &&& tokens.len() > 0
    &&& forall|i: int| 0 <= i < tokens.len() ==> #[trigger] tokens[i].len() > 0
}

/// Start offset of the match of the last token, when the tokens from index `i`
/// on are matched in order, the first of them at or after `s` and each next
/// one at or after the end of the previous match.
pub open spec fn chain_from(doc: Seq<u8>, tokens: Seq<Seq<u8>>, i: int, s: int) -> Option<int>
    decreases tokens.len() - i,
{
    if i < 0 || i >= tokens.len() {
        None
    } else {
        match first_match(doc, tokens[i], s) {
            None => None,
            Some(o) => if i == tokens.len() - 1 {
                Some(o)
            } else {
                chain_from(doc, tokens, i + 1, o + tokens[i].len())
            },
        }
    }
}

/// The boundary that resolving `tokens` from `s` under `policy` gives.
pub open spec fn resolve_spec(
    doc: Seq<u8>,
    tokens: Seq<Seq<u8>>,
    policy: InclusionPolicy,
    s: int,
) -> Result<int, ScanError> {
    if !valid_tokens(tokens) {
        Err(ScanError::InvalidInput)
    } else {
        match chain_from(doc, tokens, 0, s) {
            None => Err(ScanError::NotFound),
            Some(o) => Ok(
                match policy {
                    InclusionPolicy::Start => o,
                    InclusionPolicy::End => o + tokens.last().len(),
                },
            ),
        }
    }
}

/// A chain of one token resolves, under `Start`, to where `find` places the
/// token and, under `End`, to that offset plus the token's length.
pub proof fn lemma_single_token_chain(doc: Seq<u8>, token: Seq<u8>, s: int)
    ensures
        resolve_spec(doc, seq![token], InclusionPolicy::Start, s) == find_spec(doc, token, s),
        resolve_spec(doc, seq![token], InclusionPolicy::End, s) == match find_spec(doc, token, s) {
            Ok(o) => Ok(o + token.len()),
            Err(e) => Err(e),
        },
{
    let tokens = seq![token];
    assert(tokens[0] == token);
    assert(tokens.last() == token);
    if token.len() > 0 {
        assert(valid_tokens(tokens));
    } else {
        assert(!valid_tokens(tokens));
    }
}

impl AnchorChain {
    /// A chain of `tokens` whose last match is placed by `policy`.
    pub fn new(tokens: Vec<Vec<u8>>, policy: InclusionPolicy) -> (r: AnchorChain)
        ensures
            r.tokens@ == tokens@,
            r.policy == policy,
    {
        AnchorChain { tokens, policy }
    }

    /// Whether the chain holds at least one token and no empty token.
    pub fn is_valid(&self) -> (r: bool)
        ensures
            r == valid_tokens(self@.tokens),
    {
        if self.tokens.len() == 0 {
            return false;
        }
        let mut i: usize = 0;
        while i < self.tokens.len()
            invariant
                i <= self.tokens@.len(),
                forall|j: int| 0 <= j < i ==> #[trigger] self@.tokens[j].len() > 0,
            decreases self.tokens@.len() - i,
        {
            if self.tokens[i].len() == 0 {
                assert(self@.tokens[i as int].len() == 0);
                return false;
            }
            i = i + 1;
        }
        true
    }

    /// Resolves the chain in `document` from `start_offset`: each token is
    /// searched from the end of the previous token's match, the first from
    /// `start_offset`, and the first token without a match ends the walk.
    ///
    /// Fails with `InvalidInput` for an empty chain or an empty token, and
    /// with `NotFound` when a token has no match.
    pub fn resolve(&self, document: &[u8], start_offset: usize) -> (r: Result<usize, ScanError>)
        ensures
            r == crate::scanner::as_offset(
                resolve_spec(document@, self@.tokens, self@.policy, start_offset as int),
            ),
            resolve_spec(document@, self@.tokens, self@.policy, start_offset as int) matches Ok(o)
                ==> start_offset <= o <= document@.len(),
    {
        if !self.is_valid() {
            return Err(ScanError::InvalidInput);
        }
        let ghost tokens = self@.tokens;
        let doc_len = document.len();
        let count = self.tokens.len();
        let mut cursor: usize = start_offset;
        let mut i: usize = 0;
        while i < count
            invariant
                count == self.tokens@.len(),
                tokens == self@.tokens,
                valid_tokens(tokens),
                doc_len == document@.len(),
                start_offset <= cursor,
                i < count,
                chain_from(document@, tokens, 0, start_offset as int) == chain_from(
                    document@,
                    tokens,
                    i as int,
                    cursor as int,
                ),
            decreases count - i,
        {
            let token = &self.tokens[i];
            assert(token@ == tokens[i as int]);
            let found = find(document, token.as_slice(), cursor);
            match found {
                Err(_) => {
                    assert(tokens[i as int].len() > 0);
                    return Err(ScanError::NotFound);
                },
                Ok(o) => {
                    proof {
                        lemma_first_match_bounds(document@, tokens[i as int], cursor as int);
                        assert(tokens[i as int].len() > 0);
                        assert(first_match(document@, tokens[i as int], cursor as int) == Some(
                            o as int,
                        ));
                    }
                    if i + 1 == count {
                        assert(tokens.last() == token@);
                        return match self.policy {
                            InclusionPolicy::Start => Ok(o),
                            InclusionPolicy::End => Ok(o + token.len()),
                        };
                    }
                    cursor = o + token.len();
                    i = i + 1;
                },
            }
        }
        Err(ScanError::NotFound)
    }
}

} // verus!
