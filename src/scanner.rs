//! Literal search for a token, and for the n-th repetition of a marker.
use vstd::prelude::*;

verus! {

/// Why a scan produced no offset or substring.
#[derive(Debug, Clone, Copy, PartialEq, Eq, Structural)]
pub enum ScanError {
    /// A token, marker or chain has no match where it was looked for.
    NotFound,
    /// A resolved begin boundary lies after the resolved end boundary.
    InvalidRange,
    /// An empty token or chain, an occurrence index below one, or an origin
    /// past the end of the document.
    InvalidInput,
}

/// `needle` occurs in `doc` as a contiguous literal starting at offset `o`.
pub open spec fn occurs_at(doc: Seq<u8>, needle: Seq<u8>, o: int) -> bool {
    0 <= o && o + needle.len() <= doc.len() && doc.subrange(o, o + needle.len()) == needle
}

/// The first offset at or after `s` where `needle` occurs, scanning left to right.
pub open spec fn first_match(doc: Seq<u8>, needle: Seq<u8>, s: int) -> Option<int>
    decreases doc.len() - s,
{
    if s >= doc.len() {
        None
    } else if occurs_at(doc, needle, s) {
        Some(s)
    } else {
        first_match(doc, needle, s + 1)
    }
}

/// What `find` returns.
pub open spec fn find_spec(doc: Seq<u8>, needle: Seq<u8>, s: int) -> Result<int, ScanError> {
    if needle.len() == 0 {
        Err(ScanError::InvalidInput)
    } else {
        match first_match(doc, needle, s) {
            Some(o) => Ok(o),
            None => Err(ScanError::NotFound),
        }
    }
}

/// Start offset of the `k`-th match (1-indexed) of `needle` from `s`, each
/// search resuming at the end of the previous match.
pub open spec fn nth_match(doc: Seq<u8>, needle: Seq<u8>, s: int, k: nat) -> Option<int>
    decreases k,
{
    if k == 0 {
        None
    } else {
        match first_match(doc, needle, s) {
            None => None,
            Some(o) => if k == 1 {
                Some(o)
            } else {
                nth_match(doc, needle, o + needle.len(), (k - 1) as nat)
            },
        }
    }
}

/// What `nth_occurrence` returns.
pub open spec fn nth_spec(doc: Seq<u8>, needle: Seq<u8>, s: int, k: int) -> Result<int, ScanError> {
    if needle.len() == 0 || k < 1 {
        Err(ScanError::InvalidInput)
    } else {
        match nth_match(doc, needle, s, k as nat) {
            Some(o) => Ok(o),
            None => Err(ScanError::NotFound),
        }
    }
}

/// An offset result of the spec functions, as the executable functions return it.
pub open spec fn as_offset(x: Result<int, ScanError>) -> Result<usize, ScanError> {
    match x {
        Ok(o) => Ok(o as usize),
        Err(e) => Err(e),
    }
}

/// A match found by `first_match` lies at or after `s` and ends inside the document.
pub proof fn lemma_first_match_bounds(doc: Seq<u8>, needle: Seq<u8>, s: int)
    ensures
        first_match(doc, needle, s) matches Some(o) ==> s <= o && occurs_at(doc, needle, o),
    decreases doc.len() - s,
{
    if s < doc.len() && !occurs_at(doc, needle, s) {
        lemma_first_match_bounds(doc, needle, s + 1);
    }
}

/// `first_match` is the least offset at or after `s` where the needle occurs,
/// and is absent exactly when there is none.
pub proof fn lemma_first_match_least(doc: Seq<u8>, needle: Seq<u8>, s: int)
    requires
        needle.len() > 0,
    ensures
        first_match(doc, needle, s) is None <==> forall|k: int| s <= k ==> !occurs_at(doc, needle, k),
        first_match(doc, needle, s) matches Some(o) ==> {
            &&& s <= o
            &&& occurs_at(doc, needle, o)
            &&& forall|k: int| s <= k < o ==> !occurs_at(doc, needle, k)
        },
    decreases doc.len() - s,
{
    lemma_first_match_bounds(doc, needle, s);
    if s < doc.len() && !occurs_at(doc, needle, s) {
        lemma_first_match_least(doc, needle, s + 1);
        assert forall|k: int| s <= k && k < s + 1 implies !occurs_at(doc, needle, k) by {
            assert(k == s);
        }
    }
}

/// `find(d, n, s)` is `NotFound` exactly when the non-empty needle `n` does not
/// occur in `d` at or after `s`; otherwise it is the least such offset.
pub proof fn lemma_find_is_least_match(doc: Seq<u8>, needle: Seq<u8>, s: int)
    requires
        needle.len() > 0,
    ensures
        find_spec(doc, needle, s) == Err::<int, ScanError>(ScanError::NotFound) <==> forall|k: int|
            s <= k ==> !occurs_at(doc, needle, k),
        find_spec(doc, needle, s) matches Ok(o) ==> {
            &&& s <= o
            &&& doc.subrange(o, o + needle.len()) == needle
            &&& o + needle.len() <= doc.len()
            &&& forall|k: int| s <= k < o ==> !occurs_at(doc, needle, k)
        },
{
    lemma_first_match_least(doc, needle, s);
}

/// The first occurrence counted by `nth_occurrence` is the match that `find` returns.
pub proof fn lemma_first_occurrence_is_find(doc: Seq<u8>, needle: Seq<u8>, s: int)
    ensures
        nth_spec(doc, needle, s, 1) == find_spec(doc, needle, s),
{
}

/// Whether `needle` occurs in `document` at offset `o`.
fn matches_at(document: &[u8], needle: &[u8], o: usize) -> (r: bool)
    ensures
        r == occurs_at(document@, needle@, o as int),
{
    if o > document.len() || needle.len() > document.len() - o {
        return false;
    }
    let mut j: usize = 0;
    while j < needle.len()
        invariant
            o + needle@.len() <= document@.len(),
            j <= needle@.len(),
            needle@.len() == needle.len(),
            document@.len() == document.len(),
            forall|i: int| 0 <= i < j ==> document@[o + i] == needle@[i],
        decreases needle@.len() - j,
    {
        if document[o + j] != needle[j] {
            assert(document@.subrange(o as int, o + needle@.len())[j as int] != needle@[j as int]);
            return false;
        }
        j = j + 1;
    }
    assert(document@.subrange(o as int, o + needle@.len()) =~= needle@);
    true
}

/// The smallest offset at or after `start_offset` where `needle` occurs.
///
/// Fails with `InvalidInput` for an empty needle and with `NotFound` when no
/// match starts at or after `start_offset`.
pub fn find(document: &[u8], needle: &[u8], start_offset: usize) -> (r: Result<usize, ScanError>)
    ensures
        r == as_offset(find_spec(document@, needle@, start_offset as int)),
        find_spec(document@, needle@, start_offset as int) matches Ok(o) ==> start_offset <= o
            && o + needle@.len() <= document@.len(),
{
    if needle.len() == 0 {
        return Err(ScanError::InvalidInput);
    }
    let mut o: usize = start_offset;
    while o < document.len()
        invariant
            start_offset <= o,
            needle@.len() > 0,
            first_match(document@, needle@, start_offset as int) == first_match(
                document@,
                needle@,
                o as int,
            ),
        decreases document@.len() - o,
    {
        if matches_at(document, needle, o) {
            proof {
                lemma_first_match_bounds(document@, needle@, start_offset as int);
            }
            return Ok(o);
        }
        o = o + 1;
    }
    Err(ScanError::NotFound)
}

/// Start offset of the `n`-th occurrence (1-indexed) of `needle` at or after
/// `start_offset`, each search resuming at the end of the previous match.
///
/// Fails with `InvalidInput` for an empty needle or `n == 0`, and with
/// `NotFound` when fewer than `n` occurrences exist.
pub fn nth_occurrence(document: &[u8], needle: &[u8], start_offset: usize, n: usize) -> (r: Result<
    usize,
    ScanError,
>)
    ensures
        r == as_offset(nth_spec(document@, needle@, start_offset as int, n as int)),
        nth_spec(document@, needle@, start_offset as int, n as int) matches Ok(o) ==> start_offset
            <= o && o + needle@.len() <= document@.len(),
{
    if needle.len() == 0 || n < 1 {
        return Err(ScanError::InvalidInput);
    }
    let doc_len = document.len();
    let mut cursor: usize = start_offset;
    let mut remaining: usize = n;
    loop
        invariant
            1 <= remaining <= n,
            start_offset <= cursor,
            doc_len == document@.len(),
            needle@.len() > 0,
            nth_match(document@, needle@, start_offset as int, n as nat) == nth_match(
                document@,
                needle@,
                cursor as int,
                remaining as nat,
            ),
        decreases remaining,
    {
        let found = find(document, needle, cursor);
        match found {
            Err(_) => {
                return Err(ScanError::NotFound);
            },
            Ok(o) => {
                proof {
                    lemma_first_match_bounds(document@, needle@, cursor as int);
                    assert(first_match(document@, needle@, cursor as int) == Some(o as int));
                }
                if remaining == 1 {
                    return Ok(o);
                }
                cursor = o + needle.len();
                remaining = remaining - 1;
            },
        }
    }
}

} // verus!
