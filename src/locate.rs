//! One listing item's fields, extracted in a single left-to-right pass.
use vstd::prelude::*;
use vstd::string::StringSliceAdditionalSpecFns;

use crate::chain::{AnchorChain, ChainView, InclusionPolicy};
use crate::extract::{Span, extract_span, extract_spec};
use crate::scanner::{ScanError, nth_occurrence, nth_spec};

verus! {

/// The two chains that bound one field.
#[derive(Debug)]
pub struct FieldRule {
    pub start: AnchorChain,
    pub end: AnchorChain,
}

/// Where an item's block and its three fields sit in a listing page.
#[derive(Debug)]
pub struct ItemLayout {
    /// The marker repeated once per item block.
    pub block_marker: Vec<u8>,
    pub url: FieldRule,
    pub image: FieldRule,
    pub title: FieldRule,
}

/// The mathematical value of an `ItemLayout`: the marker and a (start, end)
/// pair of chains per field.
pub ghost struct LayoutView {
    pub block_marker: Seq<u8>,
    pub url: (ChainView, ChainView),
    pub image: (ChainView, ChainView),
    pub title: (ChainView, ChainView),
}

impl View for ItemLayout {
    type V = LayoutView;

    open spec fn view(&self) -> LayoutView {
        LayoutView {
            block_marker: self.block_marker@,
            url: (self.url.start@, self.url.end@),
            image: (self.image.start@, self.image.end@),
            title: (self.title.start@, self.title.end@),
        }
    }
}

/// A literal token as an owned byte vector.
fn token(text: &str) -> (r: Vec<u8>)
    ensures
        r@ == text.spec_bytes(),
{
    vstd::slice::slice_to_vec(text.as_bytes())
}

/// A chain of the given literal tokens under `policy`.
fn chain_of(texts: &[&str], policy: InclusionPolicy) -> (r: AnchorChain)
    ensures
        r@.policy == policy,
        r@.tokens.len() == texts@.len(),
        forall|i: int| 0 <= i < texts@.len() ==> #[trigger] r@.tokens[i] == texts@[i].spec_bytes(),
{
    let mut tokens: Vec<Vec<u8>> = Vec::new();
    let mut i: usize = 0;
    while i < texts.len()
        invariant
            i <= texts@.len(),
            tokens@.len() == i,
            forall|j: int| 0 <= j < i ==> #[trigger] tokens@[j]@ == texts@[j].spec_bytes(),
        decreases texts@.len() - i,
    {
        tokens.push(token(texts[i]));
        i = i + 1;
    }
    AnchorChain::new(tokens, policy)
}

impl ItemLayout {
    /// The layout of a workshop listing page: items are blocks opened by
    /// `class="workshopItem">`; the link is the next `https` URL up to its
    /// query string (`&`); the preview image is the `https` URL after
    /// `workshopItemPreviewImage`, up to `?`; the title is the text of the
    /// next `<div class="workshopItemTitle ellipsis">` element.
    pub fn workshop_listing() -> (r: ItemLayout)
        ensures
            r@.block_marker == "class=\"workshopItem\">".spec_bytes(),
            r@.url.0 == (ChainView { tokens: seq!["https".spec_bytes()], policy: InclusionPolicy::Start }),
            r@.url.1 == (ChainView { tokens: seq!["&".spec_bytes()], policy: InclusionPolicy::Start }),
            r@.image.0 == (ChainView {
                tokens: seq!["workshopItemPreviewImage".spec_bytes(), "https".spec_bytes()],
                policy: InclusionPolicy::Start,
            }),
            r@.image.1 == (ChainView { tokens: seq!["?".spec_bytes()], policy: InclusionPolicy::Start }),
            r@.title.0 == (ChainView {
                tokens: seq!["<div class=\"workshopItemTitle ellipsis\">".spec_bytes()],
                policy: InclusionPolicy::End,
            }),
            r@.title.1 == (ChainView { tokens: seq!["</div>".spec_bytes()], policy: InclusionPolicy::Start }),
    {
        let url = FieldRule {
            start: chain_of(&["https"], InclusionPolicy::Start),
            end: chain_of(&["&"], InclusionPolicy::Start),
        };
        let image = FieldRule {
            start: chain_of(&["workshopItemPreviewImage", "https"], InclusionPolicy::Start),
            end: chain_of(&["?"], InclusionPolicy::Start),
        };
        let title = FieldRule {
            start: chain_of(&["<div class=\"workshopItemTitle ellipsis\">"], InclusionPolicy::End),
            end: chain_of(&["</div>"], InclusionPolicy::Start),
        };
        let layout = ItemLayout { block_marker: token("class=\"workshopItem\">"), url, image, title };
        assert(layout@.url.0.tokens =~= seq!["https".spec_bytes()]);
        assert(layout@.url.1.tokens =~= seq!["&".spec_bytes()]);
        assert(layout@.image.0.tokens =~= seq!["workshopItemPreviewImage".spec_bytes(), "https".spec_bytes()]);
        assert(layout@.image.1.tokens =~= seq!["?".spec_bytes()]);
        assert(layout@.title.0.tokens =~= seq!["<div class=\"workshopItemTitle ellipsis\">".spec_bytes()]);
        assert(layout@.title.1.tokens =~= seq!["</div>".spec_bytes()]);
        layout
    }
}

/// The spans of one item's link, image link and title.
#[derive(Debug, Clone, Copy, PartialEq, Eq, Structural)]
pub struct ItemFields {
    pub url: Span,
    pub image: Span,
    pub title: Span,
}

/// The mathematical value of `ItemFields`: each field as `(begin, end)`.
pub ghost struct FieldsView {
    pub url: (int, int),
    pub image: (int, int),
    pub title: (int, int),
}

impl View for ItemFields {
    type V = FieldsView;

    open spec fn view(&self) -> FieldsView {
        FieldsView {
            url: (self.url.begin as int, self.url.end as int),
            image: (self.image.begin as int, self.image.end as int),
            title: (self.title.begin as int, self.title.end as int),
        }
    }
}

/// What `locate_item` returns: the `item`-th block marker from the start of
/// the document, then the link, image and title extractions, each from where
/// the previous one ended; the first failure is the result.
pub open spec fn locate_spec(doc: Seq<u8>, layout: LayoutView, item: int) -> Result<
    FieldsView,
    ScanError,
> {
    match nth_spec(doc, layout.block_marker, 0, item) {
        Err(e) => Err(e),
        Ok(block) => match extract_spec(doc, layout.url.0, layout.url.1, block) {
            Err(e) => Err(e),
            Ok(url) => match extract_spec(doc, layout.image.0, layout.image.1, url.1) {
                Err(e) => Err(e),
                Ok(image) => match extract_spec(doc, layout.title.0, layout.title.1, image.1) {
                    Err(e) => Err(e),
                    Ok(title) => Ok(FieldsView { url, image, title }),
                },
            },
        },
    }
}

/// Locates the `item`-th block (1-indexed) of `layout` in `document` and
/// extracts its link, image link and title in document order, each search
/// starting where the previous field ended. Any failure is returned at once,
/// with no partial fields.
pub fn locate_item(document: &[u8], layout: &ItemLayout, item: usize) -> (r: Result<
    ItemFields,
    ScanError,
>)
    ensures
        match locate_spec(document@, layout@, item as int) {
            Ok(v) => r matches Ok(f) && f@ == v,
            Err(e) => r == Err::<ItemFields, ScanError>(e),
        },
        locate_spec(document@, layout@, item as int) matches Ok(v) ==> {
            &&& v.url.0 <= v.url.1 <= v.image.0 <= v.image.1
            &&& v.image.1 <= v.title.0 <= v.title.1 <= document@.len()
        },
{
    proof {
        assert(document.len() == document@.len());
    }
    let block = match nth_occurrence(document, layout.block_marker.as_slice(), 0, item) {
        Err(e) => {
            return Err(e);
        },
        Ok(b) => b,
    };
    let url = match extract_span(document, &layout.url.start, &layout.url.end, block) {
        Err(e) => {
            return Err(e);
        },
        Ok(sp) => sp,
    };
    let image = match extract_span(document, &layout.image.start, &layout.image.end, url.end) {
        Err(e) => {
            return Err(e);
        },
        Ok(sp) => sp,
    };
    let title = match extract_span(document, &layout.title.start, &layout.title.end, image.end) {
        Err(e) => {
            return Err(e);
        },
        Ok(sp) => sp,
    };
    Ok(ItemFields { url, image, title })
}

} // verus!
