//! The headline and body text of the post that announces an item.
use vstd::prelude::*;
use vstd::string::StringExecFns;

verus! {

/// The text with its HTML character references replaced by the characters
/// they stand for.
pub uninterp spec fn entities_decoded(text: Seq<char>) -> Seq<char>;

/// Relies on `html_escape::decode_html_entities`, whose result depends on
/// the text alone.
#[verifier::external_body]
fn decode_entities(text: &str) -> (r: String)
    ensures
        r@ == entities_decoded(text@),
{
    html_escape::decode_html_entities(text).into_owned()
}

/// The words that open every headline.
pub open spec fn headline_prefix() -> Seq<char> {
    "L4D2 Workshop Item of the Day: "@
}

/// The headline and markdown body of an announcement.
#[derive(Debug)]
pub struct PostText {
    pub headline: String,
    pub markdown: String,
}

/// The headline for an item whose title, already decoded, is `title`.
pub fn post_headline(title: &str) -> (r: String)
    ensures
        r@ == headline_prefix() + title@,
{
    let mut r = String::from_str("L4D2 Workshop Item of the Day: ");
    r.append(title);
    r
}

/// A markdown link with text `title` to `url`, written `[title]( url )`.
pub fn post_markdown(title: &str, url: &str) -> (r: String)
    ensures
        r@ == "["@ + title@ + "]( "@ + url@ + " )"@,
{
    let mut r = String::from_str("[");
    r.append(title);
    r.append("]( ");
    r.append(url);
    r.append(" )");
    r
}

/// The announcement of an item whose title, as it stands in the page, is
/// `raw_title` and whose link is `url`: the title is decoded once and used in
/// both the headline and the link text.
pub fn post_text(raw_title: &str, url: &str) -> (r: PostText)
    ensures
        r.headline@ == headline_prefix() + entities_decoded(raw_title@),
        r.markdown@ == "["@ + entities_decoded(raw_title@) + "]( "@ + url@ + " )"@,
{
    let title = decode_entities(raw_title);
    PostText { headline: post_headline(title.as_str()), markdown: post_markdown(title.as_str(), url) }
}

} // verus!
