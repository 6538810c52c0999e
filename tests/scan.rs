use anchor_scan::chain::{AnchorChain, InclusionPolicy};
use anchor_scan::extract::{extract, extract_span, Span};
use anchor_scan::locate::{locate_item, ItemLayout};
use anchor_scan::post::{post_headline, post_markdown, post_text};
use anchor_scan::sample::{pick_listing_position, ITEMS_PER_PAGE, WORKSHOP_MAX_ITEMS};
use anchor_scan::scanner::{find, nth_occurrence, ScanError};

fn chain(tokens: &[&str], policy: InclusionPolicy) -> AnchorChain {
    AnchorChain::new(tokens.iter().map(|t| t.as_bytes().to_vec()).collect(), policy)
}

#[test]
fn find_returns_least_offset_at_or_after_start() {
    let d = b"abcabcabc";
    assert_eq!(find(d, b"bc", 0), Ok(1));
    assert_eq!(find(d, b"bc", 1), Ok(1));
    assert_eq!(find(d, b"bc", 2), Ok(4));
    assert_eq!(find(d, b"abc", 6), Ok(6));
    assert_eq!(find(d, b"abc", 7), Err(ScanError::NotFound));
}

#[test]
fn find_misses_and_bad_input() {
    assert_eq!(find(b"hello", b"xyz", 0), Err(ScanError::NotFound));
    assert_eq!(find(b"hello", b"", 0), Err(ScanError::InvalidInput));
    assert_eq!(find(b"hello", b"o", 5), Err(ScanError::NotFound));
    assert_eq!(find(b"hello", b"o", 99), Err(ScanError::NotFound));
    assert_eq!(find(b"", b"a", 0), Err(ScanError::NotFound));
    assert_eq!(find(b"ab", b"abc", 0), Err(ScanError::NotFound));
}

#[test]
fn find_agrees_with_brute_force_minimum() {
    let d = b"aabaabaaab";
    let n = b"aab";
    for s in 0..=d.len() + 1 {
        let expected = (s..d.len())
            .find(|&o| o + n.len() <= d.len() && &d[o..o + n.len()] == n)
            .ok_or(ScanError::NotFound);
        assert_eq!(find(d, n, s), expected);
    }
}

#[test]
fn nth_occurrence_picks_the_requested_marker() {
    let d = b"xMxxMxxxM";
    assert_eq!(nth_occurrence(d, b"M", 0, 1), Ok(1));
    assert_eq!(nth_occurrence(d, b"M", 0, 2), Ok(4));
    assert_eq!(nth_occurrence(d, b"M", 0, 3), Ok(8));
    assert_eq!(nth_occurrence(d, b"M", 0, 4), Err(ScanError::NotFound));
    assert_eq!(nth_occurrence(d, b"M", 2, 2), Ok(8));
}

#[test]
fn nth_occurrence_does_not_count_overlapping_matches() {
    assert_eq!(nth_occurrence(b"aaaa", b"aa", 0, 2), Ok(2));
    assert_eq!(nth_occurrence(b"aaa", b"aa", 0, 2), Err(ScanError::NotFound));
}

#[test]
fn nth_occurrence_first_equals_find() {
    let d = b"one two one two";
    for s in 0..=d.len() {
        assert_eq!(nth_occurrence(d, b"two", s, 1), find(d, b"two", s));
    }
}

#[test]
fn nth_occurrence_bad_input() {
    assert_eq!(nth_occurrence(b"abc", b"a", 0, 0), Err(ScanError::InvalidInput));
    assert_eq!(nth_occurrence(b"abc", b"", 0, 1), Err(ScanError::InvalidInput));
}

#[test]
fn single_token_chain_matches_find() {
    let d = b"key=value; key=other";
    for s in 0..=d.len() {
        let f = find(d, b"key=", s);
        assert_eq!(chain(&["key="], InclusionPolicy::Start).resolve(d, s), f);
        assert_eq!(chain(&["key="], InclusionPolicy::End).resolve(d, s), f.map(|o| o + 4));
    }
}

#[test]
fn chain_searches_each_token_after_the_previous_match() {
    let d = b"ab cd ab ef cd";
    assert_eq!(chain(&["ab", "cd"], InclusionPolicy::Start).resolve(d, 0), Ok(3));
    assert_eq!(chain(&["ab", "ef", "cd"], InclusionPolicy::Start).resolve(d, 0), Ok(12));
    assert_eq!(chain(&["ab", "ef", "cd"], InclusionPolicy::End).resolve(d, 0), Ok(14));
    assert_eq!(chain(&["ef", "ab"], InclusionPolicy::Start).resolve(d, 0), Err(ScanError::NotFound));
    assert_eq!(chain(&["cd", "cd", "cd"], InclusionPolicy::Start).resolve(d, 0), Err(ScanError::NotFound));
}

#[test]
fn chain_bad_input() {
    let d = b"abc";
    assert_eq!(chain(&[], InclusionPolicy::Start).resolve(d, 0), Err(ScanError::InvalidInput));
    assert_eq!(chain(&["a", ""], InclusionPolicy::End).resolve(d, 0), Err(ScanError::InvalidInput));
    assert!(!chain(&["a", ""], InclusionPolicy::End).is_valid());
    assert!(chain(&["a", "b"], InclusionPolicy::End).is_valid());
}

#[test]
fn extract_workshop_link() {
    let d = b"class=\"workshopItem\">junk https://x/y&z more";
    let start = chain(&["class=\"workshopItem\">", "https"], InclusionPolicy::Start);
    let end = chain(&["&"], InclusionPolicy::Start);
    assert_eq!(extract(d, &start, &end, 0), Ok(&b"https://x/y"[..]));
}

#[test]
fn extract_title_text_between_tags() {
    let d = b"<div class=\"t\">Hello & Bye</div>";
    let start = chain(&["<div class=\"t\">"], InclusionPolicy::End);
    let end = chain(&["</div>"], InclusionPolicy::Start);
    assert_eq!(extract(d, &start, &end, 0), Ok(&b"Hello & Bye"[..]));
    assert_eq!(extract_span(d, &start, &end, 0), Ok(Span { begin: 15, end: 26 }));
}

#[test]
fn extract_missing_end_anchor_is_not_found() {
    let d = b"<div class=\"t\">Hello & Bye";
    let start = chain(&["<div class=\"t\">"], InclusionPolicy::End);
    let end = chain(&["</div>"], InclusionPolicy::Start);
    assert_eq!(extract(d, &start, &end, 0), Err(ScanError::NotFound));
}

#[test]
fn extract_errors() {
    let d = b"<b>x</b>";
    let start = chain(&["<b>"], InclusionPolicy::End);
    let end = chain(&["</b>"], InclusionPolicy::Start);
    assert_eq!(extract(d, &start, &end, 9), Err(ScanError::InvalidInput));
    assert_eq!(extract(d, &start, &end, 8), Err(ScanError::NotFound));
    assert_eq!(extract(d, &chain(&[], InclusionPolicy::End), &end, 0), Err(ScanError::InvalidInput));
    assert_eq!(extract(d, &chain(&["<i>"], InclusionPolicy::End), &end, 0), Err(ScanError::NotFound));
    // An end chain that is its own start gives an empty range, not an error.
    assert_eq!(extract(d, &start, &chain(&["x"], InclusionPolicy::Start), 0), Ok(&b""[..]));
}

#[test]
fn extract_is_deterministic() {
    let d = b"a[1] b[2] c[3]";
    let start = chain(&["b", "["], InclusionPolicy::End);
    let end = chain(&["]"], InclusionPolicy::Start);
    let first = extract(d, &start, &end, 0);
    let second = extract(d, &start, &end, 0);
    assert_eq!(first, second);
    assert_eq!(first, Ok(&b"2"[..]));
}

fn listing_item(n: usize) -> String {
    format!(
        "<div class=\"workshopItem\"><a href=\"https://example.com/item?id={n}&x=1\">\
         <img class=\"workshopItemPreviewImage\" src=\"https://img.example.com/{n}.png?v=2\">\
         </a><div class=\"workshopItemTitle ellipsis\">Item &amp; {n}</div></div>"
    )
}

#[test]
fn locate_item_extracts_fields_in_order() {
    let page: String = (1..=3).map(listing_item).collect();
    let page = page.as_bytes();
    let layout = ItemLayout::workshop_listing();
    let fields = locate_item(page, &layout, 2).unwrap();
    assert_eq!(fields.url.slice(page), b"https://example.com/item?id=2");
    assert_eq!(fields.image.slice(page), b"https://img.example.com/2.png");
    assert_eq!(fields.title.slice(page), b"Item &amp; 2");
    assert!(fields.url.end <= fields.image.begin && fields.image.end <= fields.title.begin);
    assert_eq!(locate_item(page, &layout, 4), Err(ScanError::NotFound));
    assert_eq!(locate_item(page, &layout, 0), Err(ScanError::InvalidInput));
}

#[test]
fn locate_item_fails_without_partial_fields() {
    let page = "<div class=\"workshopItem\"><a href=\"https://example.com/item?id=1&x=1\"></a>";
    let layout = ItemLayout::workshop_listing();
    assert_eq!(locate_item(page.as_bytes(), &layout, 1), Err(ScanError::NotFound));
}

#[test]
fn post_text_decodes_title() {
    assert_eq!(post_headline("A & B"), "L4D2 Workshop Item of the Day: A & B");
    assert_eq!(post_markdown("T", "https://x/y"), "[T]( https://x/y )");
    let post = post_text("Tom &amp; Jerry", "https://x/y");
    assert_eq!(post.headline, "L4D2 Workshop Item of the Day: Tom & Jerry");
    assert_eq!(post.markdown, "[Tom & Jerry]( https://x/y )");
}

#[test]
fn pick_listing_position_stays_in_range() {
    for _ in 0..200 {
        let pick = pick_listing_position();
        assert!(pick.page >= 1 && pick.page <= WORKSHOP_MAX_ITEMS / ITEMS_PER_PAGE + 1);
        assert!(pick.item >= 1 && pick.item <= ITEMS_PER_PAGE);
    }
}
