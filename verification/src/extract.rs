//! Deal-row and game-block extraction, and the social-preview image lookup
//! for a fetched detail page.
//!
//! Every missing field degrades to its documented default and never aborts
//! the surrounding block: `"N/A"` for price and discount, `"#"` for a deal
//! link, `"Unknown Store"` when the store heuristic finds nothing,
//! `"Unknown Game"` for a nameless block, and the empty string for a
//! missing historical low.

use vstd::prelude::*;
use crate::text::{
    spec_trim, spec_strip_prefix, trim_chars, strip_prefix_chars, chars_of, string_of, chars_eq,
};
use crate::dom::{
    NodeV, Node, views_of, subtree_end, subtree_end_at, first_styled_in, find_styled, texts_in,
    collect_text, tokens_in, collect_tokens, attr_of, attr_value, parent_of, parent_index,
    is_styled_elem, styled_elem, parsed_doc, parse_document_nodes,
};
use crate::model::{Deal, DealV, RawGame, RawGameV, raw_games_view};

verus! {

/// First token equal to `"on"`, scanning from `i`.
pub open spec fn first_on_from(tokens: Seq<Seq<char>>, i: int) -> Option<int>
    decreases tokens.len() - i,
{
    if i < 0 || i >= tokens.len() {
        None
    } else if tokens[i] == "on"@ {
        Some(i)
    } else {
        first_on_from(tokens, i + 1)
    }
}

/// Store-name heuristic: the token after the first token `"on"`;
/// `"Unknown Store"` when there is no such pair.  The heuristic is coupled
/// to the fixed sentence template `... on STORE_NAME` of the upstream
/// markup; a store name that itself starts with an early token `"on"` is
/// read by the same rule.
pub open spec fn spec_store(tokens: Seq<Seq<char>>) -> Seq<char> {
    match first_on_from(tokens, 0) {
        Some(i) => if i + 1 < tokens.len() {
            tokens[i + 1]
        } else {
            "Unknown Store"@
        },
        None => "Unknown Store"@,
    }
}

/// Exec form of the store heuristic over a token stream.
pub fn store_of_tokens(tokens: &Vec<Vec<char>>) -> (r: Vec<char>)
    ensures
        r@ == spec_store(tokens.deep_view()),
{
    let n = tokens.len();
    let on_word = chars_of("on");
    let mut i: usize = 0;
    while i < n
        invariant
            0 <= i <= n,
            n == tokens@.len(),
            on_word@ == "on"@,
            first_on_from(tokens.deep_view(), 0) == first_on_from(tokens.deep_view(), i as int),
        decreases n - i,
    {
        proof {
            assert(tokens.deep_view()[i as int] == tokens@[i as int]@);
        }
        if chars_eq(&tokens[i], &on_word) {
            if i + 1 < n {
                proof {
                    assert(tokens.deep_view()[i + 1] == tokens@[i + 1]@);
                }
                let mut r: Vec<char> = Vec::new();
                let next = &tokens[i + 1];
                let m = next.len();
                let mut k: usize = 0;
                while k < m
                    invariant
                        0 <= k <= m,
                        m == next@.len(),
                        r@ == next@.subrange(0, k as int),
                    decreases m - k,
                {
                    r.push(next[k]);
                    proof {
                        assert(next@.subrange(0, k + 1 as int) =~= next@.subrange(0, k as int)
                            + seq![next@[k as int]]);
                    }
                    k = k + 1;
                }
                proof {
                    assert(next@.subrange(0, m as int) =~= next@);
                }
                return r;
            } else {
                return chars_of("Unknown Store");
            }
        }
        i = i + 1;
    }
    chars_of("Unknown Store")
}

/// The store heuristic on ready-made string tokens.
pub fn store_from_tokens(tokens: &Vec<String>) -> (r: String)
    ensures
        r@ == spec_store(tokens.deep_view()),
{
    let n = tokens.len();
    let mut cs: Vec<Vec<char>> = Vec::new();
    let mut i: usize = 0;
    while i < n
        invariant
            0 <= i <= n,
            n == tokens@.len(),
            cs.deep_view().len() == i,
            forall|k: int| 0 <= k < i ==> cs.deep_view()[k] == tokens.deep_view()[k],
        decreases n - i,
    {
        cs.push(chars_of(tokens[i].as_str()));
        proof {
            assert(cs.deep_view()[i as int] == tokens@[i as int]@);
            assert(tokens.deep_view()[i as int] == tokens@[i as int]@);
        }
        i = i + 1;
    }
    proof {
        assert(cs.deep_view() =~~= tokens.deep_view());
    }
    let r = store_of_tokens(&cs);
    string_of(&r)
}

/// The deal a row denotes, with each missing field at its default.
pub open spec fn spec_deal_of_row(ns: Seq<NodeV>, k: int) -> DealV {
    let hi = subtree_end(ns, k);
    let price_a = first_styled_in(ns, k + 1, hi, "a"@, "font-size:1.1em"@);
    DealV {
        price: match price_a {
            Some(j) => spec_trim(texts_in(ns, j + 1, subtree_end(ns, j))),
            None => "N/A"@,
        },
        discount: match first_styled_in(ns, k + 1, hi, "span"@, "min-width:2.8em"@) {
            Some(j) => spec_trim(texts_in(ns, j + 1, subtree_end(ns, j))),
            None => "N/A"@,
        },
        store: spec_store(tokens_in(ns, k + 1, hi)),
        link: match price_a {
            Some(j) => match attr_of(ns[j], "href"@) {
                Some(h) => h,
                None => "#"@,
            },
            None => "#"@,
        },
    }
}

/// Deal-Row Extractor: one `Deal` from the row subtree rooted at `k`.
pub fn extract_deal(ns: &Vec<Node>, k: usize) -> (r: Deal)
    requires
        k < ns@.len(),
    ensures
        r@ == spec_deal_of_row(views_of(ns@), k as int),
{
    let ghost nv = views_of(ns@);
    let hi = subtree_end_at(ns, k);
    let tag_a = chars_of("a");
    let tag_span = chars_of("span");
    let price_style = chars_of("font-size:1.1em");
    let discount_style = chars_of("min-width:2.8em");
    let href_name = chars_of("href");
    let price_a = find_styled(ns, k + 1, hi, &tag_a, &price_style);
    let price: String;
    let link: String;
    match price_a {
        Some(j) => {
            let jend = subtree_end_at(ns, j);
            let t = collect_text(ns, j + 1, jend);
            let trimmed = trim_chars(&t);
            price = string_of(&trimmed);
            link = match attr_value(&ns[j], &href_name) {
                Some(h) => h,
                None => String::from_str("#"),
            };
            proof {
                assert(nv[j as int] == ns@[j as int]@);
            }
        },
        None => {
            price = String::from_str("N/A");
            link = String::from_str("#");
        },
    }
    let discount: String = match find_styled(ns, k + 1, hi, &tag_span, &discount_style) {
        Some(j) => {
            let jend = subtree_end_at(ns, j);
            let t = collect_text(ns, j + 1, jend);
            let trimmed = trim_chars(&t);
            string_of(&trimmed)
        },
        None => String::from_str("N/A"),
    };
    let tokens = collect_tokens(ns, k + 1, hi);
    let store_chars = store_of_tokens(&tokens);
    let store = string_of(&store_chars);
    Deal { price, discount, store, link }
}

/// The game a block denotes: name and historical low with their defaults,
/// the detail link (empty when absent), and the block's deal rows in
/// document order.
pub open spec fn spec_game_of_block(ns: Seq<NodeV>, i: int) -> RawGameV {
    let hi = subtree_end(ns, i);
    let name_a = first_styled_in(ns, i + 1, hi, "a"@, "font-size:1.2em"@);
    RawGameV {
        name: match name_a {
            Some(j) => texts_in(ns, j + 1, subtree_end(ns, j)),
            None => "Unknown Game"@,
        },
        info_url: match name_a {
            Some(j) => match attr_of(ns[j], "href"@) {
                Some(h) => h,
                None => Seq::empty(),
            },
            None => Seq::empty(),
        },
        historical_low: match first_styled_in(ns, i + 1, hi, "div"@, "font-size: 0.9em"@) {
            Some(j) => spec_trim(
                spec_strip_prefix(texts_in(ns, j + 1, subtree_end(ns, j)), "Historical low: "@),
            ),
            None => Seq::empty(),
        },
        deals: deals_in(ns, i + 1, hi),
    }
}

/// A deal row: a `div` element whose parent is a `div` styled as the deal
/// list container.
pub open spec fn is_deal_row(ns: Seq<NodeV>, k: int) -> bool {
    &&& 0 <= k < ns.len()
    &&& !ns[k].is_text
    &&& ns[k].tag == "div"@
    &&& match parent_of(ns, k) {
        Some(p) => is_styled_elem(ns[p], "div"@, "padding-left:15px"@),
        None => false,
    }
}

/// The deals of the rows in `[lo, hi)`, in document order.
pub open spec fn deals_in(ns: Seq<NodeV>, lo: int, hi: int) -> Seq<DealV>
    decreases hi - lo,
{
    if !(0 <= lo && lo < hi && hi <= ns.len()) {
        Seq::empty()
    } else {
        let rest = deals_in(ns, lo + 1, hi);
        if is_deal_row(ns, lo) {
            seq![spec_deal_of_row(ns, lo)] + rest
        } else {
            rest
        }
    }
}

/// Exec extraction of the deal rows in `[lo, hi)`.
fn extract_deals(ns: &Vec<Node>, lo: usize, hi: usize) -> (r: Vec<Deal>)
    requires
        lo <= hi <= ns@.len(),
    ensures
        crate::model::deals_view(r@) == deals_in(views_of(ns@), lo as int, hi as int),
{
    let ghost nv = views_of(ns@);
    let tag_div = chars_of("div");
    let row_style = chars_of("padding-left:15px");
    let mut r: Vec<Deal> = Vec::new();
    proof {
        assert(crate::model::deals_view(r@) =~= Seq::<DealV>::empty());
    }
    let mut i: usize = lo;
    while i < hi
        invariant
            lo <= i <= hi <= ns@.len(),
            nv == views_of(ns@),
            tag_div@ == "div"@,
            row_style@ == "padding-left:15px"@,
            deals_in(nv, lo as int, hi as int) == crate::model::deals_view(r@) + deals_in(
                nv,
                i as int,
                hi as int,
            ),
        decreases hi - i,
    {
        proof {
            assert(nv[i as int] == ns@[i as int]@);
        }
        let is_row: bool;
        if !ns[i].is_text {
            let t = chars_of(ns[i].tag.as_str());
            if chars_eq(&t, &tag_div) {
                is_row = match parent_index(ns, i) {
                    Some(p) => styled_elem(&ns[p], &tag_div, &row_style),
                    None => false,
                };
                proof {
                    if parent_of(nv, i as int) is Some {
                        let p = parent_of(nv, i as int)->Some_0;
                        assert(nv[p] == ns@[p]@);
                    }
                }
            } else {
                is_row = false;
            }
        } else {
            is_row = false;
        }
        if is_row {
            let ghost old_r = crate::model::deals_view(r@);
            let d = extract_deal(ns, i);
            r.push(d);
            proof {
                assert(crate::model::deals_view(r@) =~= old_r + seq![
                    spec_deal_of_row(nv, i as int),
                ]);
                assert(old_r + (seq![spec_deal_of_row(nv, i as int)] + deals_in(
                    nv,
                    i + 1 as int,
                    hi as int,
                )) =~= (old_r + seq![spec_deal_of_row(nv, i as int)]) + deals_in(
                    nv,
                    i + 1 as int,
                    hi as int,
                ));
            }
        } else {
            proof {
                assert(!is_deal_row(nv, i as int));
            }
        }
        i = i + 1;
    }
    proof {
        assert(crate::model::deals_view(r@) + deals_in(nv, hi as int, hi as int)
            =~= crate::model::deals_view(r@));
    }
    r
}

/// Game-Block Extractor: one `RawGame` from the block subtree rooted at `i`.
pub fn extract_game(ns: &Vec<Node>, i: usize) -> (r: RawGame)
    requires
        i < ns@.len(),
    ensures
        r@ == spec_game_of_block(views_of(ns@), i as int),
{
    let ghost nv = views_of(ns@);
    let hi = subtree_end_at(ns, i);
    let tag_a = chars_of("a");
    let tag_div = chars_of("div");
    let name_style = chars_of("font-size:1.2em");
    let low_style = chars_of("font-size: 0.9em");
    let href_name = chars_of("href");
    let name_a = find_styled(ns, i + 1, hi, &tag_a, &name_style);
    let name: String;
    let info_url: String;
    match name_a {
        Some(j) => {
            let jend = subtree_end_at(ns, j);
            let t = collect_text(ns, j + 1, jend);
            name = string_of(&t);
            info_url = match attr_value(&ns[j], &href_name) {
                Some(h) => h,
                None => String::new(),
            };
            proof {
                assert(nv[j as int] == ns@[j as int]@);
            }
        },
        None => {
            name = String::from_str("Unknown Game");
            info_url = String::new();
        },
    }
    let historical_low: String = match find_styled(ns, i + 1, hi, &tag_div, &low_style) {
        Some(j) => {
            let jend = subtree_end_at(ns, j);
            let t = collect_text(ns, j + 1, jend);
            let label = chars_of("Historical low: ");
            let stripped = strip_prefix_chars(&t, &label);
            let trimmed = trim_chars(&stripped);
            string_of(&trimmed)
        },
        None => String::new(),
    };
    let deals = extract_deals(ns, i + 1, hi);
    RawGame { name, info_url, historical_low, deals }
}

/// The games of the blocks at or past `i`, in document order.
pub open spec fn games_from(ns: Seq<NodeV>, i: int) -> Seq<RawGameV>
    decreases ns.len() - i,
{
    if !(0 <= i && i < ns.len()) {
        Seq::empty()
    } else {
        let rest = games_from(ns, i + 1);
        if is_styled_elem(ns[i], "div"@, "margin-bottom:30px"@) {
            seq![spec_game_of_block(ns, i)] + rest
        } else {
            rest
        }
    }
}

/// All games a document's blocks denote, in document order.
pub open spec fn spec_extract_games(ns: Seq<NodeV>) -> Seq<RawGameV> {
    games_from(ns, 0)
}

/// Game-Block Extractor over a whole document: every block, in document
/// order, extracted independently.
pub fn extract_games(ns: &Vec<Node>) -> (r: Vec<RawGame>)
    ensures
        raw_games_view(r@) == spec_extract_games(views_of(ns@)),
{
    let ghost nv = views_of(ns@);
    let n = ns.len();
    let tag_div = chars_of("div");
    let block_style = chars_of("margin-bottom:30px");
    let mut r: Vec<RawGame> = Vec::new();
    proof {
        assert(raw_games_view(r@) =~= Seq::<RawGameV>::empty());
    }
    let mut i: usize = 0;
    while i < n
        invariant
            0 <= i <= n,
            n == ns@.len(),
            nv == views_of(ns@),
            tag_div@ == "div"@,
            block_style@ == "margin-bottom:30px"@,
            spec_extract_games(nv) == raw_games_view(r@) + games_from(nv, i as int),
        decreases n - i,
    {
        proof {
            assert(nv[i as int] == ns@[i as int]@);
        }
        if styled_elem(&ns[i], &tag_div, &block_style) {
            let ghost old_r = raw_games_view(r@);
            let g = extract_game(ns, i);
            r.push(g);
            proof {
                assert(raw_games_view(r@) =~= old_r + seq![spec_game_of_block(nv, i as int)]);
                assert(old_r + (seq![spec_game_of_block(nv, i as int)] + games_from(
                    nv,
                    i + 1 as int,
                )) =~= (old_r + seq![spec_game_of_block(nv, i as int)]) + games_from(
                    nv,
                    i + 1 as int,
                ));
            }
        }
        i = i + 1;
    }
    r
}

/// What a detail page's markup offers as social-preview image: the
/// `content` attribute of the first `meta` element whose `property`
/// attribute is exactly `og:image`.
pub open spec fn first_og_meta_from(ns: Seq<NodeV>, i: int) -> Option<int>
    decreases ns.len() - i,
{
    if i < 0 || i >= ns.len() {
        None
    } else if !ns[i].is_text && ns[i].tag == "meta"@ && attr_of(ns[i], "property"@) == Some(
        "og:image"@,
    ) {
        Some(i)
    } else {
        first_og_meta_from(ns, i + 1)
    }
}

pub open spec fn spec_meta_image(ns: Seq<NodeV>) -> Option<Seq<char>> {
    match first_og_meta_from(ns, 0) {
        Some(j) => attr_of(ns[j], "content"@),
        None => None,
    }
}

/// The social-preview image URL of a detail page's markup, if any.
pub fn meta_image_of_nodes(ns: &Vec<Node>) -> (r: Option<String>)
    ensures
        match r {
            Some(v) => spec_meta_image(views_of(ns@)) == Some(v@),
            None => spec_meta_image(views_of(ns@)) is None,
        },
{
    let ghost nv = views_of(ns@);
    let n = ns.len();
    let tag_meta = chars_of("meta");
    let property_name = chars_of("property");
    let content_name = chars_of("content");
    let og_image = chars_of("og:image");
    let mut i: usize = 0;
    while i < n
        invariant
            0 <= i <= n,
            n == ns@.len(),
            nv == views_of(ns@),
            tag_meta@ == "meta"@,
            property_name@ == "property"@,
            content_name@ == "content"@,
            og_image@ == "og:image"@,
            first_og_meta_from(nv, 0) == first_og_meta_from(nv, i as int),
        decreases n - i,
    {
        proof {
            assert(nv[i as int] == ns@[i as int]@);
        }
        let mut is_og = false;
        if !ns[i].is_text {
            let t = chars_of(ns[i].tag.as_str());
            if chars_eq(&t, &tag_meta) {
                match attr_value(&ns[i], &property_name) {
                    Some(p) => {
                        let pc = chars_of(p.as_str());
                        is_og = chars_eq(&pc, &og_image);
                    },
                    None => {},
                }
            }
        }
        if is_og {
            return attr_value(&ns[i], &content_name);
        }
        i = i + 1;
    }
    None
}

/// Thumbnail Resolver, markup side: parse a fetched detail page and find
/// its social-preview image URL.  Any shape of page without the tag gives
/// `None`; the caller substitutes the default image.
pub fn image_url_from_page(html: &str) -> (r: Option<String>)
    ensures
        match r {
            Some(v) => spec_meta_image(parsed_doc(html@)) == Some(v@),
            None => spec_meta_image(parsed_doc(html@)) is None,
        },
{
    let ns = parse_document_nodes(html);
    meta_image_of_nodes(&ns)
}

} // verus!

