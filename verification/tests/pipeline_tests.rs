use dealfeed::aggregate::{apply_images, default_image_url, merge_games};
use dealfeed::extract::{image_url_from_page, store_from_tokens};
use dealfeed::model::{Deal, GameDeals};
use dealfeed::pipeline::{assemble, descriptions_of, extract_from_fragments, title_url, FeedItem};
use dealfeed::price::parse_price_cents;
use dealfeed::rank::{min_price_cents, rank_games};

fn deal(price: &str, store: &str) -> Deal {
    Deal {
        price: price.to_string(),
        discount: "-50%".to_string(),
        store: store.to_string(),
        link: "https://example.test/offer".to_string(),
    }
}

fn game(name: &str, prices: &[&str]) -> GameDeals {
    GameDeals {
        name: name.to_string(),
        image_url: "https://example.test/img.jpeg".to_string(),
        historical_low: "R$ 10,00".to_string(),
        deals: prices.iter().map(|p| deal(p, "Steam")).collect(),
    }
}

const FRAGMENT: &str = "\
<div style='margin-bottom:30px'>\
<a style='font-size:1.2em' href='https://example.test/hades'>Hades II</a>\
<div style='font-size: 0.9em'>Historical low: R$ 20,00</div>\
<div style='padding-left:15px'>\
<div>\
<a style='font-size:1.1em' href='https://store.test/one'>R$ 29,99</a>\
<span style='min-width:2.8em'>-50%</span> on <em>Steam</em>\
</div>\
</div>\
</div>";

const FRAGMENT_SECOND: &str = "\
<div style='margin-bottom:30px'>\
<a style='font-size:1.2em' href='https://example.test/hades'>Hades II</a>\
<div style='font-size: 0.9em'>Historical low: R$ 18,00</div>\
<div style='padding-left:15px'>\
<div>\
<a style='font-size:1.1em' href='https://store.test/two'>R$ 24,99</a>\
<span style='min-width:2.8em'>-60%</span> on <em>Epic</em>\
</div>\
</div>\
</div>";

#[test]
fn price_locale_format() {
    assert_eq!(parse_price_cents("R$ 1.234,56"), Some(123456));
}

#[test]
fn price_not_available() {
    assert_eq!(parse_price_cents("N/A"), None);
}

#[test]
fn price_empty() {
    assert_eq!(parse_price_cents(""), None);
}

#[test]
fn price_plain_and_thousands() {
    assert_eq!(parse_price_cents("R$ 59,99"), Some(5999));
    assert_eq!(parse_price_cents("1.234"), Some(123400));
    assert_eq!(parse_price_cents("R$ 0,5"), Some(50));
}

#[test]
fn price_garbage() {
    assert_eq!(parse_price_cents("free"), None);
    assert_eq!(parse_price_cents("R$ 1,2,3"), None);
}

#[test]
fn store_after_on_token() {
    let tokens = vec![
        "Best".to_string(),
        "price".to_string(),
        "on".to_string(),
        "Steam".to_string(),
    ];
    assert_eq!(store_from_tokens(&tokens), "Steam");
}

#[test]
fn store_without_on_token() {
    let tokens = vec!["Best".to_string(), "price".to_string(), "anywhere".to_string()];
    assert_eq!(store_from_tokens(&tokens), "Unknown Store");
}

#[test]
fn store_with_trailing_on_token() {
    let tokens = vec!["price".to_string(), "on".to_string()];
    assert_eq!(store_from_tokens(&tokens), "Unknown Store");
}

#[test]
fn empty_document_yields_no_games() {
    let frags = vec!["".to_string()];
    let games = extract_from_fragments(&frags);
    assert!(games.is_empty());
}

#[test]
fn fragment_extraction_reads_markup() {
    let frags = vec![FRAGMENT.to_string()];
    let games = extract_from_fragments(&frags);
    assert_eq!(games.len(), 1);
    let g = &games[0];
    assert_eq!(g.name, "Hades II");
    assert_eq!(g.info_url, "https://example.test/hades");
    assert_eq!(g.historical_low, "R$ 20,00");
    assert_eq!(g.deals.len(), 1);
    assert_eq!(g.deals[0].price, "R$ 29,99");
    assert_eq!(g.deals[0].link, "https://store.test/one");
    assert_eq!(g.deals[0].discount, "-50%");
    assert_eq!(g.deals[0].store, "Steam");
}

#[test]
fn row_without_price_anchor_gets_defaults() {
    let html = "\
<div style='margin-bottom:30px'>\
<div style='padding-left:15px'><div>nothing for sale here</div></div>\
</div>";
    let frags = vec![html.to_string()];
    let games = extract_from_fragments(&frags);
    assert_eq!(games.len(), 1);
    let g = &games[0];
    assert_eq!(g.name, "Unknown Game");
    assert_eq!(g.historical_low, "");
    assert_eq!(g.deals.len(), 1);
    assert_eq!(g.deals[0].price, "N/A");
    assert_eq!(g.deals[0].link, "#");
    assert_eq!(g.deals[0].discount, "N/A");
    assert_eq!(g.deals[0].store, "Unknown Store");
}

#[test]
fn duplicate_games_merge_in_fragment_order() {
    let frags = vec![FRAGMENT.to_string(), FRAGMENT_SECOND.to_string()];
    let games = extract_from_fragments(&frags);
    assert_eq!(games.len(), 2);
    let images = vec![None, None];
    let merged = assemble(&games, &images);
    assert_eq!(merged.len(), 1);
    let g = &merged[0];
    assert_eq!(g.name, "Hades II");
    // first-seen metadata wins
    assert_eq!(g.historical_low, "R$ 20,00");
    // deals concatenate in fragment-then-row order
    assert_eq!(g.deals.len(), 2);
    assert_eq!(g.deals[0].price, "R$ 29,99");
    assert_eq!(g.deals[0].store, "Steam");
    assert_eq!(g.deals[1].price, "R$ 24,99");
    assert_eq!(g.deals[1].store, "Epic");
}

#[test]
fn merge_keeps_first_image_and_low() {
    let mut a = game("Celeste", &["R$ 5,00"]);
    a.image_url = "https://example.test/first.jpeg".to_string();
    a.historical_low = "R$ 4,00".to_string();
    let mut b = game("Celeste", &["R$ 6,00"]);
    b.image_url = "https://example.test/second.jpeg".to_string();
    b.historical_low = "R$ 3,00".to_string();
    let merged = merge_games(&vec![a, b]);
    assert_eq!(merged.len(), 1);
    assert_eq!(merged[0].image_url, "https://example.test/first.jpeg");
    assert_eq!(merged[0].historical_low, "R$ 4,00");
    assert_eq!(merged[0].deals.len(), 2);
}

#[test]
fn ranking_orders_by_cheapest_deal() {
    let gs = vec![
        game("Mid", &["R$ 29,99"]),
        game("Unpriced", &["N/A"]),
        game("Cheap", &["R$ 9,99", "R$ 59,99"]),
    ];
    let ranked = rank_games(&gs);
    let names: Vec<&str> = ranked.iter().map(|g| g.name.as_str()).collect();
    assert_eq!(names, vec!["Cheap", "Mid", "Unpriced"]);
}

#[test]
fn ranking_keeps_order_of_unpriced_games() {
    let gs = vec![
        game("First Unpriced", &["N/A"]),
        game("Priced", &["R$ 1,00"]),
        game("Second Unpriced", &[]),
    ];
    let ranked = rank_games(&gs);
    let names: Vec<&str> = ranked.iter().map(|g| g.name.as_str()).collect();
    assert_eq!(names, vec!["Priced", "First Unpriced", "Second Unpriced"]);
}

#[test]
fn min_price_ignores_unparseable() {
    let g = game("Mixed", &["N/A", "R$ 12,34", "free", "R$ 56,78"]);
    assert_eq!(min_price_cents(&g), Some(1234));
}

#[test]
fn min_price_empty_is_none() {
    let g = game("Empty", &[]);
    assert_eq!(min_price_cents(&g), None);
}

#[test]
fn pipeline_runs_identically_twice() {
    let frags = vec![FRAGMENT.to_string(), FRAGMENT_SECOND.to_string()];
    let first_games = extract_from_fragments(&frags);
    let second_games = extract_from_fragments(&frags);
    assert_eq!(first_games, second_games);
    let images = vec![Some("https://example.test/thumb.jpeg".to_string()); first_games.len()];
    let first_out = assemble(&first_games, &images);
    let second_out = assemble(&second_games, &images);
    assert_eq!(first_out, second_out);
}

#[test]
fn failed_thumbnail_falls_back_to_default_image() {
    let frags = vec![FRAGMENT.to_string()];
    let games = extract_from_fragments(&frags);
    // a failed fetch hands the pipeline no image for that game
    let images = vec![None];
    let out = assemble(&games, &images);
    assert_eq!(out.len(), 1);
    assert_eq!(out[0].image_url, "https://i.imgur.com/v4ChE6O.jpeg");
    assert_eq!(out[0].image_url, default_image_url());
}

#[test]
fn resolved_thumbnail_is_kept() {
    let frags = vec![FRAGMENT.to_string()];
    let games = extract_from_fragments(&frags);
    let images = vec![Some("https://cdn.test/cover.jpeg".to_string())];
    let out = apply_images(&games, &images);
    assert_eq!(out[0].image_url, "https://cdn.test/cover.jpeg");
}

#[test]
fn meta_image_found() {
    let page = "<html><head>\
<meta property='og:title' content='A Game'>\
<meta property='og:image' content='https://cdn.test/social.jpeg'>\
</head><body></body></html>";
    assert_eq!(
        image_url_from_page(page),
        Some("https://cdn.test/social.jpeg".to_string())
    );
}

#[test]
fn meta_image_missing_tag() {
    let page = "<html><head><title>No preview</title></head><body></body></html>";
    assert_eq!(image_url_from_page(page), None);
}

#[test]
fn meta_image_missing_content_attribute() {
    let page = "<html><head><meta property='og:image'></head><body></body></html>";
    assert_eq!(image_url_from_page(page), None);
}

#[test]
fn descriptions_take_only_the_window() {
    let items = vec![
        FeedItem {
            link: Some("https://feed.test/a".to_string()),
            description: Some(FRAGMENT.to_string()),
        },
        FeedItem {
            link: Some("https://feed.test/b".to_string()),
            description: Some(FRAGMENT_SECOND.to_string()),
        },
    ];
    let frags = descriptions_of(&items, dealfeed::pipeline::FEED_ITEM_WINDOW);
    assert_eq!(frags.len(), 1);
    assert_eq!(frags[0], FRAGMENT);
}

#[test]
fn descriptions_skip_missing() {
    let items = vec![
        FeedItem { link: None, description: None },
        FeedItem {
            link: None,
            description: Some("<p>hi</p>".to_string()),
        },
    ];
    let frags = descriptions_of(&items, 2);
    assert_eq!(frags.len(), 1);
    assert_eq!(frags[0], "<p>hi</p>");
}

#[test]
fn title_url_prefers_first_item_link() {
    let items = vec![FeedItem {
        link: Some("https://feed.test/item".to_string()),
        description: None,
    }];
    assert_eq!(title_url(&items, "https://feed.test/fallback"), "https://feed.test/item");
    let empty: Vec<FeedItem> = Vec::new();
    assert_eq!(title_url(&empty, "https://feed.test/fallback"), "https://feed.test/fallback");
}

#[test]
fn historical_low_label_is_stripped() {
    let html = "\
<div style='margin-bottom:30px'>\
<a style='font-size:1.2em' href='https://example.test/g'>Game</a>\
<div style='font-size: 0.9em'>Historical low: R$ 2,50  </div>\
</div>";
    let frags = vec![html.to_string()];
    let games = extract_from_fragments(&frags);
    assert_eq!(games.len(), 1);
    assert_eq!(games[0].historical_low, "R$ 2,50");
    assert!(games[0].deals.is_empty());
}

#[test]
fn historical_low_label_is_stripped_only_once() {
    let html = "\
<div style='margin-bottom:30px'>\
<a style='font-size:1.2em' href='https://example.test/g'>Game</a>\
<div style='font-size: 0.9em'>Historical low: Historical low: </div>\
</div>";
    let frags = vec![html.to_string()];
    let games = extract_from_fragments(&frags);
    assert_eq!(games.len(), 1);
    assert_eq!(games[0].historical_low, "Historical low:");
}

#[test]
fn historical_low_without_leading_label_is_only_trimmed() {
    let html = "\
<div style='margin-bottom:30px'>\
<a style='font-size:1.2em' href='https://example.test/g'>Game</a>\
<div style='font-size: 0.9em'>  lowest ever: R$ 1,00  </div>\
</div>";
    let frags = vec![html.to_string()];
    let games = extract_from_fragments(&frags);
    assert_eq!(games.len(), 1);
    assert_eq!(games[0].historical_low, "lowest ever: R$ 1,00");
}

#[test]
fn price_with_nonbreaking_space() {
    assert_eq!(parse_price_cents("R$\u{a0}1.234,56"), Some(123456));
}

#[test]
fn store_token_trimmed_of_nonbreaking_space() {
    let html = "\
<div style='margin-bottom:30px'>\
<a style='font-size:1.2em' href='https://example.test/g'>Game</a>\
<div style='padding-left:15px'>\
<div>\
<a style='font-size:1.1em' href='https://store.test/nb'>R$ 3,00</a>\
<span style='min-width:2.8em'>-10%</span>&nbsp;on&nbsp;<em>GOG</em>\
</div>\
</div>\
</div>";
    let frags = vec![html.to_string()];
    let games = extract_from_fragments(&frags);
    assert_eq!(games.len(), 1);
    assert_eq!(games[0].deals.len(), 1);
    assert_eq!(games[0].deals[0].store, "GOG");
}
