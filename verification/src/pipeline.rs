//! The full extraction pipeline over feed items, and the feed-level
//! helpers: which item descriptions are processed, and the title link.
//!
//! One request is one run: fragments in, ranked `GameDeals` out.  The
//! caller fetches the feed, resolves one thumbnail per extracted game (or
//! resolves none), and renders the result; everything in between is here.

use vstd::prelude::*;
use crate::dom::parsed_doc;
use crate::extract::{spec_extract_games, extract_games};
use crate::dom::parse_document_nodes;
use crate::model::{RawGame, RawGameV, GameDeals, GameDealsV, games_view, raw_games_view};
use crate::aggregate::{spec_apply_images, spec_merge, apply_images, merge_games};
use crate::rank::{spec_rank, rank_games, ranked_by_key};

verus! {

/// How many feed items of the channel are processed.
pub const FEED_ITEM_WINDOW: usize = 1;

/// One feed item as the caller hands it over: its link and its
/// description, either of which the feed may omit.
pub struct FeedItem {
    pub link: Option<String>,
    pub description: Option<String>,
}

pub ghost struct FeedItemV {
    pub link: Option<Seq<char>>,
    pub description: Option<Seq<char>>,
}

impl View for FeedItem {
    type V = FeedItemV;

    open spec fn view(&self) -> FeedItemV {
        FeedItemV {
            link: match self.link {
                Some(ref l) => Some(l@),
                None => None,
            },
            description: match self.description {
                Some(ref d) => Some(d@),
                None => None,
            },
        }
    }
}

pub open spec fn feed_items_view(items: Seq<FeedItem>) -> Seq<FeedItemV> {
    items.map_values(|it: FeedItem| it@)
}

/// The description fragments of the first `limit` items, present ones
/// only, in feed order.
pub open spec fn spec_descriptions(items: Seq<FeedItemV>, limit: int) -> Seq<Seq<char>>
    decreases limit,
{
    if limit <= 0 || items.len() == 0 {
        Seq::empty()
    } else {
        let rest = spec_descriptions(items.drop_first(), limit - 1);
        match items[0].description {
            Some(d) => seq![d] + rest,
            None => rest,
        }
    }
}

/// Exec selection of the processed fragments.
pub fn descriptions_of(items: &Vec<FeedItem>, limit: usize) -> (r: Vec<String>)
    ensures
        r.deep_view() == spec_descriptions(feed_items_view(items@), limit as int),
{
    let n = items.len();
    let mut r: Vec<String> = Vec::new();
    proof {
        assert(r.deep_view() =~~= Seq::<Seq<char>>::empty());
        assert(feed_items_view(items@).skip(0) =~= feed_items_view(items@));
        assert(Seq::<Seq<char>>::empty() + spec_descriptions(feed_items_view(items@), limit as int)
            =~= spec_descriptions(feed_items_view(items@), limit as int));
    }
    let mut i: usize = 0;
    let upto = if limit < n {
        limit
    } else {
        n
    };
    while i < upto
        invariant
            0 <= i <= upto <= n,
            upto == if limit < n {
                limit as int
            } else {
                n as int
            },
            n == items@.len(),
            spec_descriptions(feed_items_view(items@), limit as int) == r.deep_view()
                + spec_descriptions(
                feed_items_view(items@).skip(i as int),
                limit - i,
            ),
        decreases upto - i,
    {
        let ghost itv = feed_items_view(items@);
        proof {
            assert(itv.skip(i as int)[0] == items@[i as int]@);
            assert(itv.skip(i as int).drop_first() =~= itv.skip(i + 1 as int));
        }
        match &items[i].description {
            Some(d) => {
                let ghost old_r = r.deep_view();
                r.push(d.clone());
                proof {
                    assert(r.deep_view() =~~= old_r + seq![items@[i as int]@.description->0]);
                    assert(old_r + (seq![items@[i as int]@.description->0]
                        + spec_descriptions(itv.skip(i + 1 as int), limit - i - 1)) =~= (old_r
                        + seq![items@[i as int]@.description->0]) + spec_descriptions(
                        itv.skip(i + 1 as int),
                        limit - i - 1,
                    ));
                }
            },
            None => {},
        }
        i = i + 1;
    }
    proof {
        let ghost itv = feed_items_view(items@);
        if i < n {
            // the window closed: limit == i
            assert(spec_descriptions(itv.skip(i as int), 0) =~= Seq::<Seq<char>>::empty());
        } else {
            assert(itv.skip(i as int).len() == 0);
        }
        assert(r.deep_view() + Seq::<Seq<char>>::empty() =~~= r.deep_view());
    }
    r
}

/// The link shown as the widget title: the first item's, or the fallback.
pub open spec fn spec_title_url(items: Seq<FeedItemV>, fallback: Seq<char>) -> Seq<char> {
    if items.len() > 0 && items[0].link is Some {
        items[0].link->0
    } else {
        fallback
    }
}

pub fn title_url(items: &Vec<FeedItem>, fallback: &str) -> (r: String)
    ensures
        r@ == spec_title_url(feed_items_view(items@), fallback@),
{
    if items.len() > 0 {
        proof {
            assert(feed_items_view(items@)[0] == items@[0]@);
        }
        match &items[0].link {
            Some(l) => l.clone(),
            None => fallback.to_owned(),
        }
    } else {
        fallback.to_owned()
    }
}

/// All games the fragments' blocks denote, fragment order first, document
/// order within a fragment.
pub open spec fn spec_fragment_games(frags: Seq<Seq<char>>) -> Seq<RawGameV>
    decreases frags.len(),
{
    if frags.len() == 0 {
        Seq::empty()
    } else {
        spec_fragment_games(frags.drop_last()) + spec_extract_games(parsed_doc(frags.last()))
    }
}

/// Run the Game-Block Extractor over every fragment, concatenating in
/// fragment order.
pub fn extract_from_fragments(frags: &Vec<String>) -> (r: Vec<RawGame>)
    ensures
        raw_games_view(r@) == spec_fragment_games(frags.deep_view()),
{
    let n = frags.len();
    let mut r: Vec<RawGame> = Vec::new();
    proof {
        assert(frags.deep_view().subrange(0, 0) =~~= Seq::<Seq<char>>::empty());
        assert(raw_games_view(r@) =~= Seq::<RawGameV>::empty());
    }
    let mut i: usize = 0;
    while i < n
        invariant
            0 <= i <= n,
            n == frags@.len(),
            raw_games_view(r@) == spec_fragment_games(frags.deep_view().subrange(0, i as int)),
        decreases n - i,
    {
        let ns = parse_document_nodes(frags[i].as_str());
        let mut games = extract_games(&ns);
        let ghost old_r = raw_games_view(r@);
        r.append(&mut games);
        proof {
            let fv = frags.deep_view();
            assert(fv[i as int] == frags@[i as int]@);
            assert(fv.subrange(0, i + 1 as int).drop_last() =~= fv.subrange(0, i as int));
            assert(fv.subrange(0, i + 1 as int).last() == fv[i as int]);
            assert(raw_games_view(r@) =~= old_r + spec_extract_games(parsed_doc(fv[i as int])));
        }
        i = i + 1;
    }
    proof {
        assert(frags.deep_view().subrange(0, n as int) =~= frags.deep_view());
    }
    r
}

/// What the pipeline's back half denotes: images applied index-wise,
/// same-named games merged, the result ranked.
pub open spec fn spec_assemble(gs: Seq<RawGameV>, imgs: Seq<Option<Seq<char>>>) -> Seq<
    GameDealsV,
> {
    spec_rank(spec_merge(spec_apply_images(gs, imgs)))
}

/// Apply resolved thumbnails, merge, and rank.
pub fn assemble(gs: &Vec<RawGame>, imgs: &Vec<Option<String>>) -> (r: Vec<GameDeals>)
    requires
        imgs@.len() == gs@.len(),
    ensures
        games_view(r@) == spec_assemble(raw_games_view(gs@), imgs.deep_view()),
        ranked_by_key(games_view(r@)),
{
    let with_images = apply_images(gs, imgs);
    let merged = merge_games(&with_images);
    rank_games(&merged)
}

/// What one whole run denotes, as a function of the fragments and the
/// thumbnail responses alone.
pub open spec fn spec_pipeline(frags: Seq<Seq<char>>, imgs: Seq<Option<Seq<char>>>) -> Seq<
    GameDealsV,
> {
    spec_assemble(spec_fragment_games(frags), imgs)
}

/// Two runs over byte-identical fragments and identical thumbnail
/// responses yield identical ordered output: every step of a run is a
/// function of these inputs alone.
pub proof fn lemma_pipeline_deterministic(
    frags: Seq<Seq<char>>,
    imgs: Seq<Option<Seq<char>>>,
    out1: Seq<GameDealsV>,
    out2: Seq<GameDealsV>,
)
    requires
        out1 == spec_pipeline(frags, imgs),
        out2 == spec_pipeline(frags, imgs),
    ensures
        out1 == out2,
{
}

} // verus!
