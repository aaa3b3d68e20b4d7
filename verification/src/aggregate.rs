//! Feed aggregation: images are applied to extracted games, and games with
//! the same name are merged into one record, first-seen metadata kept,
//! deals appended in fragment-then-row order.

use vstd::prelude::*;
use crate::model::{
    Deal, RawGame, RawGameV, GameDeals, GameDealsV, deals_view, games_view, raw_games_view,
    copy_deals, copy_game,
};

verus! {

/// The fixed image used whenever no thumbnail could be resolved.
pub open spec fn spec_default_image() -> Seq<char> {
    "https://i.imgur.com/v4ChE6O.jpeg"@
}

pub fn default_image_url() -> (r: String)
    ensures
        r@ == spec_default_image(),
{
    String::from_str("https://i.imgur.com/v4ChE6O.jpeg")
}

/// The merged record an extracted game becomes when paired with its
/// resolved thumbnail: `None` (or no resolution at all) falls back to the
/// default image.
pub open spec fn spec_with_image(g: RawGameV, img: Option<Seq<char>>) -> GameDealsV {
    GameDealsV {
        name: g.name,
        image_url: match img {
            Some(u) => u,
            None => spec_default_image(),
        },
        historical_low: g.historical_low,
        deals: g.deals,
    }
}

/// Games paired index-wise with their resolved thumbnails.
pub open spec fn spec_apply_images(gs: Seq<RawGameV>, imgs: Seq<Option<Seq<char>>>) -> Seq<
    GameDealsV,
>
    recommends
        imgs.len() == gs.len(),
{
    Seq::new(gs.len(), |i: int| spec_with_image(gs[i], if 0 <= i < imgs.len() {
        imgs[i]
    } else {
        None
    }))
}

/// Pair each extracted game with its resolved thumbnail, the default image
/// standing in for every failed or skipped resolution.
pub fn apply_images(gs: &Vec<RawGame>, imgs: &Vec<Option<String>>) -> (r: Vec<GameDeals>)
    requires
        imgs@.len() == gs@.len(),
    ensures
        games_view(r@) == spec_apply_images(raw_games_view(gs@), imgs.deep_view()),
{
    let n = gs.len();
    let mut r: Vec<GameDeals> = Vec::new();
    let mut i: usize = 0;
    while i < n
        invariant
            0 <= i <= n,
            n == gs@.len() == imgs@.len(),
            r@.len() == i,
            forall|k: int|
                0 <= k < i ==> r@[k]@ == spec_with_image(
                    raw_games_view(gs@)[k],
                    imgs.deep_view()[k],
                ),
        decreases n - i,
    {
        let g = &gs[i];
        let image_url: String = match &imgs[i] {
            Some(u) => u.clone(),
            None => default_image_url(),
        };
        let merged = GameDeals {
            name: g.name.clone(),
            image_url,
            historical_low: g.historical_low.clone(),
            deals: copy_deals(&g.deals),
        };
        r.push(merged);
        proof {
            assert(raw_games_view(gs@)[i as int] == gs@[i as int]@);
            assert(imgs.deep_view()[i as int] == match imgs@[i as int] {
                Some(u) => Some(u@),
                None => None::<Seq<char>>,
            });
        }
        i = i + 1;
    }
    proof {
        assert(games_view(r@) =~= spec_apply_images(raw_games_view(gs@), imgs.deep_view()));
    }
    r
}

/// First index in `acc` carrying this name, if any.
pub open spec fn find_name_from(acc: Seq<GameDealsV>, name: Seq<char>, j: int) -> Option<int>
    decreases acc.len() - j,
{
    if j < 0 || j >= acc.len() {
        None
    } else if acc[j].name == name {
        Some(j)
    } else {
        find_name_from(acc, name, j + 1)
    }
}

/// One aggregation step: a new name is appended as it stands; a seen name
/// appends its deals to the existing record and leaves the record's
/// metadata untouched.
pub open spec fn spec_merge_one(acc: Seq<GameDealsV>, g: GameDealsV) -> Seq<GameDealsV> {
    match find_name_from(acc, g.name, 0) {
        Some(j) => acc.update(
            j,
            GameDealsV {
                name: acc[j].name,
                image_url: acc[j].image_url,
                historical_low: acc[j].historical_low,
                deals: acc[j].deals + g.deals,
            },
        ),
        None => acc.push(g),
    }
}

/// Feed Aggregator: fold every game, in order, into the insertion-ordered
/// mapping from name to merged record.
pub open spec fn spec_merge(gs: Seq<GameDealsV>) -> Seq<GameDealsV>
    decreases gs.len(),
{
    if gs.len() == 0 {
        Seq::empty()
    } else {
        spec_merge_one(spec_merge(gs.drop_last()), gs.last())
    }
}

proof fn lemma_find_name_from(acc: Seq<GameDealsV>, name: Seq<char>, j: int)
    requires
        0 <= j,
    ensures
        match find_name_from(acc, name, j) {
            Some(i) => j <= i < acc.len() && acc[i].name == name,
            None => forall|k: int| j <= k < acc.len() ==> (#[trigger] acc[k]).name != name,
        },
    decreases acc.len() - j,
{
    if j < acc.len() && acc[j].name != name {
        lemma_find_name_from(acc, name, j + 1);
    }
}

/// No two records of the sequence share a name.
pub open spec fn names_unique(s: Seq<GameDealsV>) -> bool {
    forall|i: int, j: int| 0 <= i < j < s.len() ==> (#[trigger] s[i]).name != (#[trigger] s[j]).name
}

proof fn lemma_merge_one_unique(acc: Seq<GameDealsV>, g: GameDealsV)
    requires
        names_unique(acc),
    ensures
        names_unique(spec_merge_one(acc, g)),
{
    lemma_find_name_from(acc, g.name, 0);
    match find_name_from(acc, g.name, 0) {
        Some(j) => {
            let r = spec_merge_one(acc, g);
            assert forall|i: int, k: int| 0 <= i < k < r.len() implies (#[trigger] r[i]).name
                != (#[trigger] r[k]).name by {
                assert(r[i].name == acc[i].name && r[k].name == acc[k].name);
            }
        },
        None => {
            let r = acc.push(g);
            assert forall|i: int, k: int| 0 <= i < k < r.len() implies (#[trigger] r[i]).name
                != (#[trigger] r[k]).name by {
                if k == acc.len() {
                    assert(r[i] == acc[i] && r[k] == g);
                } else {
                    assert(r[i] == acc[i] && r[k] == acc[k]);
                }
            }
        },
    }
}

/// One aggregation pass never yields two records with the same name: the
/// mapping from name to record is honest for its whole lifetime.
pub proof fn lemma_merge_names_unique(gs: Seq<GameDealsV>)
    ensures
        names_unique(spec_merge(gs)),
    decreases gs.len(),
{
    if gs.len() > 0 {
        lemma_merge_names_unique(gs.drop_last());
        lemma_merge_one_unique(spec_merge(gs.drop_last()), gs.last());
    }
}

/// Exec search for a name in the accumulator.
fn find_game_index(acc: &Vec<GameDeals>, name: &String) -> (r: Option<usize>)
    ensures
        match r {
            Some(j) => find_name_from(games_view(acc@), name@, 0) == Some(j as int) && j
                < acc@.len(),
            None => find_name_from(games_view(acc@), name@, 0) is None,
        },
{
    let n = acc.len();
    let mut j: usize = 0;
    while j < n
        invariant
            0 <= j <= n,
            n == acc@.len(),
            find_name_from(games_view(acc@), name@, 0) == find_name_from(
                games_view(acc@),
                name@,
                j as int,
            ),
        decreases n - j,
    {
        proof {
            assert(games_view(acc@)[j as int] == acc@[j as int]@);
        }
        if acc[j].name.eq(name) {
            return Some(j);
        }
        j = j + 1;
    }
    None
}

/// Append `extra` deals to the record at `j`, leaving everything else as
/// it stands.
fn append_deals_at(acc: Vec<GameDeals>, j: usize, extra: &Vec<Deal>) -> (r: Vec<GameDeals>)
    requires
        j < acc@.len(),
    ensures
        games_view(r@) == games_view(acc@).update(
            j as int,
            (GameDealsV {
                name: acc@[j as int]@.name,
                image_url: acc@[j as int]@.image_url,
                historical_low: acc@[j as int]@.historical_low,
                deals: acc@[j as int]@.deals + deals_view(extra@),
            }),
        ),
{
    let n = acc.len();
    let mut r: Vec<GameDeals> = Vec::new();
    let mut i: usize = 0;
    while i < n
        invariant
            0 <= i <= n,
            j < n,
            n == acc@.len(),
            r@.len() == i,
            forall|k: int| 0 <= k < i && k != j ==> r@[k]@ == acc@[k]@,
            j < i ==> r@[j as int]@ == (GameDealsV {
                name: acc@[j as int]@.name,
                image_url: acc@[j as int]@.image_url,
                historical_low: acc@[j as int]@.historical_low,
                deals: acc@[j as int]@.deals + deals_view(extra@),
            }),
        decreases n - i,
    {
        if i == j {
            let mut deals = copy_deals(&acc[i].deals);
            let mut extra_copy = copy_deals(extra);
            let ghost deals0 = deals_view(deals@);
            deals.append(&mut extra_copy);
            proof {
                assert(deals_view(deals@) =~= acc@[j as int]@.deals + deals_view(extra@));
            }
            r.push(GameDeals {
                name: acc[i].name.clone(),
                image_url: acc[i].image_url.clone(),
                historical_low: acc[i].historical_low.clone(),
                deals,
            });
        } else {
            r.push(copy_game(&acc[i]));
        }
        i = i + 1;
    }
    proof {
        assert(games_view(r@) =~= games_view(acc@).update(
            j as int,
            (GameDealsV {
                name: acc@[j as int]@.name,
                image_url: acc@[j as int]@.image_url,
                historical_low: acc@[j as int]@.historical_low,
                deals: acc@[j as int]@.deals + deals_view(extra@),
            }),
        ));
    }
    r
}

/// Feed Aggregator, exec side: merge same-named games, preserving
/// first-seen metadata and first-insertion order.
pub fn merge_games(gs: &Vec<GameDeals>) -> (r: Vec<GameDeals>)
    ensures
        games_view(r@) == spec_merge(games_view(gs@)),
{
    let n = gs.len();
    let mut acc: Vec<GameDeals> = Vec::new();
    proof {
        assert(games_view(gs@).subrange(0, 0) =~= Seq::<GameDealsV>::empty());
        assert(games_view(acc@) =~= Seq::<GameDealsV>::empty());
    }
    let mut i: usize = 0;
    while i < n
        invariant
            0 <= i <= n,
            n == gs@.len(),
            games_view(acc@) == spec_merge(games_view(gs@).subrange(0, i as int)),
        decreases n - i,
    {
        let g = &gs[i];
        proof {
            assert(games_view(gs@)[i as int] == gs@[i as int]@);
            assert(games_view(gs@).subrange(0, i + 1 as int).drop_last() =~= games_view(
                gs@,
            ).subrange(0, i as int));
        }
        match find_game_index(&acc, &g.name) {
            Some(j) => {
                acc = append_deals_at(acc, j, &g.deals);
            },
            None => {
                acc.push(copy_game(g));
                proof {
                    assert(games_view(acc@) =~= spec_merge(
                        games_view(gs@).subrange(0, i as int),
                    ).push(gs@[i as int]@));
                }
            },
        }
        i = i + 1;
    }
    proof {
        assert(games_view(gs@).subrange(0, n as int) =~= games_view(gs@));
    }
    acc
}

} // verus!
