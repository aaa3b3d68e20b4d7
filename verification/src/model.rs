//! The extracted data: one store's offer for a game, a game as extracted
//! from a single block, and a merged game record ready for ranking.

use vstd::prelude::*;

verus! {

/// One store's current offer: display strings as they stood in the markup
/// (`"N/A"`, `"#"` and `"Unknown Store"` are the documented defaults for
/// missing fields).
#[derive(Debug, Clone, PartialEq, Eq)]
pub struct Deal {
    pub price: String,
    pub discount: String,
    pub store: String,
    pub link: String,
}

pub ghost struct DealV {
    pub price: Seq<char>,
    pub discount: Seq<char>,
    pub store: Seq<char>,
    pub link: Seq<char>,
}

impl View for Deal {
    type V = DealV;

    open spec fn view(&self) -> DealV {
        DealV {
            price: self.price@,
            discount: self.discount@,
            store: self.store@,
            link: self.link@,
        }
    }
}

/// A game as one block describes it, before thumbnail resolution and
/// merging: `info_url` is the detail-page link used only to resolve the
/// thumbnail (empty when absent).
#[derive(Debug, Clone, PartialEq, Eq)]
pub struct RawGame {
    pub name: String,
    pub info_url: String,
    pub historical_low: String,
    pub deals: Vec<Deal>,
}

pub ghost struct RawGameV {
    pub name: Seq<char>,
    pub info_url: Seq<char>,
    pub historical_low: Seq<char>,
    pub deals: Seq<DealV>,
}

impl View for RawGame {
    type V = RawGameV;

    open spec fn view(&self) -> RawGameV {
        RawGameV {
            name: self.name@,
            info_url: self.info_url@,
            historical_low: self.historical_low@,
            deals: self.deals@.map_values(|d: Deal| d@),
        }
    }
}

/// A merged game record: name is its identity, metadata is fixed at first
/// sight, and `deals` grows by appending later occurrences' offers.
#[derive(Debug, Clone, PartialEq, Eq)]
pub struct GameDeals {
    pub name: String,
    pub image_url: String,
    pub historical_low: String,
    pub deals: Vec<Deal>,
}

pub ghost struct GameDealsV {
    pub name: Seq<char>,
    pub image_url: Seq<char>,
    pub historical_low: Seq<char>,
    pub deals: Seq<DealV>,
}

impl View for GameDeals {
    type V = GameDealsV;

    open spec fn view(&self) -> GameDealsV {
        GameDealsV {
            name: self.name@,
            image_url: self.image_url@,
            historical_low: self.historical_low@,
            deals: self.deals@.map_values(|d: Deal| d@),
        }
    }
}

pub open spec fn deals_view(ds: Seq<Deal>) -> Seq<DealV> {
    ds.map_values(|d: Deal| d@)
}

pub open spec fn games_view(gs: Seq<GameDeals>) -> Seq<GameDealsV> {
    gs.map_values(|g: GameDeals| g@)
}

pub open spec fn raw_games_view(gs: Seq<RawGame>) -> Seq<RawGameV> {
    gs.map_values(|g: RawGame| g@)
}

/// A copy of a deal whose view is the same.
pub fn copy_deal(d: &Deal) -> (r: Deal)
    ensures
        r@ == d@,
{
    Deal {
        price: d.price.clone(),
        discount: d.discount.clone(),
        store: d.store.clone(),
        link: d.link.clone(),
    }
}

/// A copy of a deal vector whose views are the same.
pub fn copy_deals(ds: &Vec<Deal>) -> (r: Vec<Deal>)
    ensures
        deals_view(r@) == deals_view(ds@),
{
    let n = ds.len();
    let mut r: Vec<Deal> = Vec::new();
    let mut i: usize = 0;
    while i < n
        invariant
            0 <= i <= n,
            n == ds@.len(),
            r@.len() == i,
            forall|k: int| 0 <= k < i ==> r@[k]@ == ds@[k]@,
        decreases n - i,
    {
        r.push(copy_deal(&ds[i]));
        i = i + 1;
    }
    proof {
        assert(deals_view(r@) =~= deals_view(ds@));
    }
    r
}

/// A copy of a merged record whose view is the same.
pub fn copy_game(g: &GameDeals) -> (r: GameDeals)
    ensures
        r@ == g@,
{
    GameDeals {
        name: g.name.clone(),
        image_url: g.image_url.clone(),
        historical_low: g.historical_low.clone(),
        deals: copy_deals(&g.deals),
    }
}

} // verus!
