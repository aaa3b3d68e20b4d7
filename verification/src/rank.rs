//! Ranking: games ordered by their cheapest parseable deal price, games
//! without one last, ties keeping their prior relative order.
//!
//! A price whose value does not fit the machine's price range counts as
//! unparseable, exactly as the executable normaliser reports it.

use vstd::prelude::*;
use crate::price::{spec_price_cents, parse_price_cents};
use crate::model::{DealV, GameDeals, GameDealsV, games_view, copy_game};

verus! {

/// The comparable price of a display string: its cents when they parse and
/// fit the machine range.
pub open spec fn price_key(s: Seq<char>) -> Option<int> {
    match spec_price_cents(s) {
        Some(v) => if 0 <= v && v <= u64::MAX {
            Some(v)
        } else {
            None
        },
        None => None,
    }
}

/// Cheapest comparable price among a game's deals; `None` when no deal has
/// one.
pub open spec fn spec_min_price(deals: Seq<DealV>) -> Option<int>
    decreases deals.len(),
{
    if deals.len() == 0 {
        None
    } else {
        let prev = spec_min_price(deals.drop_last());
        let cur = price_key(deals.last().price);
        match (prev, cur) {
            (Some(p), Some(c)) => Some(if c < p {
                c
            } else {
                p
            }),
            (Some(p), None) => Some(p),
            (None, c) => c,
        }
    }
}

pub open spec fn game_key(g: GameDealsV) -> Option<int> {
    spec_min_price(g.deals)
}

/// Order on ranking keys, a missing price counting as infinite.
pub open spec fn key_le(a: Option<int>, b: Option<int>) -> bool {
    match (a, b) {
        (Some(x), Some(y)) => x <= y,
        (Some(_), None) => true,
        (None, Some(_)) => false,
        (None, None) => true,
    }
}

pub open spec fn opt_cents(o: Option<u64>) -> Option<int> {
    match o {
        Some(v) => Some(v as int),
        None => None,
    }
}

/// Exec computation of a game's cheapest comparable price.
pub fn min_price_cents(g: &GameDeals) -> (r: Option<u64>)
    ensures
        opt_cents(r) == game_key(g@),
{
    let n = g.deals.len();
    let mut acc: Option<u64> = None;
    let mut i: usize = 0;
    while i < n
        invariant
            0 <= i <= n,
            n == g.deals@.len(),
            opt_cents(acc) == spec_min_price(g@.deals.subrange(0, i as int)),
        decreases n - i,
    {
        proof {
            assert(g@.deals.subrange(0, i + 1 as int).drop_last() =~= g@.deals.subrange(
                0,
                i as int,
            ));
            assert(g@.deals[i as int] == g.deals@[i as int]@);
        }
        let cur = parse_price_cents(g.deals[i].price.as_str());
        acc = match (acc, cur) {
            (Some(p), Some(c)) => Some(if c < p {
                c
            } else {
                p
            }),
            (Some(p), None) => Some(p),
            (None, c) => c,
        };
        i = i + 1;
    }
    proof {
        assert(g@.deals.subrange(0, n as int) =~= g@.deals);
    }
    acc
}

fn key_le_exec(a: &Option<u64>, b: &Option<u64>) -> (r: bool)
    ensures
        r == key_le(opt_cents(*a), opt_cents(*b)),
{
    match (a, b) {
        (Some(x), Some(y)) => *x <= *y,
        (Some(_), None) => true,
        (None, Some(_)) => false,
        (None, None) => true,
    }
}

/// Stable insertion of a game behind every game whose key does not exceed
/// its own.
pub open spec fn spec_insert_ranked(g: GameDealsV, s: Seq<GameDealsV>) -> Seq<GameDealsV>
    decreases s.len(),
{
    if s.len() == 0 {
        seq![g]
    } else if key_le(game_key(s[0]), game_key(g)) {
        seq![s[0]] + spec_insert_ranked(g, s.drop_first())
    } else {
        seq![g] + s
    }
}

/// Ranking: the stable sort of the collection by ranking key, defined by
/// insertion in input order.
pub open spec fn spec_rank(s: Seq<GameDealsV>) -> Seq<GameDealsV>
    decreases s.len(),
{
    if s.len() == 0 {
        Seq::empty()
    } else {
        spec_insert_ranked(s.last(), spec_rank(s.drop_last()))
    }
}

/// Every pair of the sequence is ordered by its ranking keys.
pub open spec fn ranked_by_key(s: Seq<GameDealsV>) -> bool {
    forall|i: int, j: int| 0 <= i < j < s.len() ==> key_le(game_key(#[trigger] s[i]), game_key(#[trigger] s[j]))
}

/// Inserting at the scan's stopping point is the recursive insertion.
proof fn lemma_insert_at(g: GameDealsV, s: Seq<GameDealsV>, pos: int)
    requires
        0 <= pos <= s.len(),
        forall|k: int| 0 <= k < pos ==> key_le(game_key(#[trigger] s[k]), game_key(g)),
        pos < s.len() ==> !key_le(game_key(s[pos]), game_key(g)),
    ensures
        spec_insert_ranked(g, s) == s.subrange(0, pos) + seq![g] + s.subrange(
            pos,
            s.len() as int,
        ),
    decreases s.len(),
{
    if s.len() == 0 {
        assert(spec_insert_ranked(g, s) =~= s.subrange(0, pos) + seq![g] + s.subrange(
            pos,
            s.len() as int,
        ));
    } else if pos == 0 {
        assert(s.subrange(0, 0) =~= Seq::<GameDealsV>::empty());
        assert(s.subrange(0, s.len() as int) =~= s);
        assert(spec_insert_ranked(g, s) =~= s.subrange(0, pos) + seq![g] + s.subrange(
            pos,
            s.len() as int,
        ));
    } else {
        let t = s.drop_first();
        assert forall|k: int| 0 <= k < pos - 1 implies key_le(
            game_key(#[trigger] t[k]),
            game_key(g),
        ) by {
            assert(t[k] == s[k + 1]);
        }
        if pos - 1 < t.len() {
            assert(t[pos - 1] == s[pos]);
        }
        lemma_insert_at(g, t, pos - 1);
        assert(spec_insert_ranked(g, s) == seq![s[0]] + (t.subrange(0, pos - 1) + seq![g]
            + t.subrange(pos - 1, t.len() as int)));
        assert(seq![s[0]] + (t.subrange(0, pos - 1) + seq![g] + t.subrange(
            pos - 1,
            t.len() as int,
        )) =~= s.subrange(0, pos) + seq![g] + s.subrange(pos, s.len() as int));
    }
}

/// A lower bound on a sequence and the inserted game bounds the insertion.
proof fn lemma_insert_lower_bound(g: GameDealsV, s: Seq<GameDealsV>, b: Option<int>)
    requires
        key_le(b, game_key(g)),
        forall|i: int| 0 <= i < s.len() ==> key_le(b, game_key(#[trigger] s[i])),
    ensures
        forall|k: int|
            0 <= k < spec_insert_ranked(g, s).len() ==> key_le(
                b,
                game_key(#[trigger] spec_insert_ranked(g, s)[k]),
            ),
    decreases s.len(),
{
    if s.len() == 0 {
    } else if key_le(game_key(s[0]), game_key(g)) {
        assert forall|i: int| 0 <= i < s.drop_first().len() implies key_le(
            b,
            game_key(#[trigger] s.drop_first()[i]),
        ) by {
            assert(s.drop_first()[i] == s[i + 1]);
        }
        lemma_insert_lower_bound(g, s.drop_first(), b);
        assert forall|k: int| 0 <= k < spec_insert_ranked(g, s).len() implies key_le(
            b,
            game_key(#[trigger] spec_insert_ranked(g, s)[k]),
        ) by {
            if k > 0 {
                assert(spec_insert_ranked(g, s)[k] == spec_insert_ranked(g, s.drop_first())[k
                    - 1]);
            }
        }
    } else {
        assert forall|k: int| 0 <= k < spec_insert_ranked(g, s).len() implies key_le(
            b,
            game_key(#[trigger] spec_insert_ranked(g, s)[k]),
        ) by {
            if k > 0 {
                assert(spec_insert_ranked(g, s)[k] == s[k - 1]);
            }
        }
    }
}

/// Insertion keeps the sequence ordered.
proof fn lemma_insert_ranked_sorted(g: GameDealsV, s: Seq<GameDealsV>)
    requires
        ranked_by_key(s),
    ensures
        ranked_by_key(spec_insert_ranked(g, s)),
    decreases s.len(),
{
    if s.len() == 0 {
    } else if key_le(game_key(s[0]), game_key(g)) {
        let t = s.drop_first();
        assert forall|i: int, j: int| 0 <= i < j < t.len() implies key_le(
            game_key(#[trigger] t[i]),
            game_key(#[trigger] t[j]),
        ) by {
            assert(t[i] == s[i + 1] && t[j] == s[j + 1]);
        }
        lemma_insert_ranked_sorted(g, t);
        assert forall|i: int| 0 <= i < t.len() implies key_le(
            game_key(s[0]),
            game_key(#[trigger] t[i]),
        ) by {
            assert(t[i] == s[i + 1]);
        }
        lemma_insert_lower_bound(g, t, game_key(s[0]));
        let r = spec_insert_ranked(g, s);
        assert forall|i: int, j: int| 0 <= i < j < r.len() implies key_le(
            game_key(#[trigger] r[i]),
            game_key(#[trigger] r[j]),
        ) by {
            if i == 0 {
                assert(r[j] == spec_insert_ranked(g, t)[j - 1]);
            } else {
                assert(r[i] == spec_insert_ranked(g, t)[i - 1]);
                assert(r[j] == spec_insert_ranked(g, t)[j - 1]);
            }
        }
    } else {
        let r = spec_insert_ranked(g, s);
        assert forall|i: int, j: int| 0 <= i < j < r.len() implies key_le(
            game_key(#[trigger] r[i]),
            game_key(#[trigger] r[j]),
        ) by {
            if i == 0 {
                assert(r[j] == s[j - 1]);
            } else {
                assert(r[i] == s[i - 1] && r[j] == s[j - 1]);
            }
        }
    }
}

/// Ranking always yields a sequence ordered by ranking keys: cheapest
/// first, games without a parseable price last.
pub proof fn lemma_rank_sorted(s: Seq<GameDealsV>)
    ensures
        ranked_by_key(spec_rank(s)),
    decreases s.len(),
{
    if s.len() > 0 {
        lemma_rank_sorted(s.drop_last());
        lemma_insert_ranked_sorted(s.last(), spec_rank(s.drop_last()));
    }
}

pub open spec fn is_unpriced(g: GameDealsV) -> bool {
    game_key(g) is None
}

/// The subsequence of games without a parseable price, in their order.
pub open spec fn unpriced_of(s: Seq<GameDealsV>) -> Seq<GameDealsV> {
    s.filter(|g: GameDealsV| is_unpriced(g))
}

proof fn lemma_insert_ranked_unpriced(g: GameDealsV, s: Seq<GameDealsV>)
    ensures
        unpriced_of(spec_insert_ranked(g, s)) == if is_unpriced(g) {
            unpriced_of(s) + seq![g]
        } else {
            unpriced_of(s)
        },
    decreases s.len(),
{
    reveal(Seq::filter);
    let pred = (|x: GameDealsV| is_unpriced(x));
    if s.len() == 0 {
        assert(Seq::<GameDealsV>::empty().filter(pred) =~= Seq::<GameDealsV>::empty());
        assert(seq![g].drop_last() =~= Seq::<GameDealsV>::empty());
        assert(seq![g].filter(pred) == if pred(g) {
            Seq::<GameDealsV>::empty().filter(pred).push(g)
        } else {
            Seq::<GameDealsV>::empty().filter(pred)
        });
        if is_unpriced(g) {
            assert(seq![g].filter(pred) =~= unpriced_of(s) + seq![g]);
        } else {
            assert(seq![g].filter(pred) =~= unpriced_of(s));
        }
    } else if key_le(game_key(s[0]), game_key(g)) {
        let rest = s.drop_first();
        lemma_insert_ranked_unpriced(g, rest);
        Seq::filter_distributes_over_add(seq![s[0]], spec_insert_ranked(g, rest), pred);
        Seq::filter_distributes_over_add(seq![s[0]], rest, pred);
        assert(seq![s[0]] + rest =~= s);
        if is_unpriced(g) {
            assert(seq![s[0]].filter(pred) + (rest.filter(pred) + seq![g]) =~= (
            seq![s[0]].filter(pred) + rest.filter(pred)) + seq![g]);
        }
    } else {
        // a game without a price would sink below every key, so here the
        // inserted game has one and the filter drops it
        assert(!is_unpriced(g));
        Seq::filter_distributes_over_add(seq![g], s, pred);
        assert(seq![g].drop_last() =~= Seq::<GameDealsV>::empty());
        assert(Seq::<GameDealsV>::empty().filter(pred) =~= Seq::<GameDealsV>::empty());
        assert(seq![g].filter(pred) =~= Seq::<GameDealsV>::empty());
        assert(Seq::<GameDealsV>::empty() + s.filter(pred) =~= s.filter(pred));
    }
}

proof fn lemma_insert_ranked_multiset(g: GameDealsV, s: Seq<GameDealsV>)
    ensures
        spec_insert_ranked(g, s).to_multiset() == s.to_multiset().insert(g),
    decreases s.len(),
{
    if s.len() == 0 {
        assert(s =~= Seq::<GameDealsV>::empty());
        assert(seq![g] =~= Seq::<GameDealsV>::empty().push(g));
        vstd::seq_lib::to_multiset_build(Seq::<GameDealsV>::empty(), g);
    } else if key_le(game_key(s[0]), game_key(g)) {
        let rest = s.drop_first();
        lemma_insert_ranked_multiset(g, rest);
        assert(seq![s[0]] + spec_insert_ranked(g, rest) =~= spec_insert_ranked(g, rest).insert(
            0,
            s[0],
        ));
        vstd::seq_lib::to_multiset_insert(spec_insert_ranked(g, rest), 0, s[0]);
        assert(s =~= rest.insert(0, s[0]));
        vstd::seq_lib::to_multiset_insert(rest, 0, s[0]);
        assert(rest.to_multiset().insert(g).insert(s[0]) =~= rest.to_multiset().insert(
            s[0],
        ).insert(g));
    } else {
        assert(seq![g] + s =~= s.insert(0, g));
        vstd::seq_lib::to_multiset_insert(s, 0, g);
    }
}

/// Ranking rearranges and never drops, duplicates or alters a record: the
/// output holds exactly the input's records.
pub proof fn lemma_rank_permutes(s: Seq<GameDealsV>)
    ensures
        spec_rank(s).to_multiset() == s.to_multiset(),
    decreases s.len(),
{
    if s.len() > 0 {
        lemma_rank_permutes(s.drop_last());
        lemma_insert_ranked_multiset(s.last(), spec_rank(s.drop_last()));
        assert(s =~= s.drop_last().push(s.last()));
        vstd::seq_lib::to_multiset_build(s.drop_last(), s.last());
    } else {
        assert(s =~= Seq::<GameDealsV>::empty());
    }
}

/// Ranking keeps the relative order of the games without a parseable
/// price: they appear in the output, all at its end, exactly in their
/// input order.
pub proof fn lemma_rank_keeps_unpriced_order(s: Seq<GameDealsV>)
    ensures
        unpriced_of(spec_rank(s)) == unpriced_of(s),
    decreases s.len(),
{
    reveal(Seq::filter);
    let pred = (|x: GameDealsV| is_unpriced(x));
    if s.len() == 0 {
        assert(Seq::<GameDealsV>::empty().filter(pred) =~= Seq::<GameDealsV>::empty());
    } else {
        lemma_rank_keeps_unpriced_order(s.drop_last());
        lemma_insert_ranked_unpriced(s.last(), spec_rank(s.drop_last()));
        if is_unpriced(s.last()) {
            assert(unpriced_of(s.drop_last()).push(s.last()) =~= unpriced_of(s.drop_last())
                + seq![s.last()]);
        }
    }
}

/// Ranking, exec side: a stable insertion sort by cheapest price.
pub fn rank_games(gs: &Vec<GameDeals>) -> (r: Vec<GameDeals>)
    ensures
        games_view(r@) == spec_rank(games_view(gs@)),
        ranked_by_key(games_view(r@)),
{
    let n = gs.len();
    let mut acc: Vec<GameDeals> = Vec::new();
    proof {
        assert(games_view(gs@).subrange(0, 0) =~= Seq::<GameDealsV>::empty());
        assert(games_view(acc@) =~= Seq::<GameDealsV>::empty());
    }
    let mut i: usize = 0;
    while i < n
        invariant
            0 <= i <= n,
            n == gs@.len(),
            games_view(acc@) == spec_rank(games_view(gs@).subrange(0, i as int)),
        decreases n - i,
    {
        let g = &gs[i];
        let gkey = min_price_cents(g);
        let m = acc.len();
        let mut pos: usize = 0;
        let mut stop = false;
        while pos < m && !stop
            invariant
                0 <= pos <= m,
                m == acc@.len(),
                opt_cents(gkey) == game_key(gs@[i as int]@),
                i < gs@.len(),
                forall|k: int|
                    0 <= k < pos ==> key_le(
                        game_key(#[trigger] games_view(acc@)[k]),
                        game_key(gs@[i as int]@),
                    ),
                stop ==> pos < m && !key_le(
                    game_key(games_view(acc@)[pos as int]),
                    game_key(gs@[i as int]@),
                ),
            decreases m - pos + (if stop {
                0int
            } else {
                1int
            }),
        {
            let akey = min_price_cents(&acc[pos]);
            proof {
                assert(games_view(acc@)[pos as int] == acc@[pos as int]@);
            }
            if !key_le_exec(&akey, &gkey) {
                stop = true;
            } else {
                pos = pos + 1;
            }
        }
        let ghost old_acc = games_view(acc@);
        acc.insert(pos, copy_game(g));
        proof {
            if pos < old_acc.len() {
                assert(old_acc[pos as int] == acc@[pos as int + 1]@);
            }
            lemma_insert_at(gs@[i as int]@, old_acc, pos as int);
            assert(games_view(acc@) =~= old_acc.subrange(0, pos as int) + seq![gs@[i as int]@]
                + old_acc.subrange(pos as int, old_acc.len() as int));
            assert(games_view(gs@).subrange(0, i + 1 as int).drop_last() =~= games_view(
                gs@,
            ).subrange(0, i as int));
            assert(games_view(gs@).subrange(0, i + 1 as int).last() == gs@[i as int]@);
        }
        i = i + 1;
    }
    proof {
        assert(games_view(gs@).subrange(0, n as int) =~= games_view(gs@));
        lemma_rank_sorted(games_view(gs@));
    }
    acc
}

} // verus!
