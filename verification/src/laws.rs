//! Properties that relate several operations of the library, or hold of all
//! inputs of one.
use vstd::prelude::*;
use crate::all_markets::{future_market_name, markets_after_repoint};
use crate::pm_portfolio::{pm_order, pm_within, PmView};
use crate::portfolio::key_set_order;
use crate::trade::{add_position, TradeDirection};
use crate::nav::{epoch_millis, is_clock_reading, nav_route_of, utf8_decoding, NavRoute};
use crate::controller_actor::{creation, pruned, Trade};
use crate::processor_setup::is_log_level;
use crate::metric::PricingMetric;

verus! {

/// Comparing two portfolios one way gives the converse of comparing them
/// the other way: equal stays equal, less becomes greater, incomparable
/// stays incomparable.
pub proof fn law_portfolio_order_converse(a: Set<Seq<char>>, b: Set<Seq<char>>)
    ensures
        key_set_order(a, b) == Some(std::cmp::Ordering::Equal) <==> key_set_order(b, a) == Some(std::cmp::Ordering::Equal),
        key_set_order(a, b) == Some(std::cmp::Ordering::Less) <==> key_set_order(b, a) == Some(std::cmp::Ordering::Greater),
        key_set_order(a, b) is None <==> key_set_order(b, a) is None,
{
}

/// A portfolio compares equal to any portfolio with the same trades,
/// whatever the values.
pub proof fn law_portfolio_order_same_trades(a: Set<Seq<char>>)
    ensures
        key_set_order(a, a) == Some(std::cmp::Ordering::Equal),
{
}

/// The empty portfolio comes before every portfolio that holds a trade.
pub proof fn law_empty_portfolio_comes_first(b: Set<Seq<char>>, t: Seq<char>)
    requires
        b.contains(t),
    ensures
        key_set_order(Set::empty(), b) == Some(std::cmp::Ordering::Less),
        key_set_order(b, Set::empty()) == Some(std::cmp::Ordering::Greater),
{
    assert(!b.subset_of(Set::empty()));
}

/// When one metric portfolio is found greater than another, the other is
/// found less than it; when one is less and not within the other, the other
/// is greater.
pub proof fn law_pm_order_converse<V>(a: PmView<V>, b: PmView<V>)
    ensures
        pm_order(a, b) == Some(std::cmp::Ordering::Greater) ==> pm_order(b, a) == Some(std::cmp::Ordering::Less),
        pm_order(a, b) == Some(std::cmp::Ordering::Less) && !pm_within(b, a) ==> pm_order(b, a) == Some(
            std::cmp::Ordering::Greater,
        ),
        pm_order(a, b) is None <==> pm_order(b, a) is None,
{
}

/// A creation of a trade followed by its deletion leaves the aggregated
/// positions as they were, unless the trade's position was at the largest
/// value (the creation cannot count) or at zero (which only an update of an
/// unknown trade leaves, and which the deletion then removes).
pub proof fn law_create_then_delete_restores(m: Map<Seq<char>, i64>, id: Seq<char>)
    requires
        !(m.contains_key(id) && (m[id] == i64::MAX || m[id] == 0)),
    ensures
        add_position(add_position(m, id, TradeDirection::Create), id, TradeDirection::Delete) == m,
{
    let m1 = add_position(m, id, TradeDirection::Create);
    if m.contains_key(id) {
        if m[id] == -1 {
            assert(m1 == m.remove(id));
            assert(!m1.contains_key(id));
            assert(add_position(m1, id, TradeDirection::Delete) == m1.insert(id, -1i64));
            assert(m.remove(id).insert(id, -1i64) =~= m);
        } else {
            assert(m1 == m.insert(id, (m[id] + 1) as i64));
            assert(add_position(m1, id, TradeDirection::Delete) =~= m);
        }
    } else {
        assert(m1 == m.insert(id, 1));
        assert(add_position(m1, id, TradeDirection::Delete) =~= m);
    }
}

/// Pointing a processor at a market never drops the future market, nor a
/// market that another processor still prices on.
pub proof fn law_repoint_keeps_markets_in_use<M>(
    markets: Map<Seq<char>, M>,
    processors: Map<Seq<char>, String>,
    processor: Seq<char>,
    new_market: String,
    kept: Seq<char>,
    other: Seq<char>,
)
    requires
        markets.contains_key(kept),
        kept == future_market_name() || kept == new_market@ || (other != processor && processors.contains_key(other)
            && processors[other]@ == kept),
    ensures
        markets_after_repoint(markets, processors, processor, new_market).contains_key(kept),
{
    if processors.contains_key(processor) {
        let old_market = processors[processor];
        if kept == old_market@ && old_market@ != new_market@ && old_market@ != future_market_name() {
            let after = processors.insert(processor, new_market);
            assert(after.contains_key(other) && after[other]@ == kept);
        }
    }
}

/// Creations and deletions never leave a position at zero: a position that
/// reaches zero is dropped, and a new trade starts at plus or minus one.
pub proof fn law_no_zero_positions(m: Map<Seq<char>, i64>, id: Seq<char>, d: TradeDirection)
    requires
        forall|k: Seq<char>| #[trigger] m.contains_key(k) ==> m[k] != 0,
        d != TradeDirection::Update,
    ensures
        forall|k: Seq<char>| #[trigger] add_position(m, id, d).contains_key(k) ==> add_position(m, id, d)[k] != 0,
{
}

/// Timestamps do not go backwards: a later clock reading gives at least as
/// many milliseconds, as long as the count fits in 64 bits; a clock set
/// before the epoch gives 0.
pub proof fn law_epoch_millis_monotone(earlier: (u64, u32), later: (u64, u32))
    requires
        is_clock_reading(Some(earlier)),
        is_clock_reading(Some(later)),
        earlier.0 < later.0 || (earlier.0 == later.0 && earlier.1 <= later.1),
        later.0 * 1000 + later.1 / 1_000_000 < 0x1_0000_0000_0000_0000,
    ensures
        epoch_millis(Some(earlier)) <= epoch_millis(Some(later)),
        epoch_millis(None) == 0,
{
    let a = earlier.0 * 1000 + earlier.1 / 1_000_000;
    let b = later.0 * 1000 + later.1 / 1_000_000;
    assert(earlier.1 / 1_000_000 < 1000);
    assert(later.1 / 1_000_000 >= 0);
    if earlier.0 == later.0 {
        assert(earlier.1 / 1_000_000 <= later.1 / 1_000_000) by (nonlinear_arith)
            requires
                earlier.1 <= later.1,
        ;
    } else {
        assert(earlier.0 * 1000 + 1000 <= later.0 * 1000) by (nonlinear_arith)
            requires
                earlier.0 < later.0,
        ;
    }
    assert(0 <= a <= b);
    assert(a % 0x1_0000_0000_0000_0000 == a);
    assert(b % 0x1_0000_0000_0000_0000 == b);
}

/// Pruning keeps every update, in order: the updates of the pruned positions
/// are exactly the updates given.
pub proof fn law_pruning_keeps_updates(trades: Seq<Trade>)
    ensures
        pruned(trades).filter(|t: Trade| t.direction == TradeDirection::Update)
            == trades.filter(|t: Trade| t.direction == TradeDirection::Update),
    decreases trades.len(),
{
    let p = |t: Trade| t.direction == TradeDirection::Update;
    if trades.len() > 0 {
        let rest = trades.drop_last();
        let t = trades.last();
        law_pruning_keeps_updates(rest);
        let kept = pruned(rest);
        assert(rest.push(t) =~= trades);
        rest.lemma_filter_push(t, p);
        if t.direction == TradeDirection::Delete {
            kept.index_of_first_ensures(creation(t.trade_id));
            match kept.index_of_first(creation(t.trade_id)) {
                Some(j) => {
                    let a = kept.subrange(0, j);
                    let b = kept.subrange(j + 1, kept.len() as int);
                    assert(kept.remove(j) =~= a + b);
                    assert(kept =~= a + seq![kept[j]] + b);
                    Seq::filter_distributes_over_add(a, b, p);
                    Seq::filter_distributes_over_add(a, seq![kept[j]], p);
                    Seq::filter_distributes_over_add(a + seq![kept[j]], b, p);
                    Seq::<Trade>::empty().lemma_filter_push(kept[j], p);
                    assert(seq![kept[j]] =~= Seq::<Trade>::empty().push(kept[j]));
                    assert(Seq::<Trade>::empty().filter(p) =~= Seq::<Trade>::empty()) by {
                        reveal(Seq::filter);
                    }
                    assert(seq![kept[j]].filter(p) =~= Seq::<Trade>::empty());
                    assert(a + Seq::<Trade>::empty() =~= a);
                    assert(a.filter(p) + Seq::<Trade>::empty() =~= a.filter(p));
                },
                None => {},
            }
        } else {
            kept.lemma_filter_push(t, p);
        }
    }
}

/// A deletion of trade `id` removes one position, the earliest creation of
/// `id` among the pruned positions, and nothing else; with no such creation
/// it changes nothing.
pub proof fn law_deletion_cancels_earliest_creation(trades: Seq<Trade>, id: u8)
    ensures
        ({
            let before = pruned(trades);
            let after = pruned(trades.push(Trade { trade_id: id, direction: TradeDirection::Delete }));
            if before.contains(creation(id)) {
                exists|j: int| {
                    &&& 0 <= j < before.len()
                    &&& before[j] == Trade { trade_id: id, direction: TradeDirection::Create }
                    &&& forall|k: int| 0 <= k < j ==> #[trigger] before[k] != Trade { trade_id: id, direction: TradeDirection::Create }
                    &&& after == before.subrange(0, j) + before.subrange(j + 1, before.len() as int)
                }
            } else {
                after == before
            }
        }),
{
    let del = Trade { trade_id: id, direction: TradeDirection::Delete };
    let s = trades.push(del);
    assert(s.drop_last() =~= trades);
    let before = pruned(trades);
    before.index_of_first_ensures(creation(id));
    if before.contains(creation(id)) {
        let j = before.index_of_first(creation(id))->0;
        assert(before.remove(j) =~= before.subrange(0, j) + before.subrange(j + 1, before.len() as int));
        assert(forall|k: int| 0 <= k < j ==> #[trigger] before[k] != creation(id));
    }
}

/// Comparing metric portfolios: the first is found within the second
/// (`Less`) exactly when every metric it holds is held by the second, and
/// every trade priced for a metric in the first is priced for that metric in
/// the second. A metric the second lacks makes the first not within it.
pub proof fn law_pm_less_means_held_and_priced<V>(a: PmView<V>, b: PmView<V>)
    ensures
        pm_order(a, b) == Some(std::cmp::Ordering::Less) <==> {
            &&& forall|m: PricingMetric| #[trigger] a.contains_key(m) ==> b.contains_key(m)
            &&& forall|m: PricingMetric, t: Seq<char>| #[trigger] a.contains_key(m) && #[trigger] a[m].contains_key(t)
                ==> b[m].contains_key(t)
        },
        (exists|m: PricingMetric| a.contains_key(m) && !b.contains_key(m)) ==> pm_order(a, b) != Some(
            std::cmp::Ordering::Less,
        ),
{
}

/// An update leaves the aggregated positions as they are when the trade is
/// held; a creation raises a held trade's position by one and a deletion
/// lowers it by one (a position reaching zero is dropped); a trade not held
/// starts at one on creation, at minus one on deletion, and at zero on an
/// update. Other trades are never touched.
pub proof fn law_position_steps(m: Map<Seq<char>, i64>, id: Seq<char>)
    ensures
        m.contains_key(id) && m[id] != 0 ==> add_position(m, id, TradeDirection::Update) == m,
        m.contains_key(id) && m[id] != -1 && m[id] < i64::MAX ==> add_position(m, id, TradeDirection::Create)
            == m.insert(id, (m[id] + 1) as i64),
        m.contains_key(id) && m[id] == -1 ==> add_position(m, id, TradeDirection::Create) == m.remove(id),
        m.contains_key(id) && m[id] != 1 && m[id] > i64::MIN ==> add_position(m, id, TradeDirection::Delete)
            == m.insert(id, (m[id] - 1) as i64),
        m.contains_key(id) && m[id] == 1 ==> add_position(m, id, TradeDirection::Delete) == m.remove(id),
        !m.contains_key(id) ==> add_position(m, id, TradeDirection::Create) == m.insert(id, 1i64),
        !m.contains_key(id) ==> add_position(m, id, TradeDirection::Delete) == m.insert(id, -1i64),
        !m.contains_key(id) ==> add_position(m, id, TradeDirection::Update) == m.insert(id, 0i64),
        forall|d: TradeDirection, k: Seq<char>| k != id ==> (#[trigger] add_position(m, id, d).contains_key(k)
            <==> m.contains_key(k)) && (m.contains_key(k) ==> add_position(m, id, d)[k] == m[k]),
{
    if m.contains_key(id) && m[id] != 0 {
        assert(add_position(m, id, TradeDirection::Update) =~= m);
    }
}

/// The levels a log request may ask for are exactly the five its error
/// answer names: trace, debug, info, warn and error.
pub proof fn law_known_levels(s: Seq<char>)
    ensures
        is_log_level(s) <==> (s == "trace"@ || s == "debug"@ || s == "info"@ || s == "warn"@ || s == "error"@),
        is_log_level("trace"@),
        is_log_level("debug"@),
        is_log_level("info"@),
        is_log_level("warn"@),
        is_log_level("error"@),
{
}

/// Only the key "PV" carries present values to the NAV book: a key routes to
/// `Pv` exactly when it reads as "PV", any other readable key is ignored, a
/// key that does not read as text is skipped, and no key means the older
/// format.
pub proof fn law_nav_route_only_pv(key: Seq<u8>)
    ensures
        nav_route_of(Some(key)) == NavRoute::Pv <==> utf8_decoding(key) == Some("PV"@),
        utf8_decoding(key) matches Some(t) && t != "PV"@ ==> nav_route_of(Some(key)) == NavRoute::Ignore,
        utf8_decoding(key) is None <==> nav_route_of(Some(key)) == NavRoute::BadKey,
        nav_route_of(None) == NavRoute::Legacy,
{
}

} // verus!
