use vstd::prelude::*;

verus! {

use crate::book::{
    BookState, all_parse, entries_wf, parse_levels, parsed_entry, parsed_levels, sorted_keys,
};
use crate::decimal::{Dec, dec_zero};
use crate::error::{FeedError, FeedErrorKind};
use crate::exchanges::binance::BinanceDepth;
use crate::exchanges::bybit::BybitDepth;

/// The venue a level, book or symbol listing came from.
#[derive(Clone, Copy, Debug, PartialEq, Eq, Structural)]
pub enum Exchange {
    Binance,
    Bybit,
    Okx,
}

/// The instrument class of a listed symbol.
#[derive(Clone, Copy, Debug, PartialEq, Eq, Structural)]
pub enum Instrument {
    USDM,
}

/// Per-symbol trading-rule metadata: tick size, lot sizes and minimum
/// notional, produced once at startup from a venue's instrument listing.
#[derive(Debug, Clone)]
pub struct SymbolInfo {
    pub exchange: Exchange,
    pub instrument: Instrument,
    pub symbol: String,
    pub price_tick_size: Dec,
    pub limit_max_qty: Dec,
    pub limit_min_qty: Dec,
    pub limit_step_size: Dec,
    pub market_max_qty: Dec,
    pub market_min_qty: Dec,
    pub market_step_size: Dec,
    pub min_notional: Dec,
}

impl SymbolInfo {
    /// A listing with every numeric constraint still at zero, to be
    /// filled in from the venue's filter records.
    pub fn new(exchange: Exchange, instrument: Instrument, symbol: String) -> (r: SymbolInfo)
        ensures
            r.exchange == exchange,
            r.instrument == instrument,
            r.symbol == symbol,
            r.price_tick_size == dec_zero(),
            r.limit_max_qty == dec_zero(),
            r.limit_min_qty == dec_zero(),
            r.limit_step_size == dec_zero(),
            r.market_max_qty == dec_zero(),
            r.market_min_qty == dec_zero(),
            r.market_step_size == dec_zero(),
            r.min_notional == dec_zero(),
    {
        SymbolInfo {
            exchange,
            instrument,
            symbol,
            price_tick_size: Dec::zero(),
            limit_max_qty: Dec::zero(),
            limit_min_qty: Dec::zero(),
            limit_step_size: Dec::zero(),
            market_max_qty: Dec::zero(),
            market_min_qty: Dec::zero(),
            market_step_size: Dec::zero(),
            min_notional: Dec::zero(),
        }
    }
}

/// One price point's aggregate resting size on one venue.
#[derive(Clone, Copy, Debug, PartialEq, Eq, Structural)]
pub struct Level {
    pub exchange: Exchange,
    pub price: Dec,
    pub quantity: Dec,
}

/// The canonical, exchange-agnostic book emitted to consumers: bids
/// strictly descending by price, asks strictly ascending, no duplicate
/// price on either side.
#[derive(Debug, Clone)]
pub struct Orderbook {
    pub exchange: Exchange,
    pub symbol: String,
    pub updated: u64,
    pub bids: Vec<Level>,
    pub asks: Vec<Level>,
}

/// Prices strictly descend along the level list.
pub open spec fn levels_desc(s: Seq<Level>) -> bool {
    forall|i: int, j: int|
        0 <= i < j < s.len() ==> (#[trigger] s[i]).price.val28() > (#[trigger] s[j]).price.val28()
}

/// Prices strictly ascend along the level list.
pub open spec fn levels_asc(s: Seq<Level>) -> bool {
    forall|i: int, j: int|
        0 <= i < j < s.len() ==> (#[trigger] s[i]).price.val28() < (#[trigger] s[j]).price.val28()
}

/// Every level holds well-formed decimals.
pub open spec fn levels_wf(s: Seq<Level>) -> bool {
    forall|i: int| 0 <= i < s.len() ==> (#[trigger] s[i]).price.wf() && s[i].quantity.wf()
}

impl Orderbook {
    /// The canonical invariant: strict price order on both sides (which
    /// also rules out duplicate prices) over well-formed decimals.
    pub open spec fn wf(self) -> bool {
        &&& levels_desc(self.bids@)
        &&& levels_asc(self.asks@)
        &&& levels_wf(self.bids@)
        &&& levels_wf(self.asks@)
    }
}

/// The parsed prices of a raw level list strictly descend.
pub open spec fn parsed_desc(raw: Seq<(String, String)>) -> bool {
    forall|i: int, j: int|
        0 <= i < j < raw.len() ==> parsed_entry(#[trigger] raw[i]).0.val28() > parsed_entry(
            #[trigger] raw[j],
        ).0.val28()
}

/// The parsed prices of a raw level list strictly ascend.
pub open spec fn parsed_asc(raw: Seq<(String, String)>) -> bool {
    forall|i: int, j: int|
        0 <= i < j < raw.len() ==> parsed_entry(#[trigger] raw[i]).0.val28() < parsed_entry(
            #[trigger] raw[j],
        ).0.val28()
}

/// Tags each parsed (price, quantity) pair with the venue, in order.
fn to_levels(v: &Vec<(Dec, Dec)>, exchange: Exchange) -> (r: Vec<Level>)
    ensures
        r@.len() == v@.len(),
        forall|i: int|
            0 <= i < v@.len() ==> r@[i] == (Level {
                exchange: exchange,
                price: v@[i].0,
                quantity: v@[i].1,
            }),
{
    let mut r: Vec<Level> = Vec::new();
    let mut i: usize = 0;
    while i < v.len()
        invariant
            i <= v@.len(),
            r@.len() == i,
            forall|j: int|
                0 <= j < i ==> r@[j] == (Level {
                    exchange: exchange,
                    price: v@[j].0,
                    quantity: v@[j].1,
                }),
        decreases v@.len() - i,
    {
        let e = v[i];
        r.push(Level { exchange, price: e.0, quantity: e.1 });
        i = i + 1;
    }
    r
}

/// Tags each parsed pair with the venue, in reverse order: an ascending
/// side read backwards is the descending bid list.
fn to_levels_rev(v: &Vec<(Dec, Dec)>, exchange: Exchange) -> (r: Vec<Level>)
    ensures
        r@.len() == v@.len(),
        forall|i: int|
            0 <= i < v@.len() ==> r@[i] == (Level {
                exchange: exchange,
                price: v@[v@.len() - 1 - i].0,
                quantity: v@[v@.len() - 1 - i].1,
            }),
{
    let mut r: Vec<Level> = Vec::new();
    let mut k: usize = v.len();
    while k > 0
        invariant
            k <= v@.len(),
            r@.len() == v@.len() - k,
            forall|j: int|
                0 <= j < r@.len() ==> r@[j] == (Level {
                    exchange: exchange,
                    price: v@[v@.len() - 1 - j].0,
                    quantity: v@[v@.len() - 1 - j].1,
                }),
        decreases k,
    {
        k = k - 1;
        let e = v[k];
        r.push(Level { exchange, price: e.0, quantity: e.1 });
    }
    r
}

/// Strict descent of parsed prices, checked pair by pair.
fn is_desc(v: &Vec<(Dec, Dec)>) -> (r: bool)
    requires
        entries_wf(v@),
    ensures
        r == (forall|i: int, j: int|
            0 <= i < j < v@.len() ==> (#[trigger] v@[i]).0.val28() > (#[trigger] v@[j]).0.val28()),
{
    let n = v.len();
    if n == 0 {
        return true;
    }
    let mut i: usize = 0;
    while i < n - 1
        invariant
            entries_wf(v@),
            n == v@.len(),
            1 <= n,
            i <= n - 1,
            forall|j: int| 0 <= j < i ==> (#[trigger] v@[j]).0.val28() > v@[j + 1].0.val28(),
        decreases n - i,
    {
        let a = v[i];
        let b = v[i + 1];
        if !b.0.lt(&a.0) {
            return false;
        }
        i = i + 1;
    }
    proof {
        assert forall|i: int, j: int| 0 <= i < j < v@.len() implies (#[trigger] v@[i]).0.val28() > (
        #[trigger] v@[j]).0.val28() by {
            lemma_desc_trans(v@, i, j);
        }
    }
    true
}

/// Strict ascent of parsed prices, checked pair by pair.
fn is_asc(v: &Vec<(Dec, Dec)>) -> (r: bool)
    requires
        entries_wf(v@),
    ensures
        r == (forall|i: int, j: int|
            0 <= i < j < v@.len() ==> (#[trigger] v@[i]).0.val28() < (#[trigger] v@[j]).0.val28()),
{
    let n = v.len();
    if n == 0 {
        return true;
    }
    let mut i: usize = 0;
    while i < n - 1
        invariant
            entries_wf(v@),
            n == v@.len(),
            1 <= n,
            i <= n - 1,
            forall|j: int| 0 <= j < i ==> (#[trigger] v@[j]).0.val28() < v@[j + 1].0.val28(),
        decreases n - i,
    {
        let a = v[i];
        let b = v[i + 1];
        if !a.0.lt(&b.0) {
            return false;
        }
        i = i + 1;
    }
    proof {
        assert forall|i: int, j: int| 0 <= i < j < v@.len() implies (#[trigger] v@[i]).0.val28() < (
        #[trigger] v@[j]).0.val28() by {
            lemma_asc_trans(v@, i, j);
        }
    }
    true
}

/// Adjacent strict descent extends to every pair.
proof fn lemma_desc_trans(s: Seq<(Dec, Dec)>, i: int, j: int)
    requires
        forall|m: int| 0 <= m < s.len() - 1 ==> (#[trigger] s[m]).0.val28() > s[m + 1].0.val28(),
        0 <= i < j < s.len(),
    ensures
        s[i].0.val28() > s[j].0.val28(),
    decreases j - i,
{
    if i + 1 < j {
        lemma_desc_trans(s, i + 1, j);
    }
}

/// Adjacent strict ascent extends to every pair.
proof fn lemma_asc_trans(s: Seq<(Dec, Dec)>, i: int, j: int)
    requires
        forall|m: int| 0 <= m < s.len() - 1 ==> (#[trigger] s[m]).0.val28() < s[m + 1].0.val28(),
        0 <= i < j < s.len(),
    ensures
        s[i].0.val28() < s[j].0.val28(),
    decreases j - i,
{
    if i + 1 < j {
        lemma_asc_trans(s, i + 1, j);
    }
}

/// The canonical book `ob` renders the reconciled book `book` for the
/// venue `exchange`: asks are the book's ascending side in order, bids
/// its other side read backwards.
pub open spec fn renders_book(ob: Orderbook, exchange: Exchange, book: BookState) -> bool {
    &&& ob.asks@.len() == book.asks@.len()
    &&& (forall|i: int|
        0 <= i < book.asks@.len() ==> ob.asks@[i] == (Level {
            exchange: exchange,
            price: book.asks@[i].0,
            quantity: book.asks@[i].1,
        }))
    &&& ob.bids@.len() == book.bids@.len()
    &&& (forall|i: int|
        0 <= i < book.bids@.len() ==> ob.bids@[i] == (Level {
            exchange: exchange,
            price: book.bids@[book.bids@.len() - 1 - i].0,
            quantity: book.bids@[book.bids@.len() - 1 - i].1,
        }))
}

/// The normalization layer: pure mappings from decoded venue records to
/// the canonical model.
pub struct OrderbookFormatter {}

impl OrderbookFormatter {
    /// Wraps a reconciled book with venue metadata: asks are the book's
    /// ascending side as-is, bids its other side read backwards, so both
    /// canonical orderings hold by construction.
    pub fn from_book(exchange: Exchange, symbol: &String, updated: u64, book: &BookState) -> (ob:
        Orderbook)
        requires
            book.wf(),
        ensures
            ob.exchange == exchange,
            ob.symbol@ == symbol@,
            ob.updated == updated,
            ob.asks@.len() == book.asks@.len(),
            forall|i: int|
                0 <= i < book.asks@.len() ==> ob.asks@[i] == (Level {
                    exchange: exchange,
                    price: book.asks@[i].0,
                    quantity: book.asks@[i].1,
                }),
            ob.bids@.len() == book.bids@.len(),
            forall|i: int|
                0 <= i < book.bids@.len() ==> ob.bids@[i] == (Level {
                    exchange: exchange,
                    price: book.bids@[book.bids@.len() - 1 - i].0,
                    quantity: book.bids@[book.bids@.len() - 1 - i].1,
                }),
            renders_book(ob, exchange, *book),
            ob.wf(),
    {
        let bids = to_levels_rev(&book.bids, exchange);
        let asks = to_levels(&book.asks, exchange);
        let ob = Orderbook { exchange, symbol: symbol.clone(), updated, bids, asks };
        proof {
            assert forall|i: int, j: int| 0 <= i < j < ob.bids@.len() implies (
            #[trigger] ob.bids@[i]).price.val28() > (#[trigger] ob.bids@[j]).price.val28() by {
                let n = book.bids@.len();
                assert(book.bids@[n - 1 - j].0.val28() < book.bids@[n - 1 - i].0.val28());
            }
        }
        ob
    }

    /// Normalizes one Binance full-snapshot depth message. Succeeds
    /// exactly when every price/quantity string parses as a decimal and
    /// the message's bids are strictly descending and asks strictly
    /// ascending; the canonical book then carries the parsed levels
    /// unchanged, in wire order. Anything else is a decode error, never
    /// masked with defaults.
    pub fn from_binance(data: &BinanceDepth) -> (r: Result<Orderbook, FeedError>)
        ensures
            match r {
                Ok(ob) => {
                    &&& all_parse(data.b@)
                    &&& all_parse(data.a@)
                    &&& parsed_desc(data.b@)
                    &&& parsed_asc(data.a@)
                    &&& ob.exchange == Exchange::Binance
                    &&& ob.symbol@ == data.s@
                    &&& ob.updated == data.E
                    &&& ob.bids@.len() == data.b@.len()
                    &&& forall|i: int|
                        0 <= i < data.b@.len() ==> ob.bids@[i] == (Level {
                            exchange: Exchange::Binance,
                            price: parsed_entry(data.b@[i]).0,
                            quantity: parsed_entry(data.b@[i]).1,
                        })
                    &&& ob.asks@.len() == data.a@.len()
                    &&& forall|i: int|
                        0 <= i < data.a@.len() ==> ob.asks@[i] == (Level {
                            exchange: Exchange::Binance,
                            price: parsed_entry(data.a@[i]).0,
                            quantity: parsed_entry(data.a@[i]).1,
                        })
                    &&& ob.wf()
                },
                Err(e) => {
                    &&& e.venue == Exchange::Binance
                    &&& e.kind == FeedErrorKind::Decode
                    &&& !(all_parse(data.b@) && all_parse(data.a@) && parsed_desc(data.b@)
                        && parsed_asc(data.a@))
                },
            },
    {
        let pb = match parse_levels(&data.b) {
            Ok(v) => v,
            Err(_) => {
                return Err(decode_error(Exchange::Binance));
            },
        };
        let pa = match parse_levels(&data.a) {
            Ok(v) => v,
            Err(_) => {
                return Err(decode_error(Exchange::Binance));
            },
        };
        if !is_desc(&pb) {
            return Err(decode_error(Exchange::Binance));
        }
        if !is_asc(&pa) {
            return Err(decode_error(Exchange::Binance));
        }
        let bids = to_levels(&pb, Exchange::Binance);
        let asks = to_levels(&pa, Exchange::Binance);
        proof {
            assert forall|i: int, j: int| 0 <= i < j < data.b@.len() implies parsed_entry(
                #[trigger] data.b@[i],
            ).0.val28() > parsed_entry(#[trigger] data.b@[j]).0.val28() by {
                assert(pb@[i] == parsed_entry(data.b@[i]));
                assert(pb@[j] == parsed_entry(data.b@[j]));
            }
            assert forall|i: int, j: int| 0 <= i < j < data.a@.len() implies parsed_entry(
                #[trigger] data.a@[i],
            ).0.val28() < parsed_entry(#[trigger] data.a@[j]).0.val28() by {
                assert(pa@[i] == parsed_entry(data.a@[i]));
                assert(pa@[j] == parsed_entry(data.a@[j]));
            }
            assert forall|i: int| 0 <= i < data.b@.len() implies bids@[i] == (Level {
                exchange: Exchange::Binance,
                price: parsed_entry(data.b@[i]).0,
                quantity: parsed_entry(data.b@[i]).1,
            }) by {
                assert(pb@[i] == parsed_entry(data.b@[i]));
            }
            assert forall|i: int| 0 <= i < data.a@.len() implies asks@[i] == (Level {
                exchange: Exchange::Binance,
                price: parsed_entry(data.a@[i]).0,
                quantity: parsed_entry(data.a@[i]).1,
            }) by {
                assert(pa@[i] == parsed_entry(data.a@[i]));
            }
            assert forall|i: int, j: int| 0 <= i < j < bids@.len() implies (
            #[trigger] bids@[i]).price.val28() > (#[trigger] bids@[j]).price.val28() by {
                assert(bids@[i].price == pb@[i].0);
                assert(bids@[j].price == pb@[j].0);
            }
            assert forall|i: int, j: int| 0 <= i < j < asks@.len() implies (
            #[trigger] asks@[i]).price.val28() < (#[trigger] asks@[j]).price.val28() by {
                assert(asks@[i].price == pa@[i].0);
                assert(asks@[j].price == pa@[j].0);
            }
            assert forall|i: int| 0 <= i < bids@.len() implies (#[trigger] bids@[i]).price.wf() && (
            bids@[i]).quantity.wf() by {
                assert(bids@[i].price == pb@[i].0 && bids@[i].quantity == pb@[i].1);
            }
            assert forall|i: int| 0 <= i < asks@.len() implies (#[trigger] asks@[i]).price.wf() && (
            asks@[i]).quantity.wf() by {
                assert(asks@[i].price == pa@[i].0 && asks@[i].quantity == pa@[i].1);
            }
        }
        Ok(
            Orderbook {
                exchange: Exchange::Binance,
                symbol: data.s.clone(),
                updated: data.E,
                bids,
                asks,
            },
        )
    }

    /// Normalizes the reconciled book of one Bybit symbol, wrapping the
    /// engine's sorted sides with the message's venue metadata.
    pub fn from_bybit(data: &BybitDepth, book: &BookState) -> (ob: Orderbook)
        requires
            book.wf(),
        ensures
            ob.exchange == Exchange::Bybit,
            ob.symbol@ == data.data.s@,
            ob.updated == data.ts,
            ob.asks@.len() == book.asks@.len(),
            forall|i: int|
                0 <= i < book.asks@.len() ==> ob.asks@[i] == (Level {
                    exchange: Exchange::Bybit,
                    price: book.asks@[i].0,
                    quantity: book.asks@[i].1,
                }),
            ob.bids@.len() == book.bids@.len(),
            forall|i: int|
                0 <= i < book.bids@.len() ==> ob.bids@[i] == (Level {
                    exchange: Exchange::Bybit,
                    price: book.bids@[book.bids@.len() - 1 - i].0,
                    quantity: book.bids@[book.bids@.len() - 1 - i].1,
                }),
            renders_book(ob, Exchange::Bybit, *book),
            ob.wf(),
    {
        Self::from_book(Exchange::Bybit, &data.data.s, data.ts, book)
    }
}

/// A decode error tagged with its venue.
fn decode_error(venue: Exchange) -> (r: FeedError)
    ensures
        r.venue == venue,
        r.kind == FeedErrorKind::Decode,
        r.detail@ == "malformed or unexpected depth payload"@,
{
    FeedError {
        venue,
        kind: FeedErrorKind::Decode,
        detail: "malformed or unexpected depth payload".to_owned(),
    }
}

} // verus!
