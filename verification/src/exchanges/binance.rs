use vstd::prelude::*;

verus! {

use crate::decimal::{Dec, dec_of, dec_from_str, dec_zero};
use crate::error::{FeedError, FeedErrorKind};
use crate::exchanges::formatter::{Exchange, Instrument, SymbolInfo};
use crate::text::{contains_substr, has_substr, lower_of, to_lower};
use vstd::string::StringExecFns;

/// A Binance depth message: a full top-N snapshot of one symbol's book,
/// authoritative on its own (no sequence-gap tracking is needed), with
/// price/quantity pairs as decimal strings.
#[allow(non_snake_case)]
pub struct BinanceDepth {
    pub e: String,
    pub E: u64,
    pub T: u64,
    pub s: String,
    pub U: u64,
    pub u: u64,
    pub pu: u64,
    pub b: Vec<(String, String)>,
    pub a: Vec<(String, String)>,
}

/// The Binance subscription request frame's content.
pub struct Subscription {
    pub method: String,
    pub params: Vec<String>,
    pub id: u32,
}

/// Whether a raw text frame is a depth update for a subscribed channel.
pub fn is_binance_depth_text(raw: &str) -> (r: bool)
    ensures
        r == has_substr(raw@, "depthUpdate"@),
{
    contains_substr(raw, "depthUpdate")
}

/// The channel names subscribed for the requested symbols, one per
/// symbol, at the venue's maximum depth and update rate.
pub fn binance_channels(symbols: &Vec<String>) -> (r: Vec<String>)
    ensures
        r@.len() == symbols@.len(),
        forall|i: int|
            0 <= i < symbols@.len() ==> (#[trigger] r@[i])@ == lower_of(symbols@[i]@)
                + "@depth20@100ms"@,
{
    let mut r: Vec<String> = Vec::new();
    let mut i: usize = 0;
    while i < symbols.len()
        invariant
            i <= symbols@.len(),
            r@.len() == i,
            forall|j: int|
                0 <= j < i ==> (#[trigger] r@[j])@ == lower_of(symbols@[j]@) + "@depth20@100ms"@,
        decreases symbols@.len() - i,
    {
        let mut c = to_lower(symbols[i].as_str());
        c.append("@depth20@100ms");
        r.push(c);
        i = i + 1;
    }
    r
}

/// The subscription request covering all requested symbols.
pub fn binance_subscription(symbols: &Vec<String>) -> (r: Subscription)
    ensures
        r.method@ == "SUBSCRIBE"@,
        r.id == 1,
        r.params@.len() == symbols@.len(),
        forall|i: int|
            0 <= i < symbols@.len() ==> (#[trigger] r.params@[i])@ == lower_of(symbols@[i]@)
                + "@depth20@100ms"@,
{
    Subscription { method: "SUBSCRIBE".to_owned(), params: binance_channels(symbols), id: 1 }
}

// ---------------------------------------------------------------------------
// The instrument listing: trading-rule metadata fetched once at startup.
// The transport is an external collaborator; the filtering and folding
// of the decoded listing into per-symbol metadata is done here.
// ---------------------------------------------------------------------------
/// One filter record of a listed symbol, with its numeric constraints
/// still as wire strings.
#[allow(non_camel_case_types)]
pub enum BinanceFilter {
    PRICE_FILTER { tick_size: String },
    LOT_SIZE { max_qty: String, min_qty: String, step_size: String },
    MARKET_LOT_SIZE { max_qty: String, min_qty: String, step_size: String },
    MIN_NOTIONAL { notional: String },
    Unknown,
}

/// One listed symbol with its contract type, trading status and filters.
pub struct BinanceSymbol {
    pub symbol: String,
    pub contract_type: String,
    pub status: String,
    pub filters: Vec<BinanceFilter>,
}

/// The decoded instrument-listing response.
pub struct BinanceExchangeInfo {
    pub symbols: Vec<BinanceSymbol>,
}

/// Every numeric string the filter carries parses as a decimal.
pub open spec fn filter_parses(f: BinanceFilter) -> bool {
    match f {
        BinanceFilter::PRICE_FILTER { tick_size } => dec_of(tick_size@) is Some,
        BinanceFilter::LOT_SIZE { max_qty, min_qty, step_size } => dec_of(max_qty@) is Some
            && dec_of(min_qty@) is Some && dec_of(step_size@) is Some,
        BinanceFilter::MARKET_LOT_SIZE { max_qty, min_qty, step_size } => dec_of(max_qty@) is Some
            && dec_of(min_qty@) is Some && dec_of(step_size@) is Some,
        BinanceFilter::MIN_NOTIONAL { notional } => dec_of(notional@) is Some,
        BinanceFilter::Unknown => true,
    }
}

/// What one filter record contributes to a symbol's metadata.
pub open spec fn apply_filter_spec(info: SymbolInfo, f: BinanceFilter) -> SymbolInfo {
    match f {
        BinanceFilter::PRICE_FILTER { tick_size } => SymbolInfo {
            price_tick_size: dec_of(tick_size@).unwrap(),
            ..info
        },
        BinanceFilter::LOT_SIZE { max_qty, min_qty, step_size } => SymbolInfo {
            limit_max_qty: dec_of(max_qty@).unwrap(),
            limit_min_qty: dec_of(min_qty@).unwrap(),
            limit_step_size: dec_of(step_size@).unwrap(),
            ..info
        },
        BinanceFilter::MARKET_LOT_SIZE { max_qty, min_qty, step_size } => SymbolInfo {
            market_max_qty: dec_of(max_qty@).unwrap(),
            market_min_qty: dec_of(min_qty@).unwrap(),
            market_step_size: dec_of(step_size@).unwrap(),
            ..info
        },
        BinanceFilter::MIN_NOTIONAL { notional } => SymbolInfo {
            min_notional: dec_of(notional@).unwrap(),
            ..info
        },
        BinanceFilter::Unknown => info,
    }
}

/// A symbol's filter records folded into its metadata, in wire order.
pub open spec fn fold_filters_spec(info: SymbolInfo, fs: Seq<BinanceFilter>) -> SymbolInfo
    decreases fs.len(),
{
    if fs.len() == 0 {
        info
    } else {
        fold_filters_spec(apply_filter_spec(info, fs[0]), fs.skip(1))
    }
}

/// Every filter of the list parses.
pub open spec fn filters_parse(fs: Seq<BinanceFilter>) -> bool {
    forall|i: int| 0 <= i < fs.len() ==> filter_parses(#[trigger] fs[i])
}

/// The metadata a listed symbol starts from, before its filters.
pub open spec fn base_info(sym: BinanceSymbol) -> SymbolInfo {
    SymbolInfo {
        exchange: Exchange::Binance,
        instrument: Instrument::USDM,
        symbol: sym.symbol,
        price_tick_size: dec_zero(),
        limit_max_qty: dec_zero(),
        limit_min_qty: dec_zero(),
        limit_step_size: dec_zero(),
        market_max_qty: dec_zero(),
        market_min_qty: dec_zero(),
        market_step_size: dec_zero(),
        min_notional: dec_zero(),
    }
}

/// A listed symbol the table keeps: a live perpetual contract.
pub open spec fn is_tradable(sym: BinanceSymbol) -> bool {
    sym.contract_type@ == "PERPETUAL"@ && sym.status@ == "TRADING"@
}

/// The symbol table the listing folds to: the tradable symbols in wire
/// order, each with its filters folded in.
pub open spec fn table_spec(syms: Seq<BinanceSymbol>) -> Seq<(String, SymbolInfo)>
    decreases syms.len(),
{
    if syms.len() == 0 {
        Seq::empty()
    } else if is_tradable(syms[0]) {
        seq![(syms[0].symbol, fold_filters_spec(base_info(syms[0]), syms[0].filters@))]
            + table_spec(syms.skip(1))
    } else {
        table_spec(syms.skip(1))
    }
}

/// Every tradable symbol's filters parse.
pub open spec fn tradable_parse(syms: Seq<BinanceSymbol>) -> bool {
    forall|i: int|
        0 <= i < syms.len() ==> (is_tradable(#[trigger] syms[i]) ==> filters_parse(
            syms[i].filters@,
        ))
}

/// Folds one symbol's filter records into its metadata. A malformed
/// numeric string is reported, never masked with a default.
fn fold_filters(info0: SymbolInfo, filters: &Vec<BinanceFilter>) -> (r: Result<SymbolInfo, ()>)
    ensures
        match r {
            Ok(info) => filters_parse(filters@) && info == fold_filters_spec(info0, filters@),
            Err(_) => !filters_parse(filters@),
        },
{
    let ghost orig = info0;
    let mut cur = info0;
    let mut i: usize = 0;
    proof {
        assert(filters@.skip(0) =~= filters@);
    }
    while i < filters.len()
        invariant
            i <= filters@.len(),
            forall|j: int| 0 <= j < i ==> filter_parses(#[trigger] filters@[j]),
            fold_filters_spec(orig, filters@) == fold_filters_spec(cur, filters@.skip(i as int)),
        decreases filters@.len() - i,
    {
        let ghost pre = cur;
        proof {
            assert(filters@.skip(i as int)[0] == filters@[i as int]);
            assert(filters@.skip(i as int).skip(1) =~= filters@.skip(i as int + 1));
        }
        match &filters[i] {
            BinanceFilter::PRICE_FILTER { tick_size } => {
                let d = match dec_from_str(tick_size.as_str()) {
                    Some(d) => d,
                    None => {
                        return Err(());
                    },
                };
                cur.price_tick_size = d;
            },
            BinanceFilter::LOT_SIZE { max_qty, min_qty, step_size } => {
                let dmax = match dec_from_str(max_qty.as_str()) {
                    Some(d) => d,
                    None => {
                        return Err(());
                    },
                };
                let dmin = match dec_from_str(min_qty.as_str()) {
                    Some(d) => d,
                    None => {
                        return Err(());
                    },
                };
                let dstep = match dec_from_str(step_size.as_str()) {
                    Some(d) => d,
                    None => {
                        return Err(());
                    },
                };
                cur.limit_max_qty = dmax;
                cur.limit_min_qty = dmin;
                cur.limit_step_size = dstep;
            },
            BinanceFilter::MARKET_LOT_SIZE { max_qty, min_qty, step_size } => {
                let dmax = match dec_from_str(max_qty.as_str()) {
                    Some(d) => d,
                    None => {
                        return Err(());
                    },
                };
                let dmin = match dec_from_str(min_qty.as_str()) {
                    Some(d) => d,
                    None => {
                        return Err(());
                    },
                };
                let dstep = match dec_from_str(step_size.as_str()) {
                    Some(d) => d,
                    None => {
                        return Err(());
                    },
                };
                cur.market_max_qty = dmax;
                cur.market_min_qty = dmin;
                cur.market_step_size = dstep;
            },
            BinanceFilter::MIN_NOTIONAL { notional } => {
                let d = match dec_from_str(notional.as_str()) {
                    Some(d) => d,
                    None => {
                        return Err(());
                    },
                };
                cur.min_notional = d;
            },
            BinanceFilter::Unknown => {},
        }
        proof {
            assert(cur == apply_filter_spec(pre, filters@[i as int]));
        }
        i = i + 1;
    }
    proof {
        assert(filters@.skip(filters@.len() as int) =~= Seq::<BinanceFilter>::empty());
    }
    Ok(cur)
}

/// The pure half of the metadata fetch: filters the decoded listing to
/// live perpetual contracts and folds each one's filter records into its
/// `SymbolInfo`, keyed by symbol in wire order. A malformed numeric
/// string in a kept symbol is a metadata error; succeeds exactly when
/// every kept symbol's filters parse.
pub fn get_binance_symbol_table(info: &BinanceExchangeInfo) -> (r: Result<
    Vec<(String, SymbolInfo)>,
    FeedError,
>)
    ensures
        match r {
            Ok(v) => tradable_parse(info.symbols@) && v@ == table_spec(info.symbols@),
            Err(e) => {
                &&& e.venue == Exchange::Binance
                &&& e.kind == FeedErrorKind::MetadataFetch
                &&& !tradable_parse(info.symbols@)
            },
        },
{
    let mut v: Vec<(String, SymbolInfo)> = Vec::new();
    let mut i: usize = 0;
    proof {
        assert(info.symbols@.skip(0) =~= info.symbols@);
        assert(v@ + table_spec(info.symbols@) =~= table_spec(info.symbols@));
    }
    while i < info.symbols.len()
        invariant
            i <= info.symbols@.len(),
            forall|j: int|
                0 <= j < i ==> (is_tradable(#[trigger] info.symbols@[j]) ==> filters_parse(
                    info.symbols@[j].filters@,
                )),
            table_spec(info.symbols@) == v@ + table_spec(info.symbols@.skip(i as int)),
        decreases info.symbols@.len() - i,
    {
        let sym = &info.symbols[i];
        proof {
            assert(info.symbols@.skip(i as int)[0] == info.symbols@[i as int]);
            assert(info.symbols@.skip(i as int).skip(1) =~= info.symbols@.skip(i as int + 1));
        }
        let tradable = sym.contract_type == "PERPETUAL".to_owned() && sym.status
            == "TRADING".to_owned();
        if tradable {
            let base = SymbolInfo::new(Exchange::Binance, Instrument::USDM, sym.symbol.clone());
            proof {
                assert(base == base_info(info.symbols@[i as int]));
            }
            let folded = match fold_filters(base, &sym.filters) {
                Ok(f) => f,
                Err(_) => {
                    return Err(
                        FeedError {
                            venue: Exchange::Binance,
                            kind: FeedErrorKind::MetadataFetch,
                            detail: "malformed filter value".to_owned(),
                        },
                    );
                },
            };
            let ghost prev = v@;
            v.push((sym.symbol.clone(), folded));
            proof {
                assert(v@ =~= prev + seq![
                    (
                        info.symbols@[i as int].symbol,
                        fold_filters_spec(
                            base_info(info.symbols@[i as int]),
                            info.symbols@[i as int].filters@,
                        ),
                    ),
                ]);
                assert(v@ + table_spec(info.symbols@.skip(i as int + 1)) =~= prev + table_spec(
                    info.symbols@.skip(i as int),
                ));
            }
        }
        i = i + 1;
    }
    proof {
        assert(info.symbols@.skip(info.symbols@.len() as int) =~= Seq::<BinanceSymbol>::empty());
        assert(v@ + table_spec(info.symbols@.skip(info.symbols@.len() as int)) =~= v@);
    }
    Ok(v)
}

} // verus!
