use vstd::prelude::*;

verus! {

use crate::book::{BookState, DeltaOutcome, all_parse, empty_abs};
use crate::error::{FeedError, FeedErrorKind};
use crate::exchanges::formatter::{Exchange, Orderbook, renders_book};
use crate::table::{
    books_wf, delta_applied, from_requested, has_symbol, snap_applied, table_delta,
    table_from_symbols, table_on_depth, table_snapshot,
};
use crate::text::{contains_substr, has_substr, to_upper, upper_of};
use vstd::string::StringExecFns;

/// The payload of a Bybit depth message: symbol, bid and ask level lists
/// as decimal strings, and the update/sequence identifiers.
pub struct BybitDepthData {
    pub s: String,
    pub b: Vec<(String, String)>,
    pub a: Vec<(String, String)>,
    pub u: u64,
    pub seq: u64,
}

/// A Bybit depth message: the channel topic, whether it is a snapshot or
/// a delta, the exchange-reported event time, and the payload.
pub struct BybitDepth {
    pub topic: String,
    pub data_type: String,
    pub ts: u64,
    pub data: BybitDepthData,
}

/// The Bybit subscription request frame's content.
pub struct Subscription {
    pub op: String,
    pub args: Vec<String>,
}

/// The client keepalive frame's content.
pub struct Pong {
    pub op: String,
}

impl Pong {
    /// The frame Bybit expects as a client keepalive.
    pub fn new() -> (r: Pong)
        ensures
            r.op@ == "pong"@,
    {
        Pong { op: "pong".to_owned() }
    }
}

/// How often the client must send its own pong frame, regardless of
/// server pings, in milliseconds.
pub const KEEPALIVE_INTERVAL_MS: u64 = 15000;

/// Tracks elapsed wall-clock time since the last client pong, so a pong
/// is sent whenever the venue's keepalive interval has passed.
pub struct KeepaliveTimer {
    pub last_pong_ms: u64,
    pub interval_ms: u64,
}

impl KeepaliveTimer {
    /// A timer that counts from `now_ms`.
    pub fn new(now_ms: u64, interval_ms: u64) -> (r: KeepaliveTimer)
        ensures
            r.last_pong_ms == now_ms,
            r.interval_ms == interval_ms,
    {
        KeepaliveTimer { last_pong_ms: now_ms, interval_ms }
    }

    /// Whether a client pong is due at `now_ms`: exactly when the
    /// interval has elapsed since the last one. When due, the timer
    /// restarts from `now_ms`; otherwise it is left untouched.
    pub fn poll(&mut self, now_ms: u64) -> (due: bool)
        ensures
            due == (now_ms >= old(self).last_pong_ms + old(self).interval_ms),
            due ==> final(self).last_pong_ms == now_ms && final(self).interval_ms == old(self).interval_ms,
            !due ==> *final(self) == *old(self),
    {
        if now_ms >= self.last_pong_ms && now_ms - self.last_pong_ms >= self.interval_ms {
            self.last_pong_ms = now_ms;
            true
        } else {
            false
        }
    }
}

/// Whether a raw text frame is a depth message for the subscribed
/// order-book channel.
pub fn is_bybit_depth_text(raw: &str) -> (r: bool)
    ensures
        r == has_substr(raw@, "orderbook.50"@),
{
    contains_substr(raw, "orderbook.50")
}

/// The channel names subscribed for the requested symbols, one per
/// symbol, at the venue's maximum depth for this channel type.
pub fn bybit_channels(symbols: &Vec<String>) -> (r: Vec<String>)
    ensures
        r@.len() == symbols@.len(),
        forall|i: int|
            0 <= i < symbols@.len() ==> (#[trigger] r@[i])@ == "orderbook.50."@ + upper_of(
                symbols@[i]@,
            ),
{
    let mut r: Vec<String> = Vec::new();
    let mut i: usize = 0;
    while i < symbols.len()
        invariant
            i <= symbols@.len(),
            r@.len() == i,
            forall|j: int|
                0 <= j < i ==> (#[trigger] r@[j])@ == "orderbook.50."@ + upper_of(symbols@[j]@),
        decreases symbols@.len() - i,
    {
        let up = to_upper(symbols[i].as_str());
        let mut c = "orderbook.50.".to_owned();
        c.append(up.as_str());
        r.push(c);
        i = i + 1;
    }
    r
}

/// The subscription request covering all requested symbols.
pub fn bybit_subscription(symbols: &Vec<String>) -> (r: Subscription)
    ensures
        r.op@ == "subscribe"@,
        r.args@.len() == symbols@.len(),
        forall|i: int|
            0 <= i < symbols@.len() ==> (#[trigger] r.args@[i])@ == "orderbook.50."@ + upper_of(
                symbols@[i]@,
            ),
{
    Subscription { op: "subscribe".to_owned(), args: bybit_channels(symbols) }
}

/// The per-symbol reconciled books of the Bybit feed, owned exclusively
/// by that venue's handler task.
pub struct BybitOrderbook {
    pub books: Vec<(String, BookState)>,
}

impl BybitOrderbook {
    /// Every book well-formed, every symbol tracked at most once.
    pub open spec fn wf(self) -> bool {
        books_wf(self.books@)
    }

    /// One empty, uninitialized book per distinct requested symbol.
    pub fn from(symbols: Vec<String>) -> (r: BybitOrderbook)
        ensures
            r.wf(),
            forall|i: int|
                0 <= i < r.books@.len() ==> (#[trigger] r.books@[i]).1.abs_state() == empty_abs(),
            forall|j: int|
                0 <= j < symbols@.len() ==> has_symbol(r.books@, (#[trigger] symbols@[j])@),
            from_requested(r.books@, symbols@, symbols@.len() as int),
    {
        BybitOrderbook { books: table_from_symbols(symbols) }
    }

    /// Clears and repopulates the addressed symbol's book from a
    /// snapshot message. An untracked symbol or a malformed decimal
    /// string is a decode error; the table is then left untouched.
    pub fn init_orderbook(&mut self, data: &BybitDepthData) -> (r: Result<(), FeedError>)
        requires
            old(self).wf(),
        ensures
            final(self).wf(),
            match r {
                Ok(_) => all_parse(data.b@) && all_parse(data.a@) && snap_applied(
                    old(self).books@,
                    final(self).books@,
                    data.s@,
                    data.b@,
                    data.a@,
                    data.u,
                ),
                Err(e) => {
                    &&& e.venue == Exchange::Bybit
                    &&& final(self).books@ == old(self).books@
                    &&& (!has_symbol(old(self).books@, data.s@) || !(all_parse(data.b@)
                        && all_parse(data.a@)))
                },
            },
    {
        table_snapshot(&mut self.books, Exchange::Bybit, &data.s, &data.b, &data.a, data.u)
    }

    /// Routes a delta message for the addressed symbol through the
    /// reconciliation engine: discarded before a snapshot, a full clear
    /// on a sequence gap, folded in when contiguous.
    pub fn update_orderbook(&mut self, data: &BybitDepthData) -> (r: Result<
        DeltaOutcome,
        FeedError,
    >)
        requires
            old(self).wf(),
        ensures
            final(self).wf(),
            r == Ok::<DeltaOutcome, FeedError>(DeltaOutcome::DiscardedUninitialized) ==> final(self).books@ == old(self).books@,
            match r {
                Ok(outcome) => delta_applied(
                    old(self).books@,
                    final(self).books@,
                    data.s@,
                    data.b@,
                    data.a@,
                    data.u,
                    outcome,
                ),
                Err(e) => {
                    &&& e.venue == Exchange::Bybit
                    &&& final(self).books@ == old(self).books@
                    &&& (!has_symbol(old(self).books@, data.s@) || !(all_parse(data.b@)
                        && all_parse(data.a@)))
                },
            },
    {
        table_delta(&mut self.books, Exchange::Bybit, &data.s, &data.b, &data.a, data.u)
    }

    /// One decoded depth message, routed as the venue's protocol
    /// demands: a snapshot initializes the symbol's book, a delta steps
    /// it, and a canonical book is emitted after a successful apply.
    pub fn on_depth(&mut self, data: &BybitDepth) -> (r: Result<Option<Orderbook>, FeedError>)
        requires
            old(self).wf(),
        ensures
            final(self).wf(),
            match r {
                Ok(Some(ob)) => ob.wf() && ob.exchange == Exchange::Bybit && ob.symbol@
                    == data.data.s@ && ob.updated == data.ts && ((data.data_type@ == "snapshot"@
                    && snap_applied(
                    old(self).books@,
                    final(self).books@,
                    data.data.s@,
                    data.data.b@,
                    data.data.a@,
                    data.data.u,
                )) || (data.data_type@ == "delta"@ && delta_applied(
                    old(self).books@,
                    final(self).books@,
                    data.data.s@,
                    data.data.b@,
                    data.data.a@,
                    data.data.u,
                    DeltaOutcome::Applied,
                ))) && (exists|i: int|
                    #![auto]
                    0 <= i < final(self).books@.len() && final(self).books@[i].0@ == data.data.s@
                        && renders_book(ob, Exchange::Bybit, final(self).books@[i].1)),
                Ok(None) => data.data_type@ != "snapshot"@ && data.data_type@ != "delta"@ && final(self).books@ == old(self).books@,
                Err(e) => e.venue == Exchange::Bybit && ((e.kind == FeedErrorKind::Decode
                    && final(self).books@ == old(self).books@ && (!has_symbol(
                    old(self).books@,
                    data.data.s@,
                ) || !(all_parse(data.data.b@) && all_parse(data.data.a@)))) || (e.kind
                    == FeedErrorKind::ProtocolSequence && data.data_type@ == "delta"@ && (final(self).books@
                    == old(self).books@ || delta_applied(
                    old(self).books@,
                    final(self).books@,
                    data.data.s@,
                    data.data.b@,
                    data.data.a@,
                    data.data.u,
                    DeltaOutcome::GapDetected,
                )))),
            },
    {
        table_on_depth(
            &mut self.books,
            Exchange::Bybit,
            &data.data_type,
            data.ts,
            &data.data.s,
            &data.data.b,
            &data.data.a,
            data.data.u,
        )
    }
}

} // verus!
