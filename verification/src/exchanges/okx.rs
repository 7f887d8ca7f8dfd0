use vstd::prelude::*;

verus! {

use crate::book::{BookState, DeltaOutcome, all_parse, empty_abs};
use crate::error::{FeedError, FeedErrorKind};
use crate::exchanges::formatter::{Exchange, Orderbook, renders_book};
use crate::table::{
    books_wf, delta_applied, from_requested, has_symbol, snap_applied, table_delta,
    table_from_symbols, table_on_depth, table_snapshot,
};
use crate::text::{contains_substr, has_substr, to_upper, upper_of};

/// The payload of an OKX book message: symbol, bid and ask level lists
/// as decimal strings, and the update/sequence identifiers. OKX follows
/// the same snapshot/delta contract as the other delta-based venue.
pub struct OkxDepthData {
    pub s: String,
    pub b: Vec<(String, String)>,
    pub a: Vec<(String, String)>,
    pub u: u64,
    pub seq: u64,
}

/// An OKX book message: the channel topic, whether it is a snapshot or
/// an incremental update, the event time, and the payload.
pub struct OkxDepth {
    pub topic: String,
    pub data_type: String,
    pub ts: u64,
    pub data: OkxDepthData,
}

/// One instrument entry of the OKX subscription request.
pub struct SubscriptionArg {
    pub channel: String,
    pub inst_id: String,
}

/// The OKX subscription request frame's content.
pub struct Subscription {
    pub op: String,
    pub args: Vec<SubscriptionArg>,
}

/// Whether a raw text frame is a message for the subscribed book
/// channel.
pub fn is_okx_depth_text(raw: &str) -> (r: bool)
    ensures
        r == has_substr(raw@, "books"@),
{
    contains_substr(raw, "books")
}

/// The subscription request covering all requested symbols on the public
/// book channel.
pub fn okx_subscription(symbols: &Vec<String>) -> (r: Subscription)
    ensures
        r.op@ == "subscribe"@,
        r.args@.len() == symbols@.len(),
        forall|i: int|
            0 <= i < symbols@.len() ==> (#[trigger] r.args@[i]).channel@ == "books"@
                && r.args@[i].inst_id@ == upper_of(symbols@[i]@),
{
    let mut args: Vec<SubscriptionArg> = Vec::new();
    let mut i: usize = 0;
    while i < symbols.len()
        invariant
            i <= symbols@.len(),
            args@.len() == i,
            forall|j: int|
                0 <= j < i ==> (#[trigger] args@[j]).channel@ == "books"@ && args@[j].inst_id@
                    == upper_of(symbols@[j]@),
        decreases symbols@.len() - i,
    {
        let inst_id = to_upper(symbols[i].as_str());
        args.push(SubscriptionArg { channel: "books".to_owned(), inst_id });
        i = i + 1;
    }
    Subscription { op: "subscribe".to_owned(), args }
}

/// The per-symbol reconciled books of the OKX feed, owned exclusively by
/// that venue's handler task: the same state-machine contract as the
/// other delta-based venue, not a stub.
pub struct OkxOrderbook {
    pub books: Vec<(String, BookState)>,
}

impl OkxOrderbook {
    /// Every book well-formed, every symbol tracked at most once.
    pub open spec fn wf(self) -> bool {
        books_wf(self.books@)
    }

    /// One empty, uninitialized book per distinct requested symbol.
    pub fn from(symbols: Vec<String>) -> (r: OkxOrderbook)
        ensures
            r.wf(),
            forall|i: int|
                0 <= i < r.books@.len() ==> (#[trigger] r.books@[i]).1.abs_state() == empty_abs(),
            forall|j: int|
                0 <= j < symbols@.len() ==> has_symbol(r.books@, (#[trigger] symbols@[j])@),
            from_requested(r.books@, symbols@, symbols@.len() as int),
    {
        OkxOrderbook { books: table_from_symbols(symbols) }
    }

    /// Clears and repopulates the addressed symbol's book from a
    /// snapshot message.
    pub fn init_orderbook(&mut self, data: &OkxDepthData) -> (r: Result<(), FeedError>)
        requires
            old(self).wf(),
        ensures
            final(self).wf(),
            match r {
                Ok(_) => all_parse(data.b@) && all_parse(data.a@) && snap_applied(
                    old(self).books@,
                    final(self).books@,
                    data.s@,
                    data.b@,
                    data.a@,
                    data.u,
                ),
                Err(e) => {
                    &&& e.venue == Exchange::Okx
                    &&& final(self).books@ == old(self).books@
                    &&& (!has_symbol(old(self).books@, data.s@) || !(all_parse(data.b@)
                        && all_parse(data.a@)))
                },
            },
    {
        table_snapshot(&mut self.books, Exchange::Okx, &data.s, &data.b, &data.a, data.u)
    }

    /// Routes a delta message for the addressed symbol through the
    /// reconciliation engine: discarded before a snapshot, a full clear
    /// on a sequence gap, folded in when contiguous.
    pub fn update_orderbook(&mut self, data: &OkxDepthData) -> (r: Result<
        DeltaOutcome,
        FeedError,
    >)
        requires
            old(self).wf(),
        ensures
            final(self).wf(),
            r == Ok::<DeltaOutcome, FeedError>(DeltaOutcome::DiscardedUninitialized) ==> final(self).books@ == old(self).books@,
            match r {
                Ok(outcome) => delta_applied(
                    old(self).books@,
                    final(self).books@,
                    data.s@,
                    data.b@,
                    data.a@,
                    data.u,
                    outcome,
                ),
                Err(e) => {
                    &&& e.venue == Exchange::Okx
                    &&& final(self).books@ == old(self).books@
                    &&& (!has_symbol(old(self).books@, data.s@) || !(all_parse(data.b@)
                        && all_parse(data.a@)))
                },
            },
    {
        table_delta(&mut self.books, Exchange::Okx, &data.s, &data.b, &data.a, data.u)
    }

    /// One decoded book message, routed by its snapshot/delta tag, with
    /// a canonical book emitted after a successful apply.
    pub fn on_depth(&mut self, data: &OkxDepth) -> (r: Result<Option<Orderbook>, FeedError>)
        requires
            old(self).wf(),
        ensures
            final(self).wf(),
            match r {
                Ok(Some(ob)) => ob.wf() && ob.exchange == Exchange::Okx && ob.symbol@
                    == data.data.s@ && ob.updated == data.ts && ((data.data_type@ == "snapshot"@
                    && snap_applied(
                    old(self).books@,
                    final(self).books@,
                    data.data.s@,
                    data.data.b@,
                    data.data.a@,
                    data.data.u,
                )) || (data.data_type@ == "delta"@ && delta_applied(
                    old(self).books@,
                    final(self).books@,
                    data.data.s@,
                    data.data.b@,
                    data.data.a@,
                    data.data.u,
                    DeltaOutcome::Applied,
                ))) && (exists|i: int|
                    #![auto]
                    0 <= i < final(self).books@.len() && final(self).books@[i].0@ == data.data.s@
                        && renders_book(ob, Exchange::Okx, final(self).books@[i].1)),
                Ok(None) => data.data_type@ != "snapshot"@ && data.data_type@ != "delta"@ && final(self).books@ == old(self).books@,
                Err(e) => e.venue == Exchange::Okx && ((e.kind == FeedErrorKind::Decode
                    && final(self).books@ == old(self).books@ && (!has_symbol(
                    old(self).books@,
                    data.data.s@,
                ) || !(all_parse(data.data.b@) && all_parse(data.data.a@)))) || (e.kind
                    == FeedErrorKind::ProtocolSequence && data.data_type@ == "delta"@ && (final(self).books@
                    == old(self).books@ || delta_applied(
                    old(self).books@,
                    final(self).books@,
                    data.data.s@,
                    data.data.b@,
                    data.data.a@,
                    data.data.u,
                    DeltaOutcome::GapDetected,
                )))),
            },
    {
        table_on_depth(
            &mut self.books,
            Exchange::Okx,
            &data.data_type,
            data.ts,
            &data.data.s,
            &data.data.b,
            &data.data.a,
            data.data.u,
        )
    }
}

} // verus!
