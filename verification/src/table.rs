use vstd::prelude::*;

verus! {

use crate::book::{
    BookState, DeltaOutcome, all_parse, delta_step, empty_abs, parsed_levels, snapshot_step,
};
use crate::error::{FeedError, FeedErrorKind};
use crate::exchanges::formatter::{Exchange, Orderbook, OrderbookFormatter, renders_book};

// ---------------------------------------------------------------------------
// The per-venue table of reconciled books, one per tracked symbol. Each
// delta-based venue holds one such table, owned exclusively by its
// handler task; both delta-based venues share this logic.
// ---------------------------------------------------------------------------
/// Every book well-formed and every symbol listed at most once.
pub open spec fn books_wf(books: Seq<(String, BookState)>) -> bool {
    &&& (forall|i: int| 0 <= i < books.len() ==> (#[trigger] books[i]).1.wf())
    &&& (forall|i: int, j: int| 0 <= i < j < books.len() ==> books[i].0@ != books[j].0@)
}

/// Whether some entry tracks the symbol.
pub open spec fn has_symbol(books: Seq<(String, BookState)>, sym: Seq<char>) -> bool {
    exists|i: int| 0 <= i < books.len() && (#[trigger] books[i]).0@ == sym
}

/// Every tracked symbol is one of the first `bound` requested symbols.
pub open spec fn from_requested(
    books: Seq<(String, BookState)>,
    symbols: Seq<String>,
    bound: int,
) -> bool {
    forall|t: int|
        0 <= t < books.len() ==> (exists|j: int|
            0 <= j < bound && (#[trigger] books[t]).0@ == symbols[j]@)
}

/// A snapshot for symbol `sym` was folded in: that symbol's book is
/// rebuilt per `snapshot_step`, every other entry is untouched, and no
/// symbol is added or dropped.
pub open spec fn snap_applied(
    old_books: Seq<(String, BookState)>,
    new_books: Seq<(String, BookState)>,
    sym: Seq<char>,
    b: Seq<(String, String)>,
    a: Seq<(String, String)>,
    u: u64,
) -> bool {
    exists|i: int|
        #![auto]
        0 <= i < old_books.len() && old_books[i].0@ == sym && new_books.len() == old_books.len()
            && new_books[i].0 == old_books[i].0 && new_books[i].1.abs_state() == snapshot_step(
            parsed_levels(b),
            parsed_levels(a),
            u,
        ) && (forall|j: int| 0 <= j < old_books.len() && j != i ==> new_books[j] == old_books[j])
}

/// A delta for symbol `sym` was taken through `delta_step` with the
/// given outcome: that symbol's book stepped, every other entry
/// untouched.
pub open spec fn delta_applied(
    old_books: Seq<(String, BookState)>,
    new_books: Seq<(String, BookState)>,
    sym: Seq<char>,
    b: Seq<(String, String)>,
    a: Seq<(String, String)>,
    u: u64,
    outcome: DeltaOutcome,
) -> bool {
    exists|i: int|
        #![auto]
        0 <= i < old_books.len() && old_books[i].0@ == sym && new_books.len() == old_books.len()
            && new_books[i].0 == old_books[i].0 && (new_books[i].1.abs_state(), outcome)
            == delta_step(old_books[i].1.abs_state(), parsed_levels(b), parsed_levels(a), u) && (
        forall|j: int| 0 <= j < old_books.len() && j != i ==> new_books[j] == old_books[j])
}

/// Finds the entry tracking a symbol, if any.
pub fn find_symbol(books: &Vec<(String, BookState)>, sym: &String) -> (r: Option<usize>)
    ensures
        match r {
            Some(i) => i < books@.len() && books@[i as int].0@ == sym@,
            None => !has_symbol(books@, sym@),
        },
{
    let mut i: usize = 0;
    while i < books.len()
        invariant
            i <= books@.len(),
            forall|j: int| 0 <= j < i ==> (#[trigger] books@[j]).0@ != sym@,
        decreases books@.len() - i,
    {
        if books[i].0 == *sym {
            return Some(i);
        }
        i = i + 1;
    }
    None
}

/// One empty, uninitialized book per distinct requested symbol.
pub fn table_from_symbols(symbols: Vec<String>) -> (r: Vec<(String, BookState)>)
    ensures
        books_wf(r@),
        forall|i: int| 0 <= i < r@.len() ==> (#[trigger] r@[i]).1.abs_state() == empty_abs(),
        forall|j: int| 0 <= j < symbols@.len() ==> has_symbol(r@, (#[trigger] symbols@[j])@),
        from_requested(r@, symbols@, symbols@.len() as int),
{
    let mut books: Vec<(String, BookState)> = Vec::new();
    let mut i: usize = 0;
    while i < symbols.len()
        invariant
            i <= symbols@.len(),
            books_wf(books@),
            forall|t: int|
                0 <= t < books@.len() ==> (#[trigger] books@[t]).1.abs_state() == empty_abs(),
            forall|j: int| 0 <= j < i ==> has_symbol(books@, (#[trigger] symbols@[j])@),
            from_requested(books@, symbols@, i as int),
        decreases symbols@.len() - i,
    {
        let sym = &symbols[i];
        let ghost pre = books@;
        match find_symbol(&books, sym) {
            Some(_) => {
                proof {
                    assert(has_symbol(books@, symbols@[i as int]@));
                }
            },
            None => {
                let nb = BookState::new();
                books.push((sym.clone(), nb));
                proof {
                    assert(books@ == pre.push((symbols@[i as int], nb)));
                    assert forall|j: int| 0 <= j < i + 1 implies has_symbol(
                        books@,
                        (#[trigger] symbols@[j])@,
                    ) by {
                        if j < i {
                            let t = choose|t: int|
                                0 <= t < pre.len() && (#[trigger] pre[t]).0@ == symbols@[j]@;
                            assert(books@[t] == pre[t]);
                        } else {
                            assert(books@[pre.len() as int].0@ == symbols@[i as int]@);
                        }
                    }
                    assert forall|t: int, u: int| 0 <= t < u < books@.len() implies books@[t].0@
                        != books@[u].0@ by {
                        if u < pre.len() {
                        } else {
                            assert(books@[u].0@ == symbols@[i as int]@);
                            assert(books@[t] == pre[t]);
                            assert(!has_symbol(pre, symbols@[i as int]@));
                        }
                    }
                    assert forall|t: int| 0 <= t < books@.len() implies (exists|j: int|
                        0 <= j < i + 1 && (#[trigger] books@[t]).0@ == symbols@[j]@) by {
                        if t < pre.len() {
                            assert(books@[t] == pre[t]);
                            assert(from_requested(pre, symbols@, i as int));
                            let j = choose|j: int|
                                0 <= j < i && (#[trigger] pre[t]).0@ == symbols@[j]@;
                            assert(0 <= j < i + 1 && books@[t].0@ == symbols@[j]@);
                        } else {
                            assert(0 <= i < i + 1 && books@[t].0@ == symbols@[i as int]@);
                        }
                    }
                    assert(from_requested(books@, symbols@, i + 1));
                }
            },
        }
        i = i + 1;
    }
    books
}

/// Clears and repopulates the addressed symbol's book from a snapshot
/// message. An untracked symbol or a malformed decimal string is a
/// decode error; the table is then left untouched.
pub fn table_snapshot(
    books: &mut Vec<(String, BookState)>,
    venue: Exchange,
    s: &String,
    b: &Vec<(String, String)>,
    a: &Vec<(String, String)>,
    u: u64,
) -> (r: Result<(), FeedError>)
    requires
        books_wf(old(books)@),
    ensures
        books_wf(final(books)@),
        match r {
            Ok(_) => all_parse(b@) && all_parse(a@) && snap_applied(
                old(books)@,
                final(books)@,
                s@,
                b@,
                a@,
                u,
            ),
            Err(e) => {
                &&& e.venue == venue
                &&& e.kind == FeedErrorKind::Decode
                &&& final(books)@ == old(books)@
                &&& (!has_symbol(old(books)@, s@) || !(all_parse(b@) && all_parse(a@)))
                &&& (!has_symbol(old(books)@, s@) ==> e.detail@ == "unknown symbol"@)
                &&& (has_symbol(old(books)@, s@) ==> e.detail@ == "malformed decimal level"@)
            },
        },
{
    let i = match find_symbol(books, s) {
        Some(i) => i,
        None => {
            return Err(
                FeedError {
                    venue,
                    kind: FeedErrorKind::Decode,
                    detail: "unknown symbol".to_owned(),
                },
            );
        },
    };
    proof {
        assert(has_symbol(books@, s@));
    }
    let ghost pre = books@;
    let mut entry = books.remove(i);
    let res = entry.1.apply_snapshot(b, a, u);
    books.insert(i, entry);
    proof {
        assert(books@ =~= pre.update(i as int, (pre[i as int].0, entry.1)));
    }
    match res {
        Ok(_) => {
            proof {
                lemma_table_update_ok(pre, books@, i as int, entry.1);
            }
            Ok(())
        },
        Err(_) => {
            proof {
                assert(entry == pre[i as int]);
                assert(books@ =~= pre);
            }
            Err(
                FeedError {
                    venue,
                    kind: FeedErrorKind::Decode,
                    detail: "malformed decimal level".to_owned(),
                },
            )
        },
    }
}

/// Routes a delta message for the addressed symbol through the
/// reconciliation engine: discarded before a snapshot, a full clear on a
/// sequence gap, folded in when contiguous. An untracked symbol or a
/// malformed decimal string is a decode error; the table is then left
/// untouched.
pub fn table_delta(
    books: &mut Vec<(String, BookState)>,
    venue: Exchange,
    s: &String,
    b: &Vec<(String, String)>,
    a: &Vec<(String, String)>,
    u: u64,
) -> (r: Result<DeltaOutcome, FeedError>)
    requires
        books_wf(old(books)@),
    ensures
        books_wf(final(books)@),
        r == Ok::<DeltaOutcome, FeedError>(DeltaOutcome::DiscardedUninitialized) ==> final(books)@
            == old(books)@,
        match r {
            Ok(outcome) => delta_applied(old(books)@, final(books)@, s@, b@, a@, u, outcome),
            Err(e) => {
                &&& e.venue == venue
                &&& e.kind == FeedErrorKind::Decode
                &&& final(books)@ == old(books)@
                &&& (!has_symbol(old(books)@, s@) || !(all_parse(b@) && all_parse(a@)))
                &&& (!has_symbol(old(books)@, s@) ==> e.detail@ == "unknown symbol"@)
                &&& (has_symbol(old(books)@, s@) ==> e.detail@ == "malformed decimal level"@)
            },
        },
{
    let i = match find_symbol(books, s) {
        Some(i) => i,
        None => {
            return Err(
                FeedError {
                    venue,
                    kind: FeedErrorKind::Decode,
                    detail: "unknown symbol".to_owned(),
                },
            );
        },
    };
    proof {
        assert(has_symbol(books@, s@));
    }
    let ghost pre = books@;
    let mut entry = books.remove(i);
    let res = entry.1.apply_delta(b, a, u);
    books.insert(i, entry);
    proof {
        assert(books@ =~= pre.update(i as int, (pre[i as int].0, entry.1)));
    }
    match res {
        Ok(outcome) => {
            proof {
                lemma_table_update_ok(pre, books@, i as int, entry.1);
                if outcome == DeltaOutcome::DiscardedUninitialized {
                    assert(entry == pre[i as int]);
                    assert(books@ =~= pre);
                }
            }
            Ok(outcome)
        },
        Err(_) => {
            proof {
                assert(entry == pre[i as int]);
                assert(books@ =~= pre);
            }
            Err(
                FeedError {
                    venue,
                    kind: FeedErrorKind::Decode,
                    detail: "malformed decimal level".to_owned(),
                },
            )
        },
    }
}

/// One decoded depth message, routed as a delta-based venue's protocol
/// demands: a snapshot initializes the symbol's book, a delta steps it,
/// and a canonical book is emitted after a successful apply. A sequence
/// violation (delta before snapshot, or a gap) is surfaced as a
/// recoverable protocol-sequence error, never silently ignored; a decode
/// failure is surfaced as a decode error.
pub fn table_on_depth(
    books: &mut Vec<(String, BookState)>,
    venue: Exchange,
    data_type: &String,
    ts: u64,
    s: &String,
    b: &Vec<(String, String)>,
    a: &Vec<(String, String)>,
    u: u64,
) -> (r: Result<Option<Orderbook>, FeedError>)
    requires
        books_wf(old(books)@),
    ensures
        books_wf(final(books)@),
        match r {
            Ok(Some(ob)) => {
                &&& (data_type@ == "snapshot"@ && all_parse(b@) && all_parse(a@) && snap_applied(
                    old(books)@,
                    final(books)@,
                    s@,
                    b@,
                    a@,
                    u,
                )) || (data_type@ == "delta"@ && delta_applied(
                    old(books)@,
                    final(books)@,
                    s@,
                    b@,
                    a@,
                    u,
                    DeltaOutcome::Applied,
                ))
                &&& ob.wf()
                &&& ob.exchange == venue
                &&& ob.symbol@ == s@
                &&& ob.updated == ts
                &&& exists|i: int|
                    #![auto]
                    0 <= i < final(books)@.len() && final(books)@[i].0@ == s@ && renders_book(
                        ob,
                        venue,
                        final(books)@[i].1,
                    )
            },
            Ok(None) => data_type@ != "snapshot"@ && data_type@ != "delta"@ && final(books)@ == old(books)@,
            Err(e) => e.venue == venue && ((e.kind == FeedErrorKind::Decode && final(books)@ == old(books)@ && (!has_symbol(old(books)@, s@) || !(all_parse(b@) && all_parse(a@)))) || (e.kind
                == FeedErrorKind::ProtocolSequence && data_type@ == "delta"@ && (final(books)@
                == old(books)@ || delta_applied(
                old(books)@,
                final(books)@,
                s@,
                b@,
                a@,
                u,
                DeltaOutcome::GapDetected,
            )))),
        },
{
    if *data_type == "snapshot".to_owned() {
        match table_snapshot(books, venue, s, b, a, u) {
            Ok(_) => {
                let i = match find_symbol(books, s) {
                    Some(i) => i,
                    None => {
                        proof {
                            lemma_snap_applied_has_symbol(old(books)@, books@, s@, b@, a@, u);
                        }
                        return Err(
                            FeedError {
                                venue,
                                kind: FeedErrorKind::Decode,
                                detail: "unknown symbol".to_owned(),
                            },
                        );
                    },
                };
                let entry = &books[i];
                let ob = OrderbookFormatter::from_book(venue, s, ts, &entry.1);
                Ok(Some(ob))
            },
            Err(e) => Err(e),
        }
    } else if *data_type == "delta".to_owned() {
        match table_delta(books, venue, s, b, a, u) {
            Ok(DeltaOutcome::Applied) => {
                let i = match find_symbol(books, s) {
                    Some(i) => i,
                    None => {
                        proof {
                            lemma_delta_applied_has_symbol(
                                old(books)@,
                                books@,
                                s@,
                                b@,
                                a@,
                                u,
                                DeltaOutcome::Applied,
                            );
                        }
                        return Err(
                            FeedError {
                                venue,
                                kind: FeedErrorKind::Decode,
                                detail: "unknown symbol".to_owned(),
                            },
                        );
                    },
                };
                let entry = &books[i];
                let ob = OrderbookFormatter::from_book(venue, s, ts, &entry.1);
                Ok(Some(ob))
            },
            Ok(DeltaOutcome::DiscardedUninitialized) => Err(
                FeedError {
                    venue,
                    kind: FeedErrorKind::ProtocolSequence,
                    detail: "delta before snapshot".to_owned(),
                },
            ),
            Ok(DeltaOutcome::GapDetected) => Err(
                FeedError {
                    venue,
                    kind: FeedErrorKind::ProtocolSequence,
                    detail: "sequence gap".to_owned(),
                },
            ),
            Err(e) => Err(e),
        }
    } else {
        Ok(None)
    }
}

/// After replacing one entry's book in a well-formed table, the table is
/// well-formed again and only that entry changed.
proof fn lemma_table_update_ok(
    pre: Seq<(String, BookState)>,
    post: Seq<(String, BookState)>,
    i: int,
    nb: BookState,
)
    requires
        books_wf(pre),
        0 <= i < pre.len(),
        nb.wf(),
        post == pre.update(i, (pre[i].0, nb)),
    ensures
        books_wf(post),
        post.len() == pre.len(),
        post[i].0 == pre[i].0,
        post[i].1 == nb,
        forall|j: int| 0 <= j < pre.len() && j != i ==> post[j] == pre[j],
{
    assert forall|t: int| 0 <= t < post.len() implies (#[trigger] post[t]).1.wf() by {
        if t != i {
            assert(post[t] == pre[t]);
        }
    }
    assert forall|t: int, u: int| 0 <= t < u < post.len() implies post[t].0@ != post[u].0@ by {
        assert(post[t].0 == pre[t].0);
        assert(post[u].0 == pre[u].0);
    }
}

/// A table a snapshot was folded into tracks the snapshot's symbol.
proof fn lemma_snap_applied_has_symbol(
    pre: Seq<(String, BookState)>,
    post: Seq<(String, BookState)>,
    sym: Seq<char>,
    b: Seq<(String, String)>,
    a: Seq<(String, String)>,
    u: u64,
)
    requires
        snap_applied(pre, post, sym, b, a, u),
    ensures
        has_symbol(post, sym),
{
    let i = choose|i: int|
        #![auto]
        0 <= i < pre.len() && pre[i].0@ == sym && post.len() == pre.len() && post[i].0 == pre[i].0
            && post[i].1.abs_state() == snapshot_step(parsed_levels(b), parsed_levels(a), u) && (
        forall|j: int| 0 <= j < pre.len() && j != i ==> post[j] == pre[j]);
    assert(post[i].0@ == sym);
}

/// A table a delta was stepped through tracks the delta's symbol.
proof fn lemma_delta_applied_has_symbol(
    pre: Seq<(String, BookState)>,
    post: Seq<(String, BookState)>,
    sym: Seq<char>,
    b: Seq<(String, String)>,
    a: Seq<(String, String)>,
    u: u64,
    outcome: DeltaOutcome,
)
    requires
        delta_applied(pre, post, sym, b, a, u, outcome),
    ensures
        has_symbol(post, sym),
{
    let i = choose|i: int|
        #![auto]
        0 <= i < pre.len() && pre[i].0@ == sym && post.len() == pre.len() && post[i].0 == pre[i].0
            && (post[i].1.abs_state(), outcome) == delta_step(
            pre[i].1.abs_state(),
            parsed_levels(b),
            parsed_levels(a),
            u,
        ) && (forall|j: int| 0 <= j < pre.len() && j != i ==> post[j] == pre[j]);
    assert(post[i].0@ == sym);
}

} // verus!
