use vstd::prelude::*;

verus! {

use crate::decimal::{Dec, dec_of, dec_from_str};

// ---------------------------------------------------------------------------
// One side of a book: price levels held as a list of (price, quantity)
// pairs, kept strictly sorted by ascending numeric price. Sortedness makes
// the price a key: no two entries share a numeric price.
// ---------------------------------------------------------------------------
/// Keys (numeric prices, as `val28` images) strictly increase along the side.
pub open spec fn sorted_keys(s: Seq<(Dec, Dec)>) -> bool {
    forall|i: int, j: int| 0 <= i < j < s.len() ==> s[i].0.val28() < s[j].0.val28()
}

/// Every price and quantity on the side is a well-formed decimal.
pub open spec fn entries_wf(s: Seq<(Dec, Dec)>) -> bool {
    forall|i: int| 0 <= i < s.len() ==> (#[trigger] s[i]).0.wf() && s[i].1.wf()
}

/// Whether some entry carries the numeric price `k`.
pub open spec fn key_in(s: Seq<(Dec, Dec)>, k: int) -> bool {
    exists|i: int| 0 <= i < s.len() && (#[trigger] s[i]).0.val28() == k
}

/// Insert-or-overwrite at price `p`: if an entry with the same numeric
/// price exists its quantity becomes `q` (the stored price representation
/// is kept); otherwise `(p, q)` is inserted at its sorted position.
pub open spec fn upsert_spec(s: Seq<(Dec, Dec)>, p: Dec, q: Dec) -> Seq<(Dec, Dec)>
    decreases s.len(),
{
    if s.len() == 0 {
        seq![(p, q)]
    } else if s[0].0.val28() < p.val28() {
        seq![s[0]] + upsert_spec(s.skip(1), p, q)
    } else if s[0].0.val28() == p.val28() {
        seq![(s[0].0, q)] + s.skip(1)
    } else {
        seq![(p, q)] + s
    }
}

/// Remove the entry with numeric price `k`, if present; a no-op otherwise.
pub open spec fn remove_spec(s: Seq<(Dec, Dec)>, k: int) -> Seq<(Dec, Dec)>
    decreases s.len(),
{
    if s.len() == 0 {
        s
    } else if s[0].0.val28() == k {
        s.skip(1)
    } else {
        seq![s[0]] + remove_spec(s.skip(1), k)
    }
}

/// One delta entry: a quantity of exactly zero removes the price,
/// any other quantity inserts or overwrites it.
pub open spec fn apply_entry_spec(s: Seq<(Dec, Dec)>, e: (Dec, Dec)) -> Seq<(Dec, Dec)> {
    if e.1.val28() == 0 {
        remove_spec(s, e.0.val28())
    } else {
        upsert_spec(s, e.0, e.1)
    }
}

/// A whole delta applied to a side, entry by entry in wire order.
pub open spec fn delta_fold(s: Seq<(Dec, Dec)>, es: Seq<(Dec, Dec)>) -> Seq<(Dec, Dec)>
    decreases es.len(),
{
    if es.len() == 0 {
        s
    } else {
        delta_fold(apply_entry_spec(s, es[0]), es.skip(1))
    }
}

/// A snapshot's level list folded into a side: plain inserts/overwrites,
/// entry by entry in wire order (a snapshot replaces, it never removes).
pub open spec fn snap_fold(s: Seq<(Dec, Dec)>, es: Seq<(Dec, Dec)>) -> Seq<(Dec, Dec)>
    decreases es.len(),
{
    if es.len() == 0 {
        s
    } else {
        snap_fold(upsert_spec(s, es[0].0, es[0].1), es.skip(1))
    }
}

// ---------------------------------------------------------------------------
// Invariance of sortedness and well-formedness under the side operations.
// ---------------------------------------------------------------------------
/// Every key of an upserted side was a key of the side, or is the
/// upserted price's key.
pub proof fn lemma_upsert_keys(s: Seq<(Dec, Dec)>, p: Dec, q: Dec)
    ensures
        forall|i: int|
            0 <= i < upsert_spec(s, p, q).len() ==> key_in(
                s,
                (#[trigger] upsert_spec(s, p, q)[i]).0.val28(),
            ) || upsert_spec(s, p, q)[i].0.val28() == p.val28(),
    decreases s.len(),
{
    let r = upsert_spec(s, p, q);
    if s.len() == 0 {
    } else if s[0].0.val28() < p.val28() {
        lemma_upsert_keys(s.skip(1), p, q);
        let rest = upsert_spec(s.skip(1), p, q);
        assert forall|i: int|
            0 <= i < r.len() implies key_in(s, (#[trigger] r[i]).0.val28()) || r[i].0.val28()
            == p.val28() by {
            if i == 0 {
                assert(r[0] == s[0]);
                assert(key_in(s, s[0].0.val28()));
            } else {
                assert(r[i] == rest[i - 1]);
                if key_in(s.skip(1), rest[i - 1].0.val28()) {
                    let j = choose|j: int|
                        0 <= j < s.skip(1).len() && (#[trigger] s.skip(1)[j]).0.val28() == rest[i
                            - 1].0.val28();
                    assert(s[j + 1] == s.skip(1)[j]);
                    assert(key_in(s, rest[i - 1].0.val28()));
                }
            }
        }
    } else if s[0].0.val28() == p.val28() {
        assert forall|i: int|
            0 <= i < r.len() implies key_in(s, (#[trigger] r[i]).0.val28()) || r[i].0.val28()
            == p.val28() by {
            if i == 0 {
                assert(r[0].0 == s[0].0);
                assert(key_in(s, s[0].0.val28()));
            } else {
                assert(r[i] == s.skip(1)[i - 1]);
                assert(s[i] == s.skip(1)[i - 1]);
                assert(key_in(s, s[i].0.val28()));
            }
        }
    } else {
        assert forall|i: int|
            0 <= i < r.len() implies key_in(s, (#[trigger] r[i]).0.val28()) || r[i].0.val28()
            == p.val28() by {
            if i > 0 {
                assert(r[i] == s[i - 1]);
                assert(key_in(s, s[i - 1].0.val28()));
            }
        }
    }
}

/// Upserting keeps the side strictly sorted.
pub proof fn lemma_upsert_sorted(s: Seq<(Dec, Dec)>, p: Dec, q: Dec)
    requires
        sorted_keys(s),
    ensures
        sorted_keys(upsert_spec(s, p, q)),
    decreases s.len(),
{
    let r = upsert_spec(s, p, q);
    if s.len() == 0 {
    } else if s[0].0.val28() < p.val28() {
        assert(sorted_keys(s.skip(1))) by {
            assert(forall|i: int, j: int|
                0 <= i < j < s.skip(1).len() ==> s.skip(1)[i] == s[i + 1] && s.skip(1)[j] == s[j
                    + 1]);
        }
        lemma_upsert_sorted(s.skip(1), p, q);
        lemma_upsert_keys(s.skip(1), p, q);
        let rest = upsert_spec(s.skip(1), p, q);
        assert forall|i: int, j: int| 0 <= i < j < r.len() implies r[i].0.val28()
            < r[j].0.val28() by {
            if i == 0 {
                assert(r[j] == rest[j - 1]);
                if key_in(s.skip(1), rest[j - 1].0.val28()) {
                    let w = choose|w: int|
                        0 <= w < s.skip(1).len() && (#[trigger] s.skip(1)[w]).0.val28() == rest[j
                            - 1].0.val28();
                    assert(s.skip(1)[w] == s[w + 1]);
                    assert(s[0].0.val28() < s[w + 1].0.val28());
                }
            } else {
                assert(r[i] == rest[i - 1]);
                assert(r[j] == rest[j - 1]);
            }
        }
    } else if s[0].0.val28() == p.val28() {
        assert forall|i: int, j: int| 0 <= i < j < r.len() implies r[i].0.val28()
            < r[j].0.val28() by {
            if i == 0 {
                assert(r[0].0 == s[0].0);
                assert(r[j] == s.skip(1)[j - 1]);
                assert(s.skip(1)[j - 1] == s[j]);
            } else {
                assert(r[i] == s[i]);
                assert(r[j] == s[j]);
            }
        }
    } else {
        assert forall|i: int, j: int| 0 <= i < j < r.len() implies r[i].0.val28()
            < r[j].0.val28() by {
            if i == 0 {
                assert(r[j] == s[j - 1]);
            } else {
                assert(r[i] == s[i - 1]);
                assert(r[j] == s[j - 1]);
            }
        }
    }
}

/// Upserting well-formed values keeps every entry well-formed.
pub proof fn lemma_upsert_wf(s: Seq<(Dec, Dec)>, p: Dec, q: Dec)
    requires
        entries_wf(s),
        p.wf(),
        q.wf(),
    ensures
        entries_wf(upsert_spec(s, p, q)),
    decreases s.len(),
{
    let r = upsert_spec(s, p, q);
    if s.len() == 0 {
    } else if s[0].0.val28() < p.val28() {
        assert(entries_wf(s.skip(1))) by {
            assert(forall|i: int| 0 <= i < s.skip(1).len() ==> s.skip(1)[i] == s[i + 1]);
        }
        lemma_upsert_wf(s.skip(1), p, q);
        let rest = upsert_spec(s.skip(1), p, q);
        assert forall|i: int| 0 <= i < r.len() implies (#[trigger] r[i]).0.wf() && r[i].1.wf() by {
            if i > 0 {
                assert(r[i] == rest[i - 1]);
            }
        }
    } else if s[0].0.val28() == p.val28() {
        assert forall|i: int| 0 <= i < r.len() implies (#[trigger] r[i]).0.wf() && r[i].1.wf() by {
            if i == 0 {
                assert(s[0].0.wf());
            } else {
                assert(r[i] == s.skip(1)[i - 1]);
                assert(s.skip(1)[i - 1] == s[i]);
            }
        }
    } else {
        assert forall|i: int| 0 <= i < r.len() implies (#[trigger] r[i]).0.wf() && r[i].1.wf() by {
            if i > 0 {
                assert(r[i] == s[i - 1]);
            }
        }
    }
}

/// Every key of a side after a removal was a key before it.
pub proof fn lemma_remove_keys(s: Seq<(Dec, Dec)>, k: int)
    ensures
        forall|i: int|
            0 <= i < remove_spec(s, k).len() ==> key_in(
                s,
                (#[trigger] remove_spec(s, k)[i]).0.val28(),
            ),
    decreases s.len(),
{
    let r = remove_spec(s, k);
    if s.len() == 0 {
    } else if s[0].0.val28() == k {
        assert forall|i: int| 0 <= i < r.len() implies key_in(s, (#[trigger] r[i]).0.val28()) by {
            assert(r[i] == s[i + 1]);
            assert(key_in(s, s[i + 1].0.val28()));
        }
    } else {
        lemma_remove_keys(s.skip(1), k);
        let rest = remove_spec(s.skip(1), k);
        assert forall|i: int| 0 <= i < r.len() implies key_in(s, (#[trigger] r[i]).0.val28()) by {
            if i == 0 {
                assert(key_in(s, s[0].0.val28()));
            } else {
                assert(r[i] == rest[i - 1]);
                let j = choose|j: int|
                    0 <= j < s.skip(1).len() && (#[trigger] s.skip(1)[j]).0.val28() == rest[i
                        - 1].0.val28();
                assert(s[j + 1] == s.skip(1)[j]);
                assert(key_in(s, rest[i - 1].0.val28()));
            }
        }
    }
}

/// Removal keeps the side strictly sorted and well-formed.
pub proof fn lemma_remove_sorted_wf(s: Seq<(Dec, Dec)>, k: int)
    requires
        sorted_keys(s),
        entries_wf(s),
    ensures
        sorted_keys(remove_spec(s, k)),
        entries_wf(remove_spec(s, k)),
    decreases s.len(),
{
    let r = remove_spec(s, k);
    if s.len() == 0 {
    } else if s[0].0.val28() == k {
        assert forall|i: int| 0 <= i < r.len() implies (#[trigger] r[i]).0.wf() && r[i].1.wf() by {
            assert(r[i] == s[i + 1]);
        }
        assert forall|i: int, j: int| 0 <= i < j < r.len() implies r[i].0.val28()
            < r[j].0.val28() by {
            assert(r[i] == s[i + 1]);
            assert(r[j] == s[j + 1]);
        }
    } else {
        assert(sorted_keys(s.skip(1)) && entries_wf(s.skip(1))) by {
            assert(forall|i: int| 0 <= i < s.skip(1).len() ==> s.skip(1)[i] == s[i + 1]);
        }
        lemma_remove_sorted_wf(s.skip(1), k);
        lemma_remove_keys(s.skip(1), k);
        let rest = remove_spec(s.skip(1), k);
        assert forall|i: int| 0 <= i < r.len() implies (#[trigger] r[i]).0.wf() && r[i].1.wf() by {
            if i > 0 {
                assert(r[i] == rest[i - 1]);
            }
        }
        assert forall|i: int, j: int| 0 <= i < j < r.len() implies r[i].0.val28()
            < r[j].0.val28() by {
            if i == 0 {
                assert(r[j] == rest[j - 1]);
                let w = choose|w: int|
                    0 <= w < s.skip(1).len() && (#[trigger] s.skip(1)[w]).0.val28() == rest[j
                        - 1].0.val28();
                assert(s.skip(1)[w] == s[w + 1]);
                assert(s[0].0.val28() < s[w + 1].0.val28());
            } else {
                assert(r[i] == rest[i - 1]);
                assert(r[j] == rest[j - 1]);
            }
        }
    }
}

/// After removing `k` from a sorted side, `k` is no longer present.
pub proof fn lemma_remove_gone(s: Seq<(Dec, Dec)>, k: int)
    requires
        sorted_keys(s),
    ensures
        !key_in(remove_spec(s, k), k),
    decreases s.len(),
{
    let r = remove_spec(s, k);
    if s.len() == 0 {
    } else if s[0].0.val28() == k {
        assert forall|i: int| 0 <= i < r.len() implies (#[trigger] r[i]).0.val28() != k by {
            assert(r[i] == s[i + 1]);
            assert(s[0].0.val28() < s[i + 1].0.val28());
        }
    } else {
        assert(sorted_keys(s.skip(1))) by {
            assert(forall|i: int| 0 <= i < s.skip(1).len() ==> s.skip(1)[i] == s[i + 1]);
        }
        lemma_remove_gone(s.skip(1), k);
        let rest = remove_spec(s.skip(1), k);
        assert forall|i: int| 0 <= i < r.len() implies (#[trigger] r[i]).0.val28() != k by {
            if i > 0 {
                assert(r[i] == rest[i - 1]);
                assert(!key_in(rest, k));
            }
        }
    }
}

/// Removing a key that is not present leaves the side unchanged.
pub proof fn lemma_remove_absent(s: Seq<(Dec, Dec)>, k: int)
    requires
        !key_in(s, k),
    ensures
        remove_spec(s, k) == s,
    decreases s.len(),
{
    if s.len() == 0 {
    } else {
        assert(s[0].0.val28() != k);
        assert(!key_in(s.skip(1), k)) by {
            if key_in(s.skip(1), k) {
                let j = choose|j: int|
                    0 <= j < s.skip(1).len() && (#[trigger] s.skip(1)[j]).0.val28() == k;
                assert(s[j + 1] == s.skip(1)[j]);
                assert(key_in(s, k));
            }
        }
        lemma_remove_absent(s.skip(1), k);
        assert(seq![s[0]] + s.skip(1) =~= s);
    }
}

/// One delta entry keeps the side sorted and well-formed.
pub proof fn lemma_apply_entry_invariants(s: Seq<(Dec, Dec)>, e: (Dec, Dec))
    requires
        sorted_keys(s),
        entries_wf(s),
        e.0.wf(),
        e.1.wf(),
    ensures
        sorted_keys(apply_entry_spec(s, e)),
        entries_wf(apply_entry_spec(s, e)),
{
    if e.1.val28() == 0 {
        lemma_remove_sorted_wf(s, e.0.val28());
    } else {
        lemma_upsert_sorted(s, e.0, e.1);
        lemma_upsert_wf(s, e.0, e.1);
    }
}

/// A whole delta keeps the side sorted and well-formed.
pub proof fn lemma_delta_fold_invariants(s: Seq<(Dec, Dec)>, es: Seq<(Dec, Dec)>)
    requires
        sorted_keys(s),
        entries_wf(s),
        entries_wf(es),
    ensures
        sorted_keys(delta_fold(s, es)),
        entries_wf(delta_fold(s, es)),
    decreases es.len(),
{
    if es.len() > 0 {
        assert(es[0].0.wf() && es[0].1.wf());
        lemma_apply_entry_invariants(s, es[0]);
        assert(entries_wf(es.skip(1))) by {
            assert(forall|i: int| 0 <= i < es.skip(1).len() ==> es.skip(1)[i] == es[i + 1]);
        }
        lemma_delta_fold_invariants(apply_entry_spec(s, es[0]), es.skip(1));
    }
}

/// A snapshot's level list keeps the side sorted and well-formed.
pub proof fn lemma_snap_fold_invariants(s: Seq<(Dec, Dec)>, es: Seq<(Dec, Dec)>)
    requires
        sorted_keys(s),
        entries_wf(s),
        entries_wf(es),
    ensures
        sorted_keys(snap_fold(s, es)),
        entries_wf(snap_fold(s, es)),
    decreases es.len(),
{
    if es.len() > 0 {
        assert(es[0].0.wf() && es[0].1.wf());
        lemma_upsert_sorted(s, es[0].0, es[0].1);
        lemma_upsert_wf(s, es[0].0, es[0].1);
        assert(entries_wf(es.skip(1))) by {
            assert(forall|i: int| 0 <= i < es.skip(1).len() ==> es.skip(1)[i] == es[i + 1]);
        }
        lemma_snap_fold_invariants(upsert_spec(s, es[0].0, es[0].1), es.skip(1));
    }
}

// ---------------------------------------------------------------------------
// What the side operations mean price by price.
// ---------------------------------------------------------------------------
/// The quantity resting at numeric price `k`, if that price is present.
pub open spec fn side_qty(s: Seq<(Dec, Dec)>, k: int) -> Option<Dec>
    decreases s.len(),
{
    if s.len() == 0 {
        None
    } else if s[0].0.val28() == k {
        Some(s[0].1)
    } else {
        side_qty(s.skip(1), k)
    }
}

/// An absent price rests no quantity.
pub proof fn lemma_side_qty_absent(s: Seq<(Dec, Dec)>, k: int)
    requires
        !key_in(s, k),
    ensures
        side_qty(s, k) is None,
    decreases s.len(),
{
    if s.len() > 0 {
        assert(s[0].0.val28() != k);
        assert(!key_in(s.skip(1), k)) by {
            if key_in(s.skip(1), k) {
                let j = choose|j: int|
                    0 <= j < s.skip(1).len() && (#[trigger] s.skip(1)[j]).0.val28() == k;
                assert(s[j + 1] == s.skip(1)[j]);
            }
        }
        lemma_side_qty_absent(s.skip(1), k);
    }
}

/// Insert-or-overwrite, price by price: the upserted price rests the new
/// quantity, every other price is untouched.
pub proof fn lemma_upsert_qty(s: Seq<(Dec, Dec)>, p: Dec, q: Dec, k: int)
    ensures
        k == p.val28() ==> side_qty(upsert_spec(s, p, q), k) == Some(q),
        k != p.val28() ==> side_qty(upsert_spec(s, p, q), k) == side_qty(s, k),
    decreases s.len(),
{
    reveal_with_fuel(side_qty, 3);
    let r = upsert_spec(s, p, q);
    if s.len() == 0 {
        assert(r =~= seq![(p, q)]);
        assert(r.skip(1) =~= Seq::<(Dec, Dec)>::empty());
    } else if s[0].0.val28() < p.val28() {
        lemma_upsert_qty(s.skip(1), p, q, k);
        assert(r[0] == s[0]);
        assert(r.skip(1) =~= upsert_spec(s.skip(1), p, q));
    } else if s[0].0.val28() == p.val28() {
        assert(r[0] == (s[0].0, q));
        assert(r.skip(1) =~= s.skip(1));
    } else {
        assert(r[0] == (p, q));
        assert(r.skip(1) =~= s);
    }
}

/// Removal, price by price: the removed price rests nothing, every other
/// price is untouched.
pub proof fn lemma_remove_qty(s: Seq<(Dec, Dec)>, gone: int, k: int)
    requires
        sorted_keys(s),
    ensures
        side_qty(remove_spec(s, gone), k) == (if k == gone {
            None
        } else {
            side_qty(s, k)
        }),
    decreases s.len(),
{
    let r = remove_spec(s, gone);
    if s.len() == 0 {
    } else if s[0].0.val28() == gone {
        assert(r =~= s.skip(1));
        if k == gone {
            lemma_remove_gone(s, gone);
            lemma_side_qty_absent(r, gone);
        }
    } else {
        assert(sorted_keys(s.skip(1))) by {
            assert(forall|i: int| 0 <= i < s.skip(1).len() ==> s.skip(1)[i] == s[i + 1]);
        }
        lemma_remove_qty(s.skip(1), gone, k);
        assert(r[0] == s[0]);
        assert(r.skip(1) =~= remove_spec(s.skip(1), gone));
    }
}

/// One delta entry, price by price: a quantity of exactly zero removes
/// its price, any other quantity sets it, and no other price changes.
pub proof fn lemma_apply_entry_qty(s: Seq<(Dec, Dec)>, e: (Dec, Dec), k: int)
    requires
        sorted_keys(s),
    ensures
        side_qty(apply_entry_spec(s, e), k) == (if k == e.0.val28() {
            if e.1.val28() == 0 {
                None
            } else {
                Some(e.1)
            }
        } else {
            side_qty(s, k)
        }),
{
    if e.1.val28() == 0 {
        lemma_remove_qty(s, e.0.val28(), k);
    } else {
        lemma_upsert_qty(s, e.0, e.1, k);
    }
}

// ---------------------------------------------------------------------------
// Executable side operations, each returning exactly what its spec
// counterpart describes.
// ---------------------------------------------------------------------------
/// Copies the tail of a side from index `j` on.
fn copy_from(v: &Vec<(Dec, Dec)>, j: usize) -> (r: Vec<(Dec, Dec)>)
    requires
        j <= v@.len(),
    ensures
        r@ == v@.skip(j as int),
{
    let mut r: Vec<(Dec, Dec)> = Vec::new();
    let mut k: usize = j;
    while k < v.len()
        invariant
            j <= k <= v@.len(),
            r@ == v@.subrange(j as int, k as int),
        decreases v@.len() - k,
    {
        let e = v[k];
        r.push(e);
        proof {
            assert(r@ =~= v@.subrange(j as int, k as int + 1));
        }
        k = k + 1;
    }
    proof {
        assert(v@.subrange(j as int, v@.len() as int) =~= v@.skip(j as int));
    }
    r
}

/// Insert-or-overwrite on the suffix of a side starting at `i`.
fn upsert_rec(v: &Vec<(Dec, Dec)>, i: usize, p: Dec, q: Dec) -> (r: Vec<(Dec, Dec)>)
    requires
        i <= v@.len(),
        entries_wf(v@),
        p.wf(),
    ensures
        r@ == upsert_spec(v@.skip(i as int), p, q),
    decreases v@.len() - i,
{
    if i == v.len() {
        proof {
            assert(v@.skip(i as int) =~= Seq::<(Dec, Dec)>::empty());
        }
        let mut r: Vec<(Dec, Dec)> = Vec::new();
        r.push((p, q));
        proof {
            assert(r@ =~= seq![(p, q)]);
        }
        r
    } else {
        let e = v[i];
        proof {
            assert(v@.skip(i as int)[0] == e);
            assert(v@.skip(i as int).skip(1) =~= v@.skip(i as int + 1));
        }
        if e.0.lt(&p) {
            let mut rest = upsert_rec(v, i + 1, p, q);
            rest.insert(0, e);
            proof {
                assert(rest@ =~= seq![e] + upsert_spec(v@.skip(i as int + 1), p, q));
            }
            rest
        } else if e.0.eq_val(&p) {
            let mut r = copy_from(v, i + 1);
            r.insert(0, (e.0, q));
            proof {
                assert(r@ =~= seq![(e.0, q)] + v@.skip(i as int + 1));
            }
            r
        } else {
            let mut r = copy_from(v, i);
            r.insert(0, (p, q));
            proof {
                assert(r@ =~= seq![(p, q)] + v@.skip(i as int));
            }
            r
        }
    }
}

/// Removal on the suffix of a side starting at `i`.
fn remove_rec(v: &Vec<(Dec, Dec)>, i: usize, key: &Dec) -> (r: Vec<(Dec, Dec)>)
    requires
        i <= v@.len(),
        entries_wf(v@),
        key.wf(),
    ensures
        r@ == remove_spec(v@.skip(i as int), key.val28()),
    decreases v@.len() - i,
{
    if i == v.len() {
        proof {
            assert(v@.skip(i as int) =~= Seq::<(Dec, Dec)>::empty());
        }
        Vec::new()
    } else {
        let e = v[i];
        proof {
            assert(v@.skip(i as int)[0] == e);
            assert(v@.skip(i as int).skip(1) =~= v@.skip(i as int + 1));
        }
        if e.0.eq_val(key) {
            copy_from(v, i + 1)
        } else {
            let mut rest = remove_rec(v, i + 1, key);
            rest.insert(0, e);
            proof {
                assert(rest@ =~= seq![e] + remove_spec(v@.skip(i as int + 1), key.val28()));
            }
            rest
        }
    }
}

/// Builds a side from a snapshot's parsed level list.
fn fold_snap(es: &Vec<(Dec, Dec)>) -> (r: Vec<(Dec, Dec)>)
    requires
        entries_wf(es@),
    ensures
        r@ == snap_fold(Seq::<(Dec, Dec)>::empty(), es@),
        sorted_keys(r@),
        entries_wf(r@),
{
    let mut cur: Vec<(Dec, Dec)> = Vec::new();
    let mut i: usize = 0;
    proof {
        assert(cur@ =~= Seq::<(Dec, Dec)>::empty());
        assert(es@.skip(0) =~= es@);
    }
    while i < es.len()
        invariant
            i <= es@.len(),
            entries_wf(es@),
            sorted_keys(cur@),
            entries_wf(cur@),
            snap_fold(Seq::<(Dec, Dec)>::empty(), es@) == snap_fold(cur@, es@.skip(i as int)),
        decreases es@.len() - i,
    {
        let e = es[i];
        proof {
            assert(e.0.wf() && e.1.wf());
            lemma_upsert_sorted(cur@, e.0, e.1);
            lemma_upsert_wf(cur@, e.0, e.1);
            assert(es@.skip(i as int)[0] == e);
            assert(es@.skip(i as int).skip(1) =~= es@.skip(i as int + 1));
        }
        let next = upsert_rec(&cur, 0, e.0, e.1);
        proof {
            assert(cur@.skip(0) =~= cur@);
        }
        cur = next;
        i = i + 1;
    }
    proof {
        assert(es@.skip(es@.len() as int) =~= Seq::<(Dec, Dec)>::empty());
    }
    cur
}

/// Applies a delta's parsed entries to a copy of a side.
fn fold_delta(init: &Vec<(Dec, Dec)>, es: &Vec<(Dec, Dec)>) -> (r: Vec<(Dec, Dec)>)
    requires
        sorted_keys(init@),
        entries_wf(init@),
        entries_wf(es@),
    ensures
        r@ == delta_fold(init@, es@),
        sorted_keys(r@),
        entries_wf(r@),
{
    let mut cur: Vec<(Dec, Dec)> = copy_from(init, 0);
    let mut i: usize = 0;
    proof {
        assert(init@.skip(0) =~= init@);
        assert(es@.skip(0) =~= es@);
    }
    while i < es.len()
        invariant
            i <= es@.len(),
            entries_wf(es@),
            sorted_keys(cur@),
            entries_wf(cur@),
            delta_fold(init@, es@) == delta_fold(cur@, es@.skip(i as int)),
        decreases es@.len() - i,
    {
        let e = es[i];
        proof {
            assert(e.0.wf() && e.1.wf());
            lemma_apply_entry_invariants(cur@, e);
            assert(es@.skip(i as int)[0] == e);
            assert(es@.skip(i as int).skip(1) =~= es@.skip(i as int + 1));
        }
        let next = if e.1.is_zero() {
            remove_rec(&cur, 0, &e.0)
        } else {
            upsert_rec(&cur, 0, e.0, e.1)
        };
        proof {
            assert(cur@.skip(0) =~= cur@);
        }
        cur = next;
        i = i + 1;
    }
    proof {
        assert(es@.skip(es@.len() as int) =~= Seq::<(Dec, Dec)>::empty());
    }
    cur
}

// ---------------------------------------------------------------------------
// Parsing the wire's decimal-string level lists.
// ---------------------------------------------------------------------------
/// Both strings of a raw `(price, quantity)` pair parse as decimals.
pub open spec fn entry_parses(e: (String, String)) -> bool {
    dec_of(e.0@) is Some && dec_of(e.1@) is Some
}

/// The decimal pair a raw entry parses to.
pub open spec fn parsed_entry(e: (String, String)) -> (Dec, Dec) {
    (dec_of(e.0@).unwrap(), dec_of(e.1@).unwrap())
}

/// Every raw entry of the list parses.
pub open spec fn all_parse(raw: Seq<(String, String)>) -> bool {
    forall|i: int| 0 <= i < raw.len() ==> entry_parses(#[trigger] raw[i])
}

/// The decimal pairs a raw list parses to, position by position.
pub open spec fn parsed_levels(raw: Seq<(String, String)>) -> Seq<(Dec, Dec)> {
    Seq::new(raw.len(), |i: int| parsed_entry(raw[i]))
}

/// Parses a raw level list. Returns the parsed pairs exactly when every
/// string is a well-formed decimal; otherwise the index of the first raw
/// entry that is not. Malformed strings are never masked with defaults.
pub fn parse_levels(raw: &Vec<(String, String)>) -> (r: Result<Vec<(Dec, Dec)>, usize>)
    ensures
        match r {
            Ok(v) => all_parse(raw@) && v@ == parsed_levels(raw@) && entries_wf(v@),
            Err(ix) => ix < raw@.len() && !entry_parses(raw@[ix as int]) && (forall|j: int|
                0 <= j < ix ==> entry_parses(#[trigger] raw@[j])),
        },
{
    let mut v: Vec<(Dec, Dec)> = Vec::new();
    let mut i: usize = 0;
    while i < raw.len()
        invariant
            i <= raw@.len(),
            v@.len() == i,
            forall|j: int| 0 <= j < i ==> entry_parses(#[trigger] raw@[j]),
            forall|j: int| 0 <= j < i ==> v@[j] == parsed_entry(#[trigger] raw@[j]),
            forall|j: int| 0 <= j < i ==> (#[trigger] v@[j]).0.wf() && v@[j].1.wf(),
        decreases raw@.len() - i,
    {
        let e = &raw[i];
        let p = dec_from_str(e.0.as_str());
        let q = dec_from_str(e.1.as_str());
        match (p, q) {
            (Some(pd), Some(qd)) => {
                v.push((pd, qd));
            },
            _ => {
                return Err(i);
            },
        }
        i = i + 1;
    }
    proof {
        assert(v@ =~= parsed_levels(raw@));
    }
    Ok(v)
}

// ---------------------------------------------------------------------------
// The per-symbol reconciliation state machine.
// ---------------------------------------------------------------------------
/// What applying a delta did to the book.
#[derive(Clone, Copy, Debug, PartialEq, Eq, Structural)]
pub enum DeltaOutcome {
    /// The delta was contiguous and its entries were folded in.
    Applied,
    /// The book had seen no snapshot yet; the delta was dropped untouched.
    DiscardedUninitialized,
    /// The sequence number was not the successor of the last one: the
    /// local state was cleared and a fresh snapshot is awaited.
    GapDetected,
}

/// Per-symbol book state for delta-based venues: both sides as sorted
/// level lists, the last applied sequence number, and whether a snapshot
/// has initialized the book.
pub struct BookState {
    pub bids: Vec<(Dec, Dec)>,
    pub asks: Vec<(Dec, Dec)>,
    pub last_sequence: u64,
    pub initialized: bool,
}

/// The mathematical image of a `BookState`.
pub struct BookAbs {
    pub bids: Seq<(Dec, Dec)>,
    pub asks: Seq<(Dec, Dec)>,
    pub last_sequence: u64,
    pub initialized: bool,
}

/// The state a freshly created (or gap-cleared) book stands in.
pub open spec fn empty_abs() -> BookAbs {
    BookAbs { bids: Seq::empty(), asks: Seq::empty(), last_sequence: 0, initialized: false }
}

/// What a snapshot makes of a book, given the parsed level lists: both
/// sides rebuilt from empty, the sequence recorded, the book initialized.
pub open spec fn snapshot_step(bids: Seq<(Dec, Dec)>, asks: Seq<(Dec, Dec)>, sequence: u64) -> BookAbs {
    BookAbs {
        bids: snap_fold(Seq::empty(), bids),
        asks: snap_fold(Seq::empty(), asks),
        last_sequence: sequence,
        initialized: true,
    }
}

/// What a delta makes of a book, given the parsed level lists: discarded
/// before initialization, a full clear on a sequence gap, and the folded
/// entries when contiguous.
pub open spec fn delta_step(st: BookAbs, bids: Seq<(Dec, Dec)>, asks: Seq<(Dec, Dec)>, sequence: u64) -> (BookAbs, DeltaOutcome) {
    if !st.initialized {
        (st, DeltaOutcome::DiscardedUninitialized)
    } else if sequence != st.last_sequence + 1 {
        (empty_abs(), DeltaOutcome::GapDetected)
    } else {
        (
            BookAbs {
                bids: delta_fold(st.bids, bids),
                asks: delta_fold(st.asks, asks),
                last_sequence: sequence,
                initialized: true,
            },
            DeltaOutcome::Applied,
        )
    }
}

impl BookState {
    /// The mathematical image of this state.
    pub open spec fn abs_state(self) -> BookAbs {
        BookAbs {
            bids: self.bids@,
            asks: self.asks@,
            last_sequence: self.last_sequence,
            initialized: self.initialized,
        }
    }

    /// Both sides strictly sorted by numeric price with well-formed
    /// decimals throughout: the invariant every operation preserves.
    pub open spec fn wf(self) -> bool {
        &&& sorted_keys(self.bids@)
        &&& sorted_keys(self.asks@)
        &&& entries_wf(self.bids@)
        &&& entries_wf(self.asks@)
    }

    /// A fresh, uninitialized book.
    pub fn new() -> (r: BookState)
        ensures
            r.wf(),
            r.abs_state() == empty_abs(),
    {
        let r = BookState { bids: Vec::new(), asks: Vec::new(), last_sequence: 0, initialized: false };
        proof {
            assert(r.bids@ =~= Seq::<(Dec, Dec)>::empty());
            assert(r.asks@ =~= Seq::<(Dec, Dec)>::empty());
        }
        r
    }

    /// Clears and fully repopulates both sides from a snapshot's raw level
    /// lists, records its sequence number and marks the book initialized.
    /// A malformed decimal string is a decode error: the state is left
    /// untouched and the index of the first bad entry is returned.
    pub fn apply_snapshot(
        &mut self,
        raw_bids: &Vec<(String, String)>,
        raw_asks: &Vec<(String, String)>,
        sequence: u64,
    ) -> (r: Result<(), usize>)
        requires
            old(self).wf(),
        ensures
            final(self).wf(),
            match r {
                Ok(_) => all_parse(raw_bids@) && all_parse(raw_asks@) && final(self).abs_state()
                    == snapshot_step(parsed_levels(raw_bids@), parsed_levels(raw_asks@), sequence),
                Err(ix) => !(all_parse(raw_bids@) && all_parse(raw_asks@)) && (
                (ix < raw_bids@.len() && !entry_parses(raw_bids@[ix as int])) || (all_parse(
                    raw_bids@,
                ) && ix < raw_asks@.len() && !entry_parses(raw_asks@[ix as int]))) && *final(self)
                    == *old(self),
            },
    {
        let pb = match parse_levels(raw_bids) {
            Ok(v) => v,
            Err(ix) => {
                return Err(ix);
            },
        };
        let pa = match parse_levels(raw_asks) {
            Ok(v) => v,
            Err(ix) => {
                return Err(ix);
            },
        };
        let nb = fold_snap(&pb);
        let na = fold_snap(&pa);
        self.bids = nb;
        self.asks = na;
        self.last_sequence = sequence;
        self.initialized = true;
        Ok(())
    }

    /// Applies one delta. A delta before any snapshot is discarded without
    /// mutating state; a non-contiguous sequence number clears the state
    /// (fail-safe) and reports the gap; a contiguous delta folds its
    /// entries in, where a quantity of exactly zero removes its price.
    /// A malformed decimal string in a contiguous delta is a decode error:
    /// the state is left untouched.
    pub fn apply_delta(
        &mut self,
        raw_bids: &Vec<(String, String)>,
        raw_asks: &Vec<(String, String)>,
        sequence: u64,
    ) -> (r: Result<DeltaOutcome, usize>)
        requires
            old(self).wf(),
        ensures
            final(self).wf(),
            r == Ok::<DeltaOutcome, usize>(DeltaOutcome::DiscardedUninitialized) ==> *final(self)
                == *old(self),
            match r {
                Ok(outcome) => (final(self).abs_state(), outcome) == delta_step(
                    old(self).abs_state(),
                    parsed_levels(raw_bids@),
                    parsed_levels(raw_asks@),
                    sequence,
                ) && (old(self).initialized && sequence == old(self).last_sequence + 1
                    ==> all_parse(raw_bids@) && all_parse(raw_asks@)),
                Err(ix) => old(self).initialized && sequence == old(self).last_sequence + 1 && !(
                all_parse(raw_bids@) && all_parse(raw_asks@)) && ((ix < raw_bids@.len()
                    && !entry_parses(raw_bids@[ix as int])) || (all_parse(raw_bids@) && ix
                    < raw_asks@.len() && !entry_parses(raw_asks@[ix as int]))) && *final(self)
                    == *old(self),
            },
    {
        if !self.initialized {
            return Ok(DeltaOutcome::DiscardedUninitialized);
        }
        let contiguous = sequence > 0 && sequence - 1 == self.last_sequence;
        if !contiguous {
            self.bids = Vec::new();
            self.asks = Vec::new();
            self.last_sequence = 0;
            self.initialized = false;
            proof {
                assert(self.bids@ =~= Seq::<(Dec, Dec)>::empty());
                assert(self.asks@ =~= Seq::<(Dec, Dec)>::empty());
            }
            return Ok(DeltaOutcome::GapDetected);
        }
        let pb = match parse_levels(raw_bids) {
            Ok(v) => v,
            Err(ix) => {
                return Err(ix);
            },
        };
        let pa = match parse_levels(raw_asks) {
            Ok(v) => v,
            Err(ix) => {
                return Err(ix);
            },
        };
        let nb = fold_delta(&self.bids, &pb);
        let na = fold_delta(&self.asks, &pa);
        self.bids = nb;
        self.asks = na;
        self.last_sequence = sequence;
        Ok(DeltaOutcome::Applied)
    }
}

// ---------------------------------------------------------------------------
// Laws of the reconciliation engine.
// ---------------------------------------------------------------------------
/// Order-consistency of contiguous deltas: folding two delta entry lists
/// one after the other is folding one combined list holding their entries
/// in order — the net effect of the pair.
pub proof fn lemma_delta_fold_concat(s: Seq<(Dec, Dec)>, e1: Seq<(Dec, Dec)>, e2: Seq<(Dec, Dec)>)
    ensures
        delta_fold(delta_fold(s, e1), e2) == delta_fold(s, e1 + e2),
    decreases e1.len(),
{
    if e1.len() == 0 {
        assert(e1 + e2 =~= e2);
    } else {
        lemma_delta_fold_concat(apply_entry_spec(s, e1[0]), e1.skip(1), e2);
        assert((e1 + e2)[0] == e1[0]);
        assert((e1 + e2).skip(1) =~= e1.skip(1) + e2);
    }
}

/// A stream of deltas applied one after the other, in order.
pub open spec fn delta_fold_all(s: Seq<(Dec, Dec)>, ds: Seq<Seq<(Dec, Dec)>>) -> Seq<(Dec, Dec)>
    decreases ds.len(),
{
    if ds.len() == 0 {
        s
    } else {
        delta_fold_all(delta_fold(s, ds[0]), ds.skip(1))
    }
}

/// Order-consistency for any number of contiguous deltas: applying them
/// one after the other equals applying one combined update holding all
/// their entries in order — reconciliation folds to the net effect.
pub proof fn lemma_deltas_net_effect(s: Seq<(Dec, Dec)>, ds: Seq<Seq<(Dec, Dec)>>)
    ensures
        delta_fold_all(s, ds) == delta_fold(s, ds.flatten()),
    decreases ds.len(),
{
    if ds.len() == 0 {
        assert(ds.flatten() =~= Seq::<(Dec, Dec)>::empty());
    } else {
        lemma_deltas_net_effect(delta_fold(s, ds[0]), ds.skip(1));
        lemma_delta_fold_concat(s, ds[0], ds.skip(1).flatten());
        assert(ds.drop_first() =~= ds.skip(1));
        assert(ds.flatten() == ds[0] + ds.skip(1).flatten());
    }
}

/// Order-consistency at the step level: two contiguous deltas leave the
/// same sides as one combined delta holding both entry lists in order —
/// the net effect replaces the pair.
pub proof fn lemma_contiguous_deltas_net_effect(
    st: BookAbs,
    b1: Seq<(Dec, Dec)>,
    a1: Seq<(Dec, Dec)>,
    b2: Seq<(Dec, Dec)>,
    a2: Seq<(Dec, Dec)>,
    u1: u64,
    u2: u64,
)
    requires
        st.initialized,
        u1 == st.last_sequence + 1,
        u2 == u1 + 1,
    ensures
        delta_step(delta_step(st, b1, a1, u1).0, b2, a2, u2).0.bids == delta_step(
            st,
            b1 + b2,
            a1 + a2,
            u1,
        ).0.bids,
        delta_step(delta_step(st, b1, a1, u1).0, b2, a2, u2).0.asks == delta_step(
            st,
            b1 + b2,
            a1 + a2,
            u1,
        ).0.asks,
        delta_step(delta_step(st, b1, a1, u1).0, b2, a2, u2).1 == DeltaOutcome::Applied,
{
    lemma_delta_fold_concat(st.bids, b1, b2);
    lemma_delta_fold_concat(st.asks, a1, a2);
}

/// A delta entry with a quantity of exactly zero removes its price if
/// present, leaves the price absent, and is idempotent: applying it a
/// second time is a no-op, not an error.
pub proof fn lemma_zero_entry_idempotent(s: Seq<(Dec, Dec)>, p: Dec, q: Dec)
    requires
        sorted_keys(s),
        q.val28() == 0,
    ensures
        apply_entry_spec(s, (p, q)) == remove_spec(s, p.val28()),
        !key_in(apply_entry_spec(s, (p, q)), p.val28()),
        apply_entry_spec(apply_entry_spec(s, (p, q)), (p, q)) == apply_entry_spec(s, (p, q)),
{
    lemma_remove_gone(s, p.val28());
    lemma_remove_absent(remove_spec(s, p.val28()), p.val28());
}

/// A delta received while the book is uninitialized is discarded: the
/// state after the step is exactly the state before it.
pub proof fn lemma_uninitialized_delta_discarded(
    st: BookAbs,
    bids: Seq<(Dec, Dec)>,
    asks: Seq<(Dec, Dec)>,
    sequence: u64,
)
    requires
        !st.initialized,
    ensures
        delta_step(st, bids, asks, sequence) == (st, DeltaOutcome::DiscardedUninitialized),
{
}

/// A delta whose sequence number is not exactly the successor of the last
/// one clears the local state: both sides empty and `initialized` false,
/// so a fresh snapshot is required before any further delta is applied.
pub proof fn lemma_gap_clears(
    st: BookAbs,
    bids: Seq<(Dec, Dec)>,
    asks: Seq<(Dec, Dec)>,
    sequence: u64,
)
    requires
        st.initialized,
        sequence != st.last_sequence + 1,
    ensures
        delta_step(st, bids, asks, sequence) == (empty_abs(), DeltaOutcome::GapDetected),
        !delta_step(st, bids, asks, sequence).0.initialized,
        delta_step(st, bids, asks, sequence).0.bids.len() == 0,
        delta_step(st, bids, asks, sequence).0.asks.len() == 0,
{
}

/// Replay determinism: the reconciliation steps are functions of the
/// prior state and the message alone, so the same snapshot-and-delta
/// fixture replayed through two independent engines yields identical
/// books.
pub proof fn lemma_replay_deterministic(
    st1: BookAbs,
    st2: BookAbs,
    bids: Seq<(Dec, Dec)>,
    asks: Seq<(Dec, Dec)>,
    sequence: u64,
)
    requires
        st1 == st2,
    ensures
        delta_step(st1, bids, asks, sequence) == delta_step(st2, bids, asks, sequence),
{
}

} // verus!
