use crypto_in_one_rs::book::{BookState, DeltaOutcome};
use crypto_in_one_rs::decimal::Dec;

fn lv(p: &str, q: &str) -> (String, String) {
    (p.to_string(), q.to_string())
}

#[test]
fn snapshot_populates_and_sorts_both_sides() {
    let mut st = BookState::new();
    assert!(!st.initialized);
    let bids = vec![lv("100.0", "3"), lv("100.5", "2"), lv("99.5", "7")];
    let asks = vec![lv("101.5", "4"), lv("101.0", "1")];
    st.apply_snapshot(&bids, &asks, 5).unwrap();
    assert!(st.initialized);
    assert_eq!(st.last_sequence, 5);
    // internal sides are ascending by numeric price
    let bid_prices: Vec<Dec> = st.bids.iter().map(|e| e.0).collect();
    assert_eq!(
        bid_prices,
        vec![
            Dec { mantissa: 995, scale: 1 },
            Dec { mantissa: 1000, scale: 1 },
            Dec { mantissa: 1005, scale: 1 }
        ]
    );
    assert_eq!(st.asks.len(), 2);
    assert!(st.asks[0].0.lt(&st.asks[1].0));
}

#[test]
fn snapshot_overwrites_equal_prices_with_last_quantity() {
    let mut st = BookState::new();
    // 100.5 and 100.50 are the same price level: the later quantity wins,
    // the stored price representation stays the first one seen.
    let bids = vec![lv("100.5", "2"), lv("100.50", "9")];
    st.apply_snapshot(&bids, &vec![], 1).unwrap();
    assert_eq!(st.bids.len(), 1);
    assert_eq!(st.bids[0].0, Dec { mantissa: 1005, scale: 1 });
    assert_eq!(st.bids[0].1, Dec { mantissa: 9, scale: 0 });
}

#[test]
fn snapshot_decode_error_leaves_state_untouched() {
    let mut st = BookState::new();
    st.apply_snapshot(&vec![lv("100.5", "2")], &vec![], 1).unwrap();
    let bad = vec![lv("not-a-number", "2")];
    let r = st.apply_snapshot(&bad, &vec![], 2);
    assert_eq!(r, Err(0));
    // prior snapshot still stands
    assert!(st.initialized);
    assert_eq!(st.last_sequence, 1);
    assert_eq!(st.bids.len(), 1);
}

#[test]
fn delta_before_snapshot_is_discarded_without_mutation() {
    let mut st = BookState::new();
    let r = st.apply_delta(&vec![lv("100.0", "1")], &vec![], 1).unwrap();
    assert_eq!(r, DeltaOutcome::DiscardedUninitialized);
    assert!(!st.initialized);
    assert_eq!(st.bids.len(), 0);
    assert_eq!(st.asks.len(), 0);
    assert_eq!(st.last_sequence, 0);
}

#[test]
fn contiguous_delta_inserts_overwrites_and_removes() {
    let mut st = BookState::new();
    st.apply_snapshot(&vec![lv("100.5", "2"), lv("100.0", "3")], &vec![lv("101.0", "1")], 10)
        .unwrap();
    // insert a new level, overwrite one, remove one
    let r = st
        .apply_delta(
            &vec![lv("99.0", "5"), lv("100.5", "6"), lv("100.0", "0")],
            &vec![lv("101.0", "0")],
            11,
        )
        .unwrap();
    assert_eq!(r, DeltaOutcome::Applied);
    assert_eq!(st.last_sequence, 11);
    assert_eq!(st.bids.len(), 2);
    assert_eq!(st.bids[0].0, Dec { mantissa: 990, scale: 1 });
    assert_eq!(st.bids[1].0, Dec { mantissa: 1005, scale: 1 });
    assert_eq!(st.bids[1].1, Dec { mantissa: 6, scale: 0 });
    assert_eq!(st.asks.len(), 0);
}

#[test]
fn zero_quantity_delta_is_idempotent() {
    let mut st = BookState::new();
    st.apply_snapshot(&vec![lv("100.5", "2"), lv("100.0", "3")], &vec![], 1).unwrap();
    let r = st.apply_delta(&vec![lv("100.0", "0")], &vec![], 2).unwrap();
    assert_eq!(r, DeltaOutcome::Applied);
    assert_eq!(st.bids.len(), 1);
    // removing the same price again is a no-op, not an error
    let r = st.apply_delta(&vec![lv("100.0", "0")], &vec![], 3).unwrap();
    assert_eq!(r, DeltaOutcome::Applied);
    assert_eq!(st.bids.len(), 1);
    assert_eq!(st.bids[0].0, Dec { mantissa: 1005, scale: 1 });
}

#[test]
fn sequence_gap_clears_state_and_demands_snapshot() {
    let mut st = BookState::new();
    st.apply_snapshot(&vec![lv("100.5", "2")], &vec![lv("101.0", "1")], 5).unwrap();
    // 7 != 5 + 1: gap
    let r = st.apply_delta(&vec![lv("100.0", "1")], &vec![], 7).unwrap();
    assert_eq!(r, DeltaOutcome::GapDetected);
    assert!(!st.initialized);
    assert_eq!(st.bids.len(), 0);
    assert_eq!(st.asks.len(), 0);
    // further deltas are discarded until a fresh snapshot arrives
    let r = st.apply_delta(&vec![lv("100.0", "1")], &vec![], 8).unwrap();
    assert_eq!(r, DeltaOutcome::DiscardedUninitialized);
    st.apply_snapshot(&vec![lv("100.5", "2")], &vec![], 8).unwrap();
    assert!(st.initialized);
    let r = st.apply_delta(&vec![lv("100.0", "1")], &vec![], 9).unwrap();
    assert_eq!(r, DeltaOutcome::Applied);
}

#[test]
fn delta_decode_error_leaves_state_untouched() {
    let mut st = BookState::new();
    st.apply_snapshot(&vec![lv("100.5", "2")], &vec![], 1).unwrap();
    let r = st.apply_delta(&vec![lv("100.5", "?")], &vec![], 2);
    assert_eq!(r, Err(0));
    assert!(st.initialized);
    assert_eq!(st.last_sequence, 1);
    assert_eq!(st.bids[0].1, Dec { mantissa: 2, scale: 0 });
}

#[test]
fn contiguous_deltas_equal_their_combined_net_effect() {
    // applying D1 then D2 equals applying one delta carrying both entry
    // lists in order
    let snap_b = vec![lv("100.5", "2"), lv("100.0", "3")];
    let snap_a = vec![lv("101.0", "1")];
    let d1_b = vec![lv("99.5", "4"), lv("100.0", "0")];
    let d2_b = vec![lv("99.5", "6"), lv("100.5", "0")];

    let mut one_by_one = BookState::new();
    one_by_one.apply_snapshot(&snap_b, &snap_a, 1).unwrap();
    one_by_one.apply_delta(&d1_b, &vec![], 2).unwrap();
    one_by_one.apply_delta(&d2_b, &vec![], 3).unwrap();

    let mut combined = BookState::new();
    combined.apply_snapshot(&snap_b, &snap_a, 1).unwrap();
    let mut both = d1_b.clone();
    both.extend(d2_b.clone());
    combined.apply_delta(&both, &vec![], 2).unwrap();

    assert_eq!(one_by_one.bids, combined.bids);
    assert_eq!(one_by_one.asks, combined.asks);
}

#[test]
fn replay_through_two_engines_is_byte_identical() {
    let snap_b = vec![lv("100.5", "2"), lv("100.0", "3")];
    let snap_a = vec![lv("101.0", "1"), lv("101.5", "9")];
    let d_b = vec![lv("100.0", "0"), lv("99.5", "1")];
    let d_a = vec![lv("101.5", "0")];

    let mut e1 = BookState::new();
    let mut e2 = BookState::new();
    for e in [&mut e1, &mut e2] {
        e.apply_snapshot(&snap_b, &snap_a, 41).unwrap();
        e.apply_delta(&d_b, &d_a, 42).unwrap();
    }
    assert_eq!(format!("{:?}", e1.bids), format!("{:?}", e2.bids));
    assert_eq!(format!("{:?}", e1.asks), format!("{:?}", e2.asks));
    assert_eq!(e1.last_sequence, e2.last_sequence);
    assert_eq!(e1.initialized, e2.initialized);
}
