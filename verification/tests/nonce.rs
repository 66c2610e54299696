use rusty_esp_mid::NonceWindow;

#[test]
fn replay_is_rejected_until_evicted() {
    let mut w = NonceWindow::<3>::new();
    let n = |b: u8| [b; 32];
    assert!(w.check_and_insert(&n(1)));
    assert!(!w.check_and_insert(&n(1)));
    assert!(w.check_and_insert(&n(2)));
    assert!(w.check_and_insert(&n(3)));
    assert_eq!(w.len(), 3);
    assert!(w.check_and_insert(&n(4)), "evicts the oldest");
    assert!(w.check_and_insert(&n(1)), "evicted nonce is accepted again");
    assert!(!w.check_and_insert(&n(4)));
    w.clear();
    assert!(w.is_empty());
    assert!(w.check_and_insert(&n(4)));
}

#[test]
fn window_holds_exactly_the_last_n_after_wrapping() {
    let mut w = NonceWindow::<2>::default();
    for b in 1u8..=5 {
        assert!(w.check_and_insert(&[b; 32]));
    }
    assert_eq!(w.len(), 2);
    assert!(w.contains(&[4; 32]));
    assert!(w.contains(&[5; 32]));
    assert!(!w.contains(&[3; 32]));
    assert!(!w.check_and_insert(&[5; 32]));
    assert!(w.check_and_insert(&[3; 32]));
    assert!(!w.contains(&[4; 32]));
}

#[test]
fn zero_capacity_window_refuses_everything() {
    let mut w = NonceWindow::<0>::new();
    assert!(!w.check_and_insert(&[1; 32]));
    assert!(w.is_empty());
    assert!(!w.contains(&[1; 32]));
}

#[test]
fn refused_nonces_are_not_counted_twice() {
    let mut w = NonceWindow::<4>::new();
    for _ in 0..3 {
        assert!(w.check_and_insert(&[7; 32]) || w.contains(&[7; 32]));
    }
    assert_eq!(w.len(), 1);
    assert!(w.check_and_insert(&[8; 32]));
    assert!(!w.check_and_insert(&[7; 32]));
    assert_eq!(w.len(), 2);
}
