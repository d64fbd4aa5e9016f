use hubbard_data::Sequence;

#[test]
fn test_seq() {
    let u_range = Sequence::new(-10i64, 1, 10);
    let us = u_range.values();
    assert_eq!(us.len(), 21);
    assert_eq!(us[0], -10);
    assert_eq!(us[20], 10);
    // 0.05 to 0.25 by 0.05, in units of 1e-9
    let alpha_range = Sequence::new(50_000_000i64, 50_000_000, 250_000_000);
    assert_eq!(
        alpha_range.values(),
        vec![50_000_000, 100_000_000, 150_000_000, 200_000_000, 250_000_000]
    );
    let neg_range = Sequence::new(5i32, -1, 0);
    assert_eq!(neg_range.values(), vec![5, 4, 3, 2, 1, 0]);
}

#[test]
fn sequence_last_is_greatest_reachable() {
    assert_eq!(Sequence::new(0i64, 2, 12).values(), vec![0, 2, 4, 6, 8, 10, 12]);
    assert_eq!(Sequence::new(0i64, 5, 12).values(), vec![0, 5, 10]);
    assert_eq!(Sequence::new(3i32, 4, 3).values(), vec![3]);
}

#[test]
fn sequence_descending() {
    assert_eq!(Sequence::new(10i64, -3, 0).values(), vec![10, 7, 4, 1]);
}

#[test]
fn sequence_stalled_step_yields_start_only() {
    assert_eq!(Sequence::new(0i64, 0, 5).values(), vec![0]);
    assert_eq!(Sequence::new(0i64, -1, 5).values(), vec![0]);
    assert_eq!(Sequence::new(5i32, 1, 0).values(), vec![5]);
    assert_eq!(Sequence::new(5i32, 0, 0).values(), vec![5]);
}

#[test]
fn sequence_stops_at_type_bound() {
    assert_eq!(Sequence::new(i32::MAX - 1, 5, i32::MAX).values(), vec![i32::MAX - 1]);
    assert_eq!(Sequence::new(i64::MIN + 1, -2, i64::MIN).values(), vec![i64::MIN + 1]);
}

#[test]
fn sequence_next_restarts_after_end() {
    let mut s = Sequence::new(1i32, 1, 2);
    assert_eq!(s.next(), Some(1));
    assert_eq!(s.next(), Some(2));
    assert_eq!(s.next(), None);
    assert_eq!(s.next(), Some(1));
    // values() always starts from the beginning
    assert_eq!(s.values(), vec![1, 2]);
}
